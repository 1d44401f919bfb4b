//! Ring buffer for messages from the control side to the audio side.
//!
//! Pushing and popping both take the ring by `&mut`, so whoever shares it
//! between threads guards it as any other exclusively borrowed value; the ring
//! itself makes no promise about use from two threads at once. The store has a
//! fixed capacity; one slot always stays free, so a ring made with
//! capacity `c` holds at most `c - 1` items. Items leave in the order they came in.
use vstd::prelude::*;

verus! {

/// The slot that follows `i` in a store of `cap` slots.
pub open spec fn slot_after(i: int, cap: int) -> int {
    if i + 1 == cap {
        0
    } else {
        i + 1
    }
}

/// The slot `k` places after `start` in a store of `cap` slots (`k < cap`).
pub open spec fn slot_at(start: int, k: int, cap: int) -> int {
    if start + k < cap {
        start + k
    } else {
        start + k - cap
    }
}

/// How many items lie between the read and the write index.
pub open spec fn occupied(write: int, read: int, cap: int) -> int {
    if write >= read {
        write - read
    } else {
        write + cap - read
    }
}

/// What a push does to the queued items of a ring of capacity `cap`:
/// whether it was accepted, and the items afterwards.
pub open spec fn push_model<T>(items: Seq<T>, cap: nat, item: T) -> (bool, Seq<T>) {
    if items.len() + 1 < cap {
        (true, items.push(item))
    } else {
        (false, items)
    }
}

/// What a pop does to the queued items: the item handed out, and the items afterwards.
pub open spec fn pop_model<T>(items: Seq<T>) -> (Option<T>, Seq<T>) {
    if items.len() == 0 {
        (None, items)
    } else {
        (Some(items[0]), items.drop_first())
    }
}

/// One operation on a ring, as used to state what a run of operations does.
pub enum RingOp<T> {
    Push(T),
    Pop,
}

/// The effect of one operation: the items afterwards, the items it accepted,
/// and the items it handed out.
pub open spec fn step_model<T>(items: Seq<T>, cap: nat, op: RingOp<T>) -> (Seq<T>, Seq<T>, Seq<T>) {
    match op {
        RingOp::Push(x) => {
            let (ok, after) = push_model(items, cap, x);
            (after, if ok { seq![x] } else { Seq::empty() }, Seq::empty())
        },
        RingOp::Pop => {
            let (out, after) = pop_model(items);
            (after, Seq::empty(), match out {
                Some(y) => seq![y],
                None => Seq::empty(),
            })
        },
    }
}

/// The effect of a run of operations: the items afterwards, every item accepted
/// by a push, and every item handed out by a pop, each in the order of the run.
pub open spec fn run_model<T>(items: Seq<T>, cap: nat, ops: Seq<RingOp<T>>) -> (Seq<T>, Seq<T>, Seq<T>)
    decreases ops.len(),
{
    if ops.len() == 0 {
        (items, Seq::empty(), Seq::empty())
    } else {
        let (items1, acc1, out1) = step_model(items, cap, ops[0]);
        let (items2, acc2, out2) = run_model(items1, cap, ops.drop_first());
        (items2, acc1 + acc2, out1 + out2)
    }
}

/// First in, first out: over any run of pushes and pops, what was handed out
/// followed by what is still queued equals what was queued at the start followed
/// by every accepted item, in order. No item is lost, duplicated or reordered.
pub proof fn lemma_fifo<T>(items: Seq<T>, cap: nat, ops: Seq<RingOp<T>>)
    ensures
        ({
            let (rest, accepted, handed_out) = run_model(items, cap, ops);
            handed_out + rest == items + accepted
        }),
    decreases ops.len(),
{
    if ops.len() > 0 {
        let (items1, acc1, out1) = step_model(items, cap, ops[0]);
        lemma_fifo(items1, cap, ops.drop_first());
        let (items2, acc2, out2) = run_model(items1, cap, ops.drop_first());
        assert(out2 + items2 == items1 + acc2);
        match ops[0] {
            RingOp::Push(x) => {
                if items.len() + 1 < cap {
                    assert(items1 + acc2 =~= items + (acc1 + acc2));
                } else {
                    assert(acc1 + acc2 =~= acc2);
                }
                assert((out1 + out2) + items2 =~= out2 + items2);
            },
            RingOp::Pop => {
                if items.len() == 0 {
                    assert((out1 + out2) + items2 =~= out2 + items2);
                } else {
                    assert(items =~= seq![items[0]] + items1);
                    assert((out1 + out2) + items2 =~= out1 + (out2 + items2));
                }
                assert(acc1 + acc2 =~= acc2);
            },
        }
    }
}

/// A run never lets the ring hold more than `cap - 1` items.
pub proof fn lemma_bounded<T>(items: Seq<T>, cap: nat, ops: Seq<RingOp<T>>)
    requires
        items.len() < cap,
    ensures
        run_model(items, cap, ops).0.len() < cap,
    decreases ops.len(),
{
    if ops.len() > 0 {
        let (items1, acc1, out1) = step_model(items, cap, ops[0]);
        lemma_bounded(items1, cap, ops.drop_first());
    }
}

/// Push each of `xs` in turn.
pub open spec fn pushes<T>(xs: Seq<T>) -> Seq<RingOp<T>> {
    Seq::new(xs.len(), |i: int| RingOp::Push(xs[i]))
}

/// One slot stays free: pushing into a ring of capacity `cap` that holds `items`
/// accepts the pushed items, in order, until `cap - 1` are queued, and refuses
/// every push after that.
pub proof fn lemma_fill<T>(items: Seq<T>, cap: nat, xs: Seq<T>)
    requires
        items.len() < cap,
    ensures
        ({
            let room = (cap - 1 - items.len()) as nat;
            let n = if xs.len() <= room { xs.len() } else { room };
            let (after, accepted, handed_out) = run_model(items, cap, pushes(xs));
            &&& accepted == xs.take(n as int)
            &&& after == items + xs.take(n as int)
            &&& handed_out.len() == 0
        }),
    decreases xs.len(),
{
    let room = (cap - 1 - items.len()) as nat;
    if xs.len() > 0 {
        let ops = pushes(xs);
        assert(ops.drop_first() =~= pushes(xs.drop_first()));
        assert(ops[0] == RingOp::Push(xs[0]));
        if items.len() + 1 < cap {
            lemma_fill(items.push(xs[0]), cap, xs.drop_first());
            let n1 = if xs.len() - 1 <= room - 1 { (xs.len() - 1) as nat } else { (room - 1) as nat };
            assert(seq![xs[0]] + xs.drop_first().take(n1 as int) =~= xs.take(n1 as int + 1));
            assert(items.push(xs[0]) + xs.drop_first().take(n1 as int) =~= items + xs.take(n1 as int + 1));
        } else {
            lemma_fill(items, cap, xs.drop_first());
            assert(xs.drop_first().take(0) =~= xs.take(0));
            assert(Seq::<T>::empty() + xs.take(0) =~= xs.take(0));
        }
    } else {
        assert(xs.take(0) =~= Seq::<T>::empty());
        assert(items + Seq::<T>::empty() =~= items);
    }
}

/// A first-in first-out ring buffer with a fixed backing store.
pub struct RingBuf<T> {
    buffer: Vec<T>,
    write: usize,
    read: usize,
}

impl<T> View for RingBuf<T> {
    type V = Seq<T>;

    /// The queued items, oldest first.
    closed spec fn view(&self) -> Seq<T> {
        let cap = self.buffer@.len() as int;
        Seq::new(
            occupied(self.write as int, self.read as int, cap) as nat,
            |k: int| self.buffer@[slot_at(self.read as int, k, cap)],
        )
    }
}

impl<T: Copy + Default> RingBuf<T> {
    /// The number of slots of the backing store.
    pub closed spec fn cap(&self) -> nat {
        self.buffer@.len()
    }

    /// Both indices lie inside the store (and are 0 for an empty store).
    pub closed spec fn wf(&self) -> bool {
        if self.buffer@.len() == 0 {
            self.write == 0 && self.read == 0
        } else {
            self.write < self.buffer@.len() && self.read < self.buffer@.len()
        }
    }

    pub fn new(capacity: usize) -> (rb: Self)
        ensures
            rb.wf(),
            rb.cap() == capacity,
            rb@ == Seq::<T>::empty(),
    {
        let mut v: Vec<T> = Vec::with_capacity(capacity);
        let mut i: usize = 0;
        while i < capacity
            invariant
                i <= capacity,
                v@.len() == i,
            decreases capacity - i,
        {
            v.push(T::default());
            i = i + 1;
        }
        let rb = Self { buffer: v, write: 0, read: 0 };
        assert(rb@ =~= Seq::<T>::empty());
        rb
    }

    pub fn capacity(&self) -> (c: usize)
        ensures
            c == self.cap(),
    {
        self.buffer.len()
    }

    /// Push a single item. Returns false if full. A store of no slots cannot
    /// take a push at all.
    pub fn push(&mut self, item: T) -> (accepted: bool)
        requires
            old(self).wf(),
            old(self).cap() > 0,
        ensures
            final(self).wf(),
            final(self).cap() == old(self).cap(),
            (accepted, final(self)@) == push_model(old(self)@, old(self).cap(), item),
    {
        let write = self.write;
        let read = self.read;
        let cap = self.buffer.len();
        let next = if write + 1 == cap {
            0
        } else {
            write + 1
        };
        if next == read {
            return false;
        }
        let ghost old_view = self@;
        self.buffer.set(write, item);
        self.write = next;
        assert(self@ =~= old_view.push(item));
        true
    }

    /// Pop a single item. Returns None if empty.
    pub fn pop(&mut self) -> (item: Option<T>)
        requires
            old(self).wf(),
        ensures
            final(self).wf(),
            final(self).cap() == old(self).cap(),
            (item, final(self)@) == pop_model(old(self)@),
    {
        let read = self.read;
        let write = self.write;
        if read == write {
            return None;
        }
        let ghost old_view = self@;
        let item = self.buffer[read];
        let cap = self.buffer.len();
        self.read = if read + 1 == cap {
            0
        } else {
            read + 1
        };
        assert(self@ =~= old_view.drop_first());
        Some(item)
    }

    pub fn len(&self) -> (n: usize)
        requires
            self.wf(),
        ensures
            n == self@.len(),
            self.cap() > 0 ==> n < self.cap(),
    {
        let write = self.write;
        let read = self.read;
        if write >= read {
            write - read
        } else {
            self.buffer.len() - read + write
        }
    }

    pub fn is_empty(&self) -> (b: bool)
        requires
            self.wf(),
        ensures
            b == (self@.len() == 0),
    {
        self.write == self.read
    }
}

} // verus!
