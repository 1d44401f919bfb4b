//! The read side of a playback queue: the chunk being played and how much of it
//! is left, copied into output buffers with silence after an underrun.
use vstd::prelude::*;

verus! {

/// The chunk a playback queue is reading and its read offset.
pub struct ChunkCursor<T> {
    current_chunk: Vec<T>,
    chunk_offset: usize,
}

impl<T: Copy> View for ChunkCursor<T> {
    type V = Seq<T>;

    /// The samples of the current chunk not yet copied out.
    closed spec fn view(&self) -> Seq<T> {
        let len = self.current_chunk@.len() as int;
        if self.chunk_offset >= len {
            Seq::empty()
        } else {
            self.current_chunk@.subrange(self.chunk_offset as int, len)
        }
    }
}

impl<T: Copy> ChunkCursor<T> {
    pub fn new() -> (c: Self)
        ensures
            c@ == Seq::<T>::empty(),
    {
        ChunkCursor { current_chunk: Vec::new(), chunk_offset: 0 }
    }

    /// Whether the current chunk is used up, so that the next one is due.
    pub fn is_exhausted(&self) -> (b: bool)
        ensures
            b == (self@.len() == 0),
    {
        self.chunk_offset >= self.current_chunk.len()
    }

    /// Start reading a new chunk.
    pub fn load(&mut self, chunk: Vec<T>)
        ensures
            final(self)@ == chunk@,
    {
        self.current_chunk = chunk;
        self.chunk_offset = 0;
        assert(self@ =~= chunk@);
    }

    /// Copy as much of the chunk as fits into `out` from position `written` on,
    /// and return how much that was.
    pub fn copy_into(&mut self, out: &mut [T], written: usize) -> (n: usize)
        requires
            written <= old(out)@.len(),
        ensures
            n == (if old(self)@.len() < old(out)@.len() - written {
                old(self)@.len()
            } else {
                (old(out)@.len() - written) as nat
            }),
            final(out)@ == old(out)@.subrange(0, written as int) + old(self)@.subrange(0, n as int)
                + old(out)@.subrange(written + n, old(out)@.len() as int),
            final(self)@ == old(self)@.subrange(n as int, old(self)@.len() as int),
    {
        let ghost rem = self@;
        let len = self.current_chunk.len();
        let available = if self.chunk_offset >= len {
            0
        } else {
            len - self.chunk_offset
        };
        let olen = out.len();
        let room = olen - written;
        let n = if room < available {
            room
        } else {
            available
        };
        let mut k: usize = 0;
        while k < n
            invariant
                k <= n,
                n <= available,
                available == rem.len(),
                written + n <= olen,
                olen == out@.len(),
                out@.len() == old(out)@.len(),
                self@ == rem,
                len == self.current_chunk@.len(),
                available == 0 || self.chunk_offset + available == len,
                out@ == old(out)@.subrange(0, written as int) + rem.subrange(0, k as int) + old(
                    out,
                )@.subrange(written + k, old(out)@.len() as int),
            decreases n - k,
        {
            let v = self.current_chunk[self.chunk_offset + k];
            assert(v == rem[k as int]);
            out[written + k] = v;
            k = k + 1;
            assert(out@ =~= old(out)@.subrange(0, written as int) + rem.subrange(0, k as int) + old(
                out,
            )@.subrange(written + k, old(out)@.len() as int));
        }
        self.chunk_offset = self.chunk_offset + n;
        assert(self@ =~= rem.subrange(n as int, rem.len() as int));
        n
    }

    /// One step of filling `out` from position `written` on. Where the current
    /// chunk is used up, `received` is what the queue handed over when asked for
    /// the next one: with nothing, the rest of `out` is filled with `silence` and
    /// the fill ends (`None`); with a chunk, reading goes on from it. Then as much
    /// as fits is copied out, and the new position is returned.
    pub fn fill_step(&mut self, out: &mut [T], written: usize, received: Option<Vec<T>>, silence: T) -> (r: Option<usize>)
        requires
            written < old(out)@.len(),
            old(self)@.len() > 0 ==> received is None,
        ensures
            old(self)@.len() == 0 && received is None ==> {
                &&& r is None
                &&& final(out)@ == old(out)@.subrange(0, written as int) + Seq::new(
                    (old(out)@.len() - written) as nat,
                    |i: int| silence,
                )
                &&& final(self)@ == old(self)@
            },
            !(old(self)@.len() == 0 && received is None) ==> {
                let chunk = if old(self)@.len() == 0 { received->0@ } else { old(self)@ };
                let room = (old(out)@.len() - written) as nat;
                let n = if chunk.len() < room { chunk.len() } else { room };
                &&& r == Some((written + n) as usize)
                &&& final(out)@ == old(out)@.subrange(0, written as int) + chunk.subrange(0, n as int)
                    + old(out)@.subrange(written + n, old(out)@.len() as int)
                &&& final(self)@ == chunk.subrange(n as int, chunk.len() as int)
            },
    {
        let olen = out.len();
        if self.is_exhausted() {
            match received {
                Some(chunk) => self.load(chunk),
                None => {
                    fill_silence(out, written, silence);
                    return None;
                },
            }
        }
        let n = self.copy_into(out, written);
        assert(written + n <= olen);
        Some(written + n)
    }
}

/// Fill `out` with `silence` from position `from` on.
pub fn fill_silence<T: Copy>(out: &mut [T], from: usize, silence: T)
    requires
        from <= old(out)@.len(),
    ensures
        final(out)@ == old(out)@.subrange(0, from as int) + Seq::new(
            (old(out)@.len() - from) as nat,
            |i: int| silence,
        ),
{
    let mut k: usize = from;
    while k < out.len()
        invariant
            from <= k <= out@.len(),
            out@.len() == old(out)@.len(),
            out@ == old(out)@.subrange(0, from as int) + Seq::new((k - from) as nat, |i: int| silence)
                + old(out)@.subrange(k as int, old(out)@.len() as int),
        decreases out@.len() - k,
    {
        out[k] = silence;
        k = k + 1;
        assert(out@ =~= old(out)@.subrange(0, from as int) + Seq::new(
            (k - from) as nat,
            |i: int| silence,
        ) + old(out)@.subrange(k as int, old(out)@.len() as int));
    }
    assert(out@ =~= old(out)@.subrange(0, from as int) + Seq::new(
        (old(out)@.len() - from) as nat,
        |i: int| silence,
    ));
}

} // verus!
