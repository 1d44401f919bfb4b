//! Length-prefixed framing of the sidecar transport: a 4-byte big-endian length
//! header followed by that many payload bytes.
use vstd::prelude::*;

verus! {

/// The number that four big-endian bytes spell.
pub open spec fn be_value(b: Seq<u8>) -> int
    recommends
        b.len() >= 4,
{
    b[0] * 16777216 + b[1] * 65536 + b[2] * 256 + b[3]
}

/// The four big-endian bytes of `n`.
pub open spec fn be_bytes(n: u32) -> Seq<u8> {
    seq![
        (n / 16777216) as u8,
        (n / 65536 % 256) as u8,
        (n / 256 % 256) as u8,
        (n % 256) as u8,
    ]
}

/// A frame carrying `payload`: its length, cut to 32 bits, then the payload.
pub open spec fn encode_spec(payload: Seq<u8>) -> Seq<u8> {
    be_bytes((payload.len() % 4294967296) as u32) + payload
}

/// The first complete frame at the front of `bytes`, if there is one: its payload
/// and the bytes after it.
pub open spec fn parse_spec(bytes: Seq<u8>) -> Option<(Seq<u8>, Seq<u8>)> {
    if bytes.len() >= 4 && bytes.len() - 4 >= be_value(bytes) {
        let end = 4 + be_value(bytes);
        Some((bytes.subrange(4, end), bytes.subrange(end, bytes.len() as int)))
    } else {
        None
    }
}

/// A complete frame at the front is cut off whole: what is left is shorter.
pub proof fn lemma_parse_shrinks(bytes: Seq<u8>)
    ensures
        parse_spec(bytes) matches Some((p, rest)) ==> rest.len() < bytes.len(),
{
}

/// Every complete frame at the front of `bytes`, in order, and the bytes after
/// the last of them.
pub open spec fn drain_spec(bytes: Seq<u8>) -> (Seq<Seq<u8>>, Seq<u8>)
    decreases bytes.len(),
{
    match parse_spec(bytes) {
        Some((p, rest)) => {
            proof {
                lemma_parse_shrinks(bytes);
            }
            let (ps, tail) = drain_spec(rest);
            (seq![p] + ps, tail)
        },
        None => (Seq::empty(), bytes),
    }
}

/// The frames of `payloads`, one after another.
pub open spec fn encode_all(payloads: Seq<Seq<u8>>) -> Seq<u8>
    decreases payloads.len(),
{
    if payloads.len() == 0 {
        Seq::empty()
    } else {
        encode_spec(payloads[0]) + encode_all(payloads.drop_first())
    }
}

/// A connection that has buffered `buffered` and then reads `chunks`, cutting out
/// every complete frame after each read: the payloads it cuts, in order, and what
/// stays buffered at the end.
pub open spec fn receive_spec(buffered: Seq<u8>, chunks: Seq<Seq<u8>>) -> (Seq<Seq<u8>>, Seq<u8>)
    decreases chunks.len(),
{
    if chunks.len() == 0 {
        (Seq::empty(), buffered)
    } else {
        let (ps, rest) = drain_spec(buffered + chunks[0]);
        let (more, tail) = receive_spec(rest, chunks.drop_first());
        (ps + more, tail)
    }
}

proof fn lemma_be_roundtrip(n: u32)
    ensures
        be_value(be_bytes(n)) == n,
        be_bytes(n).len() == 4,
{
    let b = be_bytes(n);
    assert(n as int == (n / 16777216) * 16777216 + (n / 65536 % 256) * 65536 + (n / 256 % 256) * 256
        + n % 256) by (nonlinear_arith);
}

/// Read the big-endian length at the front of `bytes`.
pub fn read_be_u32(bytes: &[u8]) -> (n: u32)
    requires
        bytes@.len() >= 4,
    ensures
        n == be_value(bytes@),
{
    let b0 = bytes[0] as u32;
    let b1 = bytes[1] as u32;
    let b2 = bytes[2] as u32;
    let b3 = bytes[3] as u32;
    b0 * 16777216 + b1 * 65536 + b2 * 256 + b3
}

/// The big-endian bytes of `n`.
pub fn write_be_u32(n: u32) -> (b: Vec<u8>)
    ensures
        b@ == be_bytes(n),
{
    let mut b: Vec<u8> = Vec::new();
    b.push((n / 16777216) as u8);
    b.push((n / 65536 % 256) as u8);
    b.push((n / 256 % 256) as u8);
    b.push((n % 256) as u8);
    assert(b@ =~= be_bytes(n));
    b
}

/// Frame a payload for the wire. The header holds the payload's length cut to
/// 32 bits, as the transport writes it.
pub fn encode_frame(payload: &[u8]) -> (frame: Vec<u8>)
    ensures
        frame@ == encode_spec(payload@),
{
    let len = payload.len();
    let header = (len as u64 % 4294967296) as u32;
    let mut frame = write_be_u32(header);
    let mut i: usize = 0;
    while i < len
        invariant
            i <= len,
            len == payload@.len(),
            frame@ == be_bytes(header) + payload@.subrange(0, i as int),
        decreases len - i,
    {
        frame.push(payload[i]);
        i = i + 1;
        assert(frame@ =~= be_bytes(header) + payload@.subrange(0, i as int));
    }
    assert(payload@.subrange(0, len as int) =~= payload@);
    frame
}

/// Bytes received from a client, not yet cut into frames.
pub struct FrameBuffer {
    accumulated: Vec<u8>,
}

impl View for FrameBuffer {
    type V = Seq<u8>;

    closed spec fn view(&self) -> Seq<u8> {
        self.accumulated@
    }
}

impl FrameBuffer {
    pub fn new() -> (fb: Self)
        ensures
            fb@ == Seq::<u8>::empty(),
    {
        FrameBuffer { accumulated: Vec::new() }
    }

    /// Append bytes read from the socket.
    pub fn extend(&mut self, data: &[u8])
        ensures
            final(self)@ == old(self)@ + data@,
    {
        let mut i: usize = 0;
        while i < data.len()
            invariant
                i <= data@.len(),
                self@ == old(self)@ + data@.subrange(0, i as int),
            decreases data@.len() - i,
        {
            self.accumulated.push(data[i]);
            i = i + 1;
            assert(self@ =~= old(self)@ + data@.subrange(0, i as int));
        }
        assert(data@.subrange(0, data@.len() as int) =~= data@);
    }

    /// Cut the first complete frame off the front, if one has fully arrived, and
    /// hand out its payload; otherwise keep waiting for more data.
    pub fn next_frame(&mut self) -> (payload: Option<Vec<u8>>)
        ensures
            match parse_spec(old(self)@) {
                Some((p, rest)) => payload is Some && payload->0@ == p && final(self)@ == rest,
                None => payload is None && final(self)@ == old(self)@,
            },
    {
        let total = self.accumulated.len();
        if total < 4 {
            return None;
        }
        let len = read_be_u32(self.accumulated.as_slice()) as usize;
        if total - 4 < len {
            return None;
        }
        let end = 4 + len;
        let mut payload: Vec<u8> = Vec::new();
        let mut rest: Vec<u8> = Vec::new();
        let mut i: usize = 4;
        while i < end
            invariant
                4 <= i <= end,
                end <= total,
                total == self.accumulated@.len(),
                payload@ == self.accumulated@.subrange(4, i as int),
            decreases end - i,
        {
            payload.push(self.accumulated[i]);
            i = i + 1;
            assert(payload@ =~= self.accumulated@.subrange(4, i as int));
        }
        let mut j: usize = end;
        while j < total
            invariant
                end <= j <= total,
                total == self.accumulated@.len(),
                rest@ == self.accumulated@.subrange(end as int, j as int),
            decreases total - j,
        {
            rest.push(self.accumulated[j]);
            j = j + 1;
            assert(rest@ =~= self.accumulated@.subrange(end as int, j as int));
        }
        self.accumulated = rest;
        Some(payload)
    }

    /// Take in bytes read from the socket and cut out every frame that is now
    /// complete, in order; the rest stays buffered.
    pub fn receive(&mut self, data: &[u8]) -> (payloads: Vec<Vec<u8>>)
        ensures
            payloads@.map_values(|p: Vec<u8>| p@) == drain_spec(old(self)@ + data@).0,
            final(self)@ == drain_spec(old(self)@ + data@).1,
    {
        self.extend(data);
        let ghost start = self@;
        let mut payloads: Vec<Vec<u8>> = Vec::new();
        loop
            invariant
                start == old(self)@ + data@,
                drain_spec(start) == (payloads@.map_values(|p: Vec<u8>| p@) + drain_spec(self@).0, drain_spec(self@).1),
            ensures
                payloads@.map_values(|p: Vec<u8>| p@) == drain_spec(start).0,
                self@ == drain_spec(start).1,
            decreases self@.len(),
        {
            let ghost before = self@;
            let ghost ps = payloads@;
            match self.next_frame() {
                Some(p) => {
                    proof {
                        lemma_parse_shrinks(before);
                        let (q, rest) = parse_spec(before)->0;
                        assert(drain_spec(before) == (seq![q] + drain_spec(rest).0, drain_spec(rest).1));
                    }
                    payloads.push(p);
                    assert(payloads@.map_values(|p: Vec<u8>| p@) =~= ps.map_values(|p: Vec<u8>| p@).push(p@));
                    assert(ps.map_values(|p: Vec<u8>| p@).push(p@) + drain_spec(self@).0 =~= ps.map_values(|p: Vec<u8>| p@) + (seq![p@] + drain_spec(self@).0));
                },
                None => {
                    assert(drain_spec(before) == (Seq::<Seq<u8>>::empty(), before));
                    assert(payloads@.map_values(|p: Vec<u8>| p@) + Seq::<Seq<u8>>::empty() =~= payloads@.map_values(|p: Vec<u8>| p@));
                    break;
                },
            }
        }
        payloads
    }
}

/// What is framed comes back out: a frame followed by any further bytes parses
/// to its payload and leaves those further bytes, for every payload whose length
/// fits the 32-bit header.
pub proof fn lemma_frame_roundtrip(payload: Seq<u8>, rest: Seq<u8>)
    requires
        payload.len() <= u32::MAX,
    ensures
        parse_spec(encode_spec(payload) + rest) == Some((payload, rest)),
{
    let n = (payload.len() % 4294967296) as u32;
    assert(n == payload.len());
    lemma_be_roundtrip(n);
    let bytes = encode_spec(payload) + rest;
    assert(bytes.subrange(0, 4) =~= be_bytes(n));
    assert(be_value(bytes) == be_value(be_bytes(n)));
    assert(bytes.subrange(4, 4 + payload.len() as int) =~= payload);
    assert(bytes.subrange(4 + payload.len() as int, bytes.len() as int) =~= rest);
}

/// No frame is cut before all of it has arrived: a strict prefix of a frame
/// parses to nothing.
pub proof fn lemma_partial_frame_waits(payload: Seq<u8>, k: int)
    requires
        payload.len() <= u32::MAX,
        0 <= k < encode_spec(payload).len(),
    ensures
        parse_spec(encode_spec(payload).subrange(0, k)) is None,
{
    let n = (payload.len() % 4294967296) as u32;
    lemma_be_roundtrip(n);
    let bytes = encode_spec(payload).subrange(0, k);
    if k >= 4 {
        assert(bytes.subrange(0, 4) =~= be_bytes(n));
        assert(be_value(bytes) == be_value(be_bytes(n)));
    }
}

/// Bytes that arrive after a complete frame do not change it.
proof fn lemma_parse_prefix(a: Seq<u8>, b: Seq<u8>)
    requires
        parse_spec(a) is Some,
    ensures
        ({
            let (p, r) = parse_spec(a)->0;
            parse_spec(a + b) == Some((p, r + b))
        }),
{
    let ab = a + b;
    assert(ab[0] == a[0] && ab[1] == a[1] && ab[2] == a[2] && ab[3] == a[3]);
    let end = 4 + be_value(a);
    assert(ab.subrange(4, end) =~= a.subrange(4, end));
    assert(ab.subrange(end, ab.len() as int) =~= a.subrange(end, a.len() as int) + b);
}

/// Cutting frames out of `a + b` is cutting them out of `a`, then out of what `a`
/// left followed by `b`.
proof fn lemma_drain_append(a: Seq<u8>, b: Seq<u8>)
    ensures
        drain_spec(a + b) == (
            drain_spec(a).0 + drain_spec(drain_spec(a).1 + b).0,
            drain_spec(drain_spec(a).1 + b).1,
        ),
    decreases a.len(),
{
    match parse_spec(a) {
        Some((p, r)) => {
            lemma_parse_shrinks(a);
            lemma_parse_prefix(a, b);
            lemma_drain_append(r, b);
            let rest = drain_spec(drain_spec(r).1 + b);
            assert(seq![p] + (drain_spec(r).0 + rest.0) =~= (seq![p] + drain_spec(r).0) + rest.0);
        },
        None => {
            assert(Seq::<Seq<u8>>::empty() + drain_spec(a + b).0 =~= drain_spec(a + b).0);
        },
    }
}

/// How reads split the stream does not matter: a connection whose buffer holds
/// no complete frame and that reads `chunks` one after another cuts out the same
/// payloads, and keeps the same bytes buffered, as one that read all of them at
/// once.
pub proof fn lemma_receive_split(buffered: Seq<u8>, chunks: Seq<Seq<u8>>)
    requires
        parse_spec(buffered) is None,
    ensures
        receive_spec(buffered, chunks) == drain_spec(buffered + chunks.flatten()),
    decreases chunks.len(),
{
    if chunks.len() == 0 {
        assert(buffered + chunks.flatten() =~= buffered);
    } else {
        let a = buffered + chunks[0];
        let b = chunks.drop_first().flatten();
        lemma_drain_idle(a);
        lemma_receive_split(drain_spec(a).1, chunks.drop_first());
        lemma_drain_append(a, b);
        assert(buffered + chunks.flatten() =~= a + b);
    }
}

/// Once every complete frame is cut out, nothing more comes out.
pub proof fn lemma_drain_idle(bytes: Seq<u8>)
    ensures
        parse_spec(drain_spec(bytes).1) is None,
        drain_spec(drain_spec(bytes).1) == (Seq::<Seq<u8>>::empty(), drain_spec(bytes).1),
    decreases bytes.len(),
{
    if let Some((p, r)) = parse_spec(bytes) {
        lemma_parse_shrinks(bytes);
        lemma_drain_idle(r);
    }
}

/// A stream of frames followed by an incomplete one parses to exactly their
/// payloads, in order, and leaves the incomplete one buffered.
pub proof fn lemma_drain_frames(payloads: Seq<Seq<u8>>, tail: Seq<u8>)
    requires
        forall|i: int| 0 <= i < payloads.len() ==> payloads[i].len() <= u32::MAX,
        parse_spec(tail) is None,
    ensures
        drain_spec(encode_all(payloads) + tail) == (payloads, tail),
    decreases payloads.len(),
{
    if payloads.len() == 0 {
        assert(encode_all(payloads) + tail =~= tail);
        assert(payloads =~= Seq::<Seq<u8>>::empty());
    } else {
        let rest = payloads.drop_first();
        assert forall|i: int| 0 <= i < rest.len() implies rest[i].len() <= u32::MAX by {
            assert(rest[i] == payloads[i + 1]);
        }
        lemma_drain_frames(rest, tail);
        assert(encode_all(payloads) + tail =~= encode_spec(payloads[0]) + (encode_all(rest) + tail));
        lemma_frame_roundtrip(payloads[0], encode_all(rest) + tail);
        lemma_parse_shrinks(encode_all(payloads) + tail);
        assert(seq![payloads[0]] + rest =~= payloads);
    }
}

/// Whatever way the reads split a stream of frames followed by an incomplete
/// frame, the connection hands out each payload once, in order, and keeps the
/// incomplete frame buffered, answering nothing for it.
pub proof fn lemma_stream_frames(chunks: Seq<Seq<u8>>, payloads: Seq<Seq<u8>>, tail: Seq<u8>)
    requires
        chunks.flatten() == encode_all(payloads) + tail,
        forall|i: int| 0 <= i < payloads.len() ==> payloads[i].len() <= u32::MAX,
        parse_spec(tail) is None,
    ensures
        receive_spec(Seq::empty(), chunks) == (payloads, tail),
{
    assert(parse_spec(Seq::<u8>::empty()) is None);
    lemma_receive_split(Seq::empty(), chunks);
    assert(Seq::<u8>::empty() + chunks.flatten() =~= chunks.flatten());
    lemma_drain_frames(payloads, tail);
}

} // verus!
