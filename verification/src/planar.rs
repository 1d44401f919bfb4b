//! Moving audio between the interleaved layout of the streams (frame after
//! frame, each frame one sample per channel) and the planar layout of the
//! resampler (one run of samples per channel).
use vstd::prelude::*;

verus! {

/// Sample `c` of frame `f` lies at `f * channels + c`, inside the frames.
proof fn lemma_slot_inside(f: int, c: int, frames: int, channels: int)
    requires
        0 <= f < frames,
        0 <= c < channels,
    ensures
        0 <= f * channels + c < frames * channels,
        f * channels + c < (f + 1) * channels,
        (f + 1) * channels <= frames * channels,
{
    assert(f * channels >= 0) by (nonlinear_arith)
        requires
            f >= 0,
            channels > 0,
    ;
    assert((f + 1) * channels == f * channels + channels) by (nonlinear_arith);
    assert((f + 1) * channels <= frames * channels) by (nonlinear_arith)
        requires
            f + 1 <= frames,
            channels > 0,
    ;
}

/// Two slots of different frames or channels are different slots.
proof fn lemma_slot_distinct(f1: int, c1: int, f2: int, c2: int, channels: int)
    requires
        0 <= f1,
        0 <= f2,
        0 <= c1 < channels,
        0 <= c2 < channels,
        f1 * channels + c1 == f2 * channels + c2,
    ensures
        f1 == f2,
        c1 == c2,
{
    if f1 < f2 {
        assert((f1 + 1) * channels <= f2 * channels) by (nonlinear_arith)
            requires
                f1 + 1 <= f2,
                channels > 0,
        ;
        assert((f1 + 1) * channels == f1 * channels + channels) by (nonlinear_arith);
    } else if f2 < f1 {
        assert((f2 + 1) * channels <= f1 * channels) by (nonlinear_arith)
            requires
                f2 + 1 <= f1,
                channels > 0,
        ;
        assert((f2 + 1) * channels == f2 * channels + channels) by (nonlinear_arith);
    }
}

/// The whole frames of `len` interleaved samples fill no more than `len`.
proof fn lemma_frames_fit(len: int, channels: int)
    requires
        len >= 0,
        channels > 0,
    ensures
        (len / channels) * channels <= len,
{
    assert((len / channels) * channels <= len) by (nonlinear_arith)
        requires
            len >= 0,
            channels > 0,
    ;
}

/// Split interleaved samples into one run per channel; a trailing partial frame
/// is left out.
pub fn deinterleave<T: Copy>(input: &[T], channels: usize) -> (planes: Vec<Vec<T>>)
    requires
        channels > 0,
    ensures
        planes@.len() == channels,
        forall|c: int| 0 <= c < channels ==> #[trigger] planes@[c]@.len() == input@.len() / (channels as nat),
        forall|c: int, f: int|
            0 <= c < channels && 0 <= f < input@.len() / (channels as nat)
                ==> #[trigger] planes@[c]@[f] == input@[f * channels + c],
{
    let len = input.len();
    let frames = len / channels;
    proof {
        lemma_frames_fit(input@.len() as int, channels as int);
    }
    let mut planes: Vec<Vec<T>> = Vec::new();
    let mut c: usize = 0;
    while c < channels
        invariant
            c <= channels,
            channels > 0,
            frames == input@.len() / (channels as nat),
            frames * channels <= input@.len(),
            input@.len() == len,
            planes@.len() == c,
            forall|k: int| 0 <= k < c ==> #[trigger] planes@[k]@.len() == frames,
            forall|k: int, f: int| 0 <= k < c && 0 <= f < frames ==> #[trigger] planes@[k]@[f] == input@[f * channels + k],
        decreases channels - c,
    {
        let mut plane: Vec<T> = Vec::new();
        let mut f: usize = 0;
        while f < frames
            invariant
                f <= frames,
                c < channels,
                frames * channels <= input@.len(),
                input@.len() == len,
                plane@.len() == f,
                forall|g: int| 0 <= g < f ==> #[trigger] plane@[g] == input@[g * channels + c],
            decreases frames - f,
        {
            proof {
                lemma_slot_inside(f as int, c as int, frames as int, channels as int);
            }
            plane.push(input[f * channels + c]);
            f = f + 1;
        }
        planes.push(plane);
        c = c + 1;
    }
    planes
}

/// Weave one run per channel back into interleaved samples: the first run sets
/// the number of frames, and each of the first `channels` runs gives its channel.
pub fn interleave<T: Copy>(planes: &Vec<Vec<T>>, channels: usize) -> (out: Vec<T>)
    requires
        channels > 0,
        planes@.len() >= channels,
        forall|c: int| 0 <= c < channels ==> #[trigger] planes@[c]@.len() >= planes@[0]@.len(),
        planes@[0]@.len() * channels <= usize::MAX,
    ensures
        out@.len() == planes@[0]@.len() * channels,
        forall|f: int, c: int|
            0 <= f < planes@[0]@.len() && 0 <= c < channels
                ==> #[trigger] out@[f * channels + c] == planes@[c]@[f],
{
    let frames = planes[0].len();
    let mut out: Vec<T> = Vec::new();
    let mut f: usize = 0;
    while f < frames
        invariant
            f <= frames,
            frames == planes@[0]@.len(),
            channels > 0,
            planes@.len() >= channels,
            forall|c: int| 0 <= c < channels ==> #[trigger] planes@[c]@.len() >= frames,
            frames * channels <= usize::MAX,
            out@.len() == f * channels,
            forall|g: int, c: int| 0 <= g < f && 0 <= c < channels ==> #[trigger] out@[g * channels + c] == planes@[c]@[g],
        decreases frames - f,
    {
        let ghost start = out@;
        proof {
            lemma_slot_inside(f as int, 0, frames as int, channels as int);
        }
        let mut c: usize = 0;
        while c < channels
            invariant
                c <= channels,
                f < frames,
                frames == planes@[0]@.len(),
                planes@.len() >= channels,
                forall|k: int| 0 <= k < channels ==> #[trigger] planes@[k]@.len() >= frames,
                out@.len() == f * channels + c,
                out@.subrange(0, f * channels) == start,
                start.len() == f * channels,
                forall|k: int| 0 <= k < c ==> #[trigger] out@[f * channels + k] == planes@[k]@[f as int],
            decreases channels - c,
        {
            let ghost before = out@;
            out.push(planes[c][f]);
            c = c + 1;
            assert(out@.subrange(0, f * channels) =~= before.subrange(0, f * channels));
        }
        proof {
            assert forall|g: int, k: int| 0 <= g < f + 1 && 0 <= k < channels implies #[trigger] out@[g * channels + k] == planes@[k]@[g] by {
                if g < f {
                    lemma_slot_inside(g, k, f as int, channels as int);
                    assert(out@.subrange(0, f * channels)[g * channels + k] == start[g * channels + k]);
                }
            }
            assert((f + 1) * channels == f * channels + channels) by (nonlinear_arith);
        }
        f = f + 1;
    }
    out
}

} // verus!
