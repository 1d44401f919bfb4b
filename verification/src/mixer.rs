//! The frame bookkeeping of the mixer: where a voice reads next, when it wraps
//! or ends, and which interleaved samples a frame spans.
use vstd::prelude::*;

verus! {

/// One step of a voice at frame `pos` of a sound `total` frames long: the frame
/// it reads and where it stands afterwards, or `None` where a voice that does not
/// loop has run out.
pub open spec fn step_spec(pos: nat, total: nat, looping: bool) -> Option<(nat, nat)> {
    if pos >= total {
        if looping {
            Some((0, 1))
        } else {
            None
        }
    } else {
        Some((pos, pos + 1))
    }
}

/// Where a voice reads as it walks one sound.
#[derive(Debug, Clone, Copy, PartialEq, Eq)]
pub struct VoiceCursor {
    pub pos: usize,
    pub total: usize,
    pub looping: bool,
}

impl VoiceCursor {
    /// Hand out the frame to mix next and move on; `None` once a voice that does
    /// not loop has passed the last frame (its position then stays put).
    pub fn advance(&mut self) -> (frame: Option<usize>)
        ensures
            final(self).total == old(self).total,
            final(self).looping == old(self).looping,
            match step_spec(old(self).pos as nat, old(self).total as nat, old(self).looping) {
                Some((f, next)) => frame == Some(f as usize) && final(self).pos == next,
                None => frame is None && final(self).pos == old(self).pos,
            },
    {
        if self.pos >= self.total {
            if self.looping {
                self.pos = 0;
            } else {
                return None;
            }
        }
        let f = self.pos;
        self.pos = self.pos + 1;
        Some(f)
    }
}

/// The interleaved positions of the left and right sample of source frame
/// `frame` in a sound of `channels` channels (a mono sound feeds both sides).
pub open spec fn source_spec(frame: nat, channels: nat) -> (nat, nat) {
    let ch = if channels == 0 { 1 } else { channels };
    if ch >= 2 {
        (frame * ch, frame * ch + 1)
    } else {
        (frame * ch, frame * ch)
    }
}

/// The number of whole frames in `sample_count` interleaved samples.
pub open spec fn frames_in(sample_count: nat, channels: nat) -> nat {
    sample_count / (if channels == 0 { 1 } else { channels })
}

/// The sample positions a frame reads; both lie inside the sample data.
pub fn source_samples(frame: usize, channels: u16, sample_count: usize) -> (idx: (usize, usize))
    requires
        frame < frames_in(sample_count as nat, channels as nat),
    ensures
        (idx.0 as nat, idx.1 as nat) == source_spec(frame as nat, channels as nat),
        idx.0 < sample_count,
        idx.1 < sample_count,
{
    let ch: usize = if channels == 0 {
        1
    } else {
        channels as usize
    };
    proof {
        lemma_frame_inside(frame as nat, ch as nat, sample_count as nat);
    }
    let base = frame * ch;
    if ch >= 2 {
        (base, base + 1)
    } else {
        (base, base)
    }
}

/// A whole frame lies inside the sample data.
pub proof fn lemma_frame_inside(frame: nat, ch: nat, count: nat)
    requires
        ch >= 1,
        frame < count / ch,
    ensures
        frame * ch + ch <= count,
{
    assert(frame + 1 <= count / ch);
    assert((frame + 1) * ch <= (count / ch) * ch) by (nonlinear_arith)
        requires
            frame + 1 <= count / ch,
    ;
    assert((count / ch) * ch <= count) by (nonlinear_arith)
        requires
            ch >= 1,
    ;
    assert((frame + 1) * ch == frame * ch + ch) by (nonlinear_arith);
}

/// The frame a seek to `position_ms` lands on at `sample_rate` (cut to the
/// platform's word).
pub fn seek_frame(position_ms: u64, sample_rate: u32) -> (frame: usize)
    requires
        position_ms * sample_rate <= u64::MAX,
    ensures
        frame == (position_ms * sample_rate / 1000) as usize,
{
    (position_ms * (sample_rate as u64) / 1000) as usize
}

/// The playback position in milliseconds of frame `frame_pos`; 0 without a rate.
pub fn position_ms(frame_pos: usize, sample_rate: u32) -> (ms: u64)
    requires
        frame_pos * 1000 <= u64::MAX,
    ensures
        ms == (if sample_rate == 0 {
            0
        } else {
            frame_pos * 1000 / (sample_rate as int)
        }),
{
    if sample_rate == 0 {
        return 0;
    }
    (frame_pos as u64) * 1000 / (sample_rate as u64)
}

} // verus!
