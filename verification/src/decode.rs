//! The decoder's own rules: which track it plays, the stream format it assumes
//! where the file says nothing, and how a block of frames is cut from decoded
//! packets.
use vstd::prelude::*;
use crate::error::DecodeError;

verus! {

/// The first track whose codec is known, if any.
pub open spec fn first_audio_spec(codec_is_null: Seq<bool>) -> Option<int> {
    if exists|i: int| 0 <= i < codec_is_null.len() && !codec_is_null[i] {
        Some(choose|i: int| 0 <= i < codec_is_null.len() && !codec_is_null[i] &&
            forall|j: int| 0 <= j < i ==> codec_is_null[j])
    } else {
        None
    }
}

/// Pick the track to decode: the first one with a known codec (`codec_is_null`
/// lists, per track, whether its codec is unknown).
pub fn select_track(codec_is_null: &Vec<bool>) -> (r: Result<usize, DecodeError>)
    ensures
        match r {
            Ok(i) => i < codec_is_null@.len() && !codec_is_null@[i as int] && forall|j: int|
                0 <= j < i ==> codec_is_null@[j],
            Err(e) => e is NoAudioTrack && forall|j: int|
                0 <= j < codec_is_null@.len() ==> codec_is_null@[j],
        },
        r is Ok <==> first_audio_spec(codec_is_null@) is Some,
{
    let mut i: usize = 0;
    while i < codec_is_null.len()
        invariant
            i <= codec_is_null@.len(),
            forall|j: int| 0 <= j < i ==> codec_is_null@[j],
        decreases codec_is_null@.len() - i,
    {
        if !codec_is_null[i] {
            return Ok(i);
        }
        i = i + 1;
    }
    Err(DecodeError::NoAudioTrack)
}

/// The rate and channel count a track is decoded with: 48 kHz where the file
/// names no rate, and the channel count cut to 16 bits.
pub fn stream_format(sample_rate: Option<u32>, channel_count: usize) -> (f: (u32, u16))
    ensures
        f.0 == match sample_rate {
            Some(r) => r,
            None => 48000,
        },
        f.1 == channel_count as u16,
{
    let rate = match sample_rate {
        Some(r) => r,
        None => 48000,
    };
    (rate, channel_count as u16)
}

/// The number of frames in `total_samples` interleaved samples.
pub fn duration_frames(total_samples: u64, channels: u16) -> (frames: u64)
    requires
        channels > 0,
    ensures
        frames == total_samples as nat / (channels as nat),
{
    total_samples / (channels as u64)
}

/// How many samples of a decoded chunk of `chunk_len` samples a block still
/// takes, with `frames_read` of `max_frames` frames already taken, and the frame
/// count afterwards.
pub open spec fn take_spec(max_frames: nat, frames_read: nat, channels: nat, chunk_len: nat) -> (
    nat,
    nat,
) {
    let room = ((max_frames - frames_read) * channels) as nat;
    let needed = if room < chunk_len {
        room
    } else {
        chunk_len
    };
    (needed, frames_read + needed / channels)
}

/// Cut from a decoded chunk what the block still has room for.
pub fn block_take(max_frames: usize, frames_read: usize, channels: u16, chunk_len: usize) -> (r: (
    usize,
    usize,
))
    requires
        channels > 0,
        frames_read < max_frames,
        (max_frames - frames_read) * channels <= usize::MAX,
    ensures
        (r.0 as nat, r.1 as nat) == take_spec(
            max_frames as nat,
            frames_read as nat,
            channels as nat,
            chunk_len as nat,
        ),
        r.0 <= chunk_len,
        r.1 <= max_frames,
{
    let ch = channels as usize;
    let room = (max_frames - frames_read) * ch;
    let needed = if room < chunk_len {
        room
    } else {
        chunk_len
    };
    proof {
        let m = (max_frames - frames_read) as nat;
        assert(needed as nat / (ch as nat) <= m) by (nonlinear_arith)
            requires
                needed <= m * ch,
                ch >= 1,
        ;
    }
    (needed, frames_read + needed / ch)
}

} // verus!
