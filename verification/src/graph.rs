//! The voice table of the audio graph: every loaded sound with its sample data
//! and playback controls, as the control thread edits it and the mixer walks it.
use vstd::prelude::*;
use std::sync::Arc;
use crate::mixer::{frames_in, lemma_frame_inside, seek_frame, source_spec, step_spec, position_ms, VoiceCursor};
use crate::engine::{duration_ms, duration_fits, duration_spec, UNIT_GAIN_BITS};

verus! {

/// One sound in the mixer: its interleaved sample data, shared with whoever
/// decoded it, and its playback controls.
pub struct Voice<T> {
    pub id: String,
    pub samples: Arc<Vec<T>>,
    pub channels: u16,
    pub sample_rate: u32,
    pub frame_pos: usize,
    pub volume_bits: u32,
    pub looping: bool,
    pub playing: bool,
}

/// A voice as plain values: the sound's samples and its controls.
pub struct VoiceView<T> {
    pub id: Seq<char>,
    pub samples: Seq<T>,
    pub channels: u16,
    pub sample_rate: u32,
    pub frame_pos: usize,
    pub volume_bits: u32,
    pub looping: bool,
    pub playing: bool,
}

impl<T> View for Voice<T> {
    type V = VoiceView<T>;

    open spec fn view(&self) -> VoiceView<T> {
        VoiceView {
            id: self.id@,
            samples: self.samples@,
            channels: self.channels,
            sample_rate: self.sample_rate,
            frame_pos: self.frame_pos,
            volume_bits: self.volume_bits,
            looping: self.looping,
            playing: self.playing,
        }
    }
}

/// The number of whole frames of a voice.
pub open spec fn voice_frames<T>(v: VoiceView<T>) -> nat {
    frames_in(v.samples.len(), v.channels as nat)
}

/// Whether the samples that frame `frame` of a voice feeds to the output lie
/// inside its data.
pub open spec fn frame_inside<T>(v: VoiceView<T>, frame: nat) -> bool {
    source_spec(frame, v.channels as nat).1 < v.samples.len()
}

/// A voice the mixer can walk: one that loops wraps to frame 0, whose samples
/// must lie inside its data.
pub open spec fn mixable<T>(v: VoiceView<T>) -> bool {
    v.looping ==> frame_inside(v, 0)
}

/// The left and right sample that frame `frame` of a voice feeds to the output
/// (a mono sound feeds both sides).
pub open spec fn frame_pair_spec<T>(v: VoiceView<T>, frame: nat) -> (T, T) {
    let (l, r) = source_spec(frame, v.channels as nat);
    (v.samples[l as int], v.samples[r as int])
}

/// The voices as plain values.
pub open spec fn voice_views<T>(v: Seq<Voice<T>>) -> Seq<VoiceView<T>> {
    v.map_values(|x: Voice<T>| x@)
}

/// A control change that applies to every voice of one sound.
#[derive(Debug, Clone, Copy, PartialEq, Eq)]
pub enum VoiceEdit {
    SetPlaying(bool),
    Stop,
    Seek(u64),
    SetVolume(u32),
    SetLoop(bool),
}

pub open spec fn voice_edit_spec<T>(v: VoiceView<T>, edit: VoiceEdit) -> VoiceView<T> {
    match edit {
        VoiceEdit::SetPlaying(p) => VoiceView { playing: p, ..v },
        VoiceEdit::Stop => VoiceView { playing: false, frame_pos: 0, ..v },
        VoiceEdit::Seek(ms) => VoiceView {
            frame_pos: (ms * v.sample_rate / 1000) as usize,
            ..v
        },
        VoiceEdit::SetVolume(bits) => VoiceView { volume_bits: bits, ..v },
        VoiceEdit::SetLoop(l) => VoiceView { looping: l, ..v },
    }
}

/// An edit leaves the voices of other sounds alone.
pub open spec fn edited<T>(before: Seq<VoiceView<T>>, id: Seq<char>, edit: VoiceEdit) -> Seq<VoiceView<T>> {
    before.map_values(|v: VoiceView<T>| if v.id == id { voice_edit_spec(v, edit) } else { v })
}

/// Whether a seek to `ms` stays within 64-bit arithmetic for every voice of `id`.
pub open spec fn seek_fits<T>(before: Seq<VoiceView<T>>, id: Seq<char>, ms: u64) -> bool {
    forall|i: int| 0 <= i < before.len() && before[i].id == id ==> ms * before[i].sample_rate <= u64::MAX
}

/// Walk a voice through a block of `frames` output frames: the source frames it
/// reads, its position afterwards and whether it still plays.
pub open spec fn block_spec(pos: nat, total: nat, looping: bool, frames: nat) -> (Seq<nat>, nat, bool)
    decreases frames,
{
    if frames == 0 {
        (Seq::empty(), pos, true)
    } else {
        let (before, p, playing) = block_spec(pos, total, looping, (frames - 1) as nat);
        if !playing {
            (before, p, false)
        } else {
            match step_spec(p, total, looping) {
                None => (before, p, false),
                Some((f, next)) => (before.push(f), next, true),
            }
        }
    }
}

/// The voices of the graph.
pub struct VoiceTable<T> {
    voices: Vec<Voice<T>>,
}

impl<T> View for VoiceTable<T> {
    type V = Seq<VoiceView<T>>;

    closed spec fn view(&self) -> Seq<VoiceView<T>> {
        voice_views(self.voices@)
    }
}

impl<T> VoiceTable<T> {
    pub fn new() -> (t: Self)
        ensures
            t@ == Seq::<VoiceView<T>>::empty(),
    {
        let t = VoiceTable { voices: Vec::new() };
        assert(t@ =~= Seq::<VoiceView<T>>::empty());
        t
    }

    pub fn len(&self) -> (n: usize)
        ensures
            n == self@.len(),
    {
        self.voices.len()
    }

    pub fn voice(&self, i: usize) -> (v: &Voice<T>)
        requires
            i < self@.len(),
        ensures
            v@ == self@[i as int],
    {
        &self.voices[i]
    }

    /// Add a voice for the sample data `samples`, not playing, at the start of its
    /// sound and at unit gain; return its position and length in milliseconds.
    pub fn add(&mut self, id: String, samples: Arc<Vec<T>>, channels: u16, sample_rate: u32) -> (r: (u64, u64))
        requires
            duration_fits(samples@.len(), channels as nat),
        ensures
            final(self)@ == old(self)@.push(VoiceView {
                id: id@,
                samples: samples@,
                channels,
                sample_rate,
                frame_pos: 0,
                volume_bits: UNIT_GAIN_BITS,
                looping: false,
                playing: false,
            }),
            r.0 == 0,
            r.1 == duration_spec(samples@.len(), channels as nat, sample_rate as nat),
    {
        let count = samples.len();
        let dur = duration_ms(count, channels, sample_rate);
        let pos = position_ms(0, sample_rate);
        let v = Voice {
            id,
            samples,
            channels,
            sample_rate,
            frame_pos: 0,
            volume_bits: UNIT_GAIN_BITS,
            looping: false,
            playing: false,
        };
        let ghost before = self@;
        let ghost vv = v@;
        self.voices.push(v);
        assert(self@ =~= before.push(vv));
        (pos, dur)
    }

    /// Whether seeking the voices of `id` to `position_ms` stays in range.
    pub fn seek_in_range(&self, id: &str, position_ms: u64) -> (b: bool)
        ensures
            b == seek_fits(self@, id@, position_ms),
    {
        let key = id.to_owned();
        let mut i: usize = 0;
        while i < self.voices.len()
            invariant
                i <= self@.len(),
                key@ == id@,
                forall|j: int| 0 <= j < i && self@[j].id == id@ ==> position_ms * self@[j].sample_rate <= u64::MAX,
            decreases self@.len() - i,
        {
            assert(self@[i as int] == self.voices@[i as int]@);
            if self.voices[i].id == key {
                let sr: u64 = if self.voices[i].sample_rate == 0 {
                    1
                } else {
                    self.voices[i].sample_rate as u64
                };
                if position_ms > u64::MAX / sr {
                    proof {
                        let r = sr as int;
                        assert(r == self@[i as int].sample_rate);
                        assert(position_ms * r > u64::MAX) by (nonlinear_arith)
                            requires
                                position_ms > (u64::MAX as int) / r,
                                r >= 1,
                        ;
                    }
                    return false;
                }
                proof {
                    let r = sr as int;
                    let actual = self@[i as int].sample_rate as int;
                    assert(position_ms * r <= u64::MAX) by (nonlinear_arith)
                        requires
                            position_ms <= (u64::MAX as int) / r,
                            r >= 1,
                    ;
                    if actual != 0 {
                        assert(actual == r);
                    }
                }
            }
            i = i + 1;
        }
        true
    }

    /// Apply `edit` to every voice of the sound `id`.
    pub fn edit(&mut self, id: &str, edit: VoiceEdit)
        requires
            edit matches VoiceEdit::Seek(ms) ==> seek_fits(old(self)@, id@, ms),
        ensures
            final(self)@ == edited(old(self)@, id@, edit),
    {
        let key = id.to_owned();
        let mut i: usize = 0;
        while i < self.voices.len()
            invariant
                i <= self@.len(),
                self@.len() == old(self)@.len(),
                key@ == id@,
                edit matches VoiceEdit::Seek(ms) ==> seek_fits(old(self)@, id@, ms),
                forall|j: int| 0 <= j < i ==> self@[j] == (if old(self)@[j].id == id@ { voice_edit_spec(old(self)@[j], edit) } else { old(self)@[j] }),
                forall|j: int| i <= j < self@.len() ==> self@[j] == old(self)@[j],
            decreases self@.len() - i,
        {
            if self.voices[i].id == key {
                let ghost before = self@;
                match edit {
                    VoiceEdit::SetPlaying(p) => {
                        self.voices[i].playing = p;
                    },
                    VoiceEdit::Stop => {
                        self.voices[i].playing = false;
                        self.voices[i].frame_pos = 0;
                    },
                    VoiceEdit::Seek(ms) => {
                        let sr = self.voices[i].sample_rate;
                        self.voices[i].frame_pos = seek_frame(ms, sr);
                    },
                    VoiceEdit::SetVolume(bits) => {
                        self.voices[i].volume_bits = bits;
                    },
                    VoiceEdit::SetLoop(l) => {
                        self.voices[i].looping = l;
                    },
                }
                assert(self@ =~= before.update(i as int, voice_edit_spec(before[i as int], edit)));
            }
            i = i + 1;
        }
        assert(self@ =~= edited(old(self)@, id@, edit));
    }

    /// Drop every voice of the sound `id`, keeping the others in order.
    pub fn dispose(&mut self, id: &str)
        ensures
            final(self)@ == kept_spec(old(self)@, id@),
    {
        let key = id.to_owned();
        let ghost all = self@;
        let mut rest: Vec<Voice<T>> = Vec::new();
        std::mem::swap(&mut rest, &mut self.voices);
        let mut kept: Vec<Voice<T>> = Vec::new();
        let ghost mut k: int = 0;
        while rest.len() > 0
            invariant
                key@ == id@,
                0 <= k <= all.len(),
                voice_views(rest@) == all.subrange(k, all.len() as int),
                voice_views(kept@) == kept_spec(all.subrange(0, k), id@),
            decreases rest@.len(),
        {
            let ghost rest_before = rest@;
            assert(voice_views(rest_before).len() == rest_before.len());
            assert(k < all.len());
            let v = rest.remove(0);
            assert(rest@ =~= rest_before.subrange(1, rest_before.len() as int));
            assert forall|j: int| 0 <= j < rest@.len() implies voice_views(rest@)[j] == all[k + 1 + j] by {
                assert(rest@[j] == rest_before[j + 1]);
                assert(voice_views(rest_before)[j + 1] == all.subrange(k, all.len() as int)[j + 1]);
            }
            assert(voice_views(rest@) =~= all.subrange(k + 1, all.len() as int));
            assert(v@ == all[k]) by {
                assert(voice_views(rest_before)[0] == all.subrange(k, all.len() as int)[0]);
            }
            assert(all.subrange(0, k + 1).drop_last() =~= all.subrange(0, k));
            if v.id != key {
                let ghost kb = kept@;
                kept.push(v);
                assert(voice_views(kept@) =~= voice_views(kb).push(all[k]));
            }
            proof {
                k = k + 1;
            }
        }
        assert(all.subrange(0, all.len() as int) =~= all);
        self.voices = kept;
    }

    /// Whether the mixer can walk voice `i` (a looping voice needs the samples of
    /// frame 0).
    pub fn is_mixable(&self, i: usize) -> (b: bool)
        requires
            i < self@.len(),
        ensures
            b == mixable(self@[i as int]),
    {
        let v = &self.voices[i];
        let last: usize = if v.channels >= 2 {
            1
        } else {
            0
        };
        !v.looping || last < v.samples.len()
    }

    /// Walk voice `i` through a block of `frames` output frames, if it plays: hand
    /// out the source frames to mix, in order, and stop it once a voice that does
    /// not loop runs out.
    pub fn advance_voice(&mut self, i: usize, frames: usize) -> (read: Vec<usize>)
        requires
            i < old(self)@.len(),
            old(self)@[i as int].playing && frames > 0 ==> mixable(old(self)@[i as int]),
        ensures
            forall|k: int| 0 <= k < read@.len() ==> frame_inside(old(self)@[i as int], #[trigger] read@[k] as nat),
            final(self)@.len() == old(self)@.len(),
            forall|j: int| 0 <= j < old(self)@.len() && j != i ==> final(self)@[j] == old(self)@[j],
            ({
                let v = old(self)@[i as int];
                if !v.playing {
                    read@.len() == 0 && final(self)@[i as int] == v
                } else {
                    let (fs, pos, playing) = block_spec(v.frame_pos as nat, voice_frames(v), v.looping, frames as nat);
                    &&& read@.map_values(|f: usize| f as nat) == fs
                    &&& final(self)@[i as int] == VoiceView { frame_pos: pos as usize, playing, ..v }
                }
            }),
    {
        let ghost before = self@;
        let mut read: Vec<usize> = Vec::new();
        if !self.voices[i].playing {
            assert(read@.len() == 0);
            return read;
        }
        if frames == 0 {
            assert(read@.map_values(|x: usize| x as nat) =~= Seq::<nat>::empty());
            assert(self@ =~= before.update(i as int, VoiceView { frame_pos: before[i as int].frame_pos, playing: true, ..before[i as int] }));
            return read;
        }
        let ch: usize = if self.voices[i].channels == 0 {
            1
        } else {
            self.voices[i].channels as usize
        };
        let total = self.voices[i].samples.len() / ch;
        let mut cursor = VoiceCursor { pos: self.voices[i].frame_pos, total, looping: self.voices[i].looping };
        let mut f: usize = 0;
        let mut playing = true;
        let ghost v = before[i as int];
        while f < frames
            invariant_except_break
                playing,
                ({
                    let (fs, pos, pl) = block_spec(v.frame_pos as nat, voice_frames(v), v.looping, f as nat);
                    &&& read@.map_values(|x: usize| x as nat) == fs
                    &&& pos == cursor.pos
                    &&& pl == playing
                }),
            invariant
                f <= frames,
                cursor.total == voice_frames(v),
                cursor.looping == v.looping,
                total == cursor.total,
                self@ == before,
            ensures
                ({
                    let (fs, pos, pl) = block_spec(v.frame_pos as nat, voice_frames(v), v.looping, frames as nat);
                    &&& read@.map_values(|x: usize| x as nat) == fs
                    &&& pos == cursor.pos
                    &&& pl == playing
                }),
            decreases frames - f,
        {
            let ghost rb = read@;
            match cursor.advance() {
                Some(src) => {
                    read.push(src);
                    assert(read@.map_values(|x: usize| x as nat) =~= rb.map_values(|x: usize| x as nat).push(src as nat));
                    f = f + 1;
                },
                None => {
                    playing = false;
                    proof {
                        lemma_block_stays_stopped(v.frame_pos as nat, voice_frames(v), v.looping, (f + 1) as nat, frames as nat);
                    }
                    break;
                },
            }
        }
        proof {
            lemma_block_frames_inside(v.frame_pos as nat, voice_frames(v), v.looping, frames as nat);
            assert forall|k: int| 0 <= k < read@.len() implies frame_inside(v, #[trigger] read@[k] as nat) by {
                assert(read@.map_values(|x: usize| x as nat)[k] == read@[k] as nat);
                lemma_read_frame_inside(v, read@[k] as nat);
            }
        }
        self.voices[i].frame_pos = cursor.pos;
        self.voices[i].playing = playing;
        assert(self@ =~= before.update(i as int, VoiceView { frame_pos: cursor.pos, playing, ..v }));
        read
    }

    /// The left and right sample that frame `frame` of voice `i` feeds to the output.
    pub fn frame_pair(&self, i: usize, frame: usize) -> (p: (T, T))
        where T: Copy
        requires
            i < self@.len(),
            frame_inside(self@[i as int], frame as nat),
        ensures
            p == frame_pair_spec(self@[i as int], frame as nat),
    {
        let v = &self.voices[i];
        assert(v@ == self@[i as int]);
        let len = v.samples.len();
        let ch: usize = if v.channels == 0 {
            1
        } else {
            v.channels as usize
        };
        proof {
            assert(frame * ch <= source_spec(frame as nat, v.channels as nat).1);
        }
        let base = frame * ch;
        if ch >= 2 {
            (v.samples[base], v.samples[base + 1])
        } else {
            (v.samples[base], v.samples[base])
        }
    }

    /// Walk voice `i` through a block of `frames` output frames, as
    /// `advance_voice` does, and hand out the left and right sample of each frame
    /// it reads, in order.
    pub fn mix_block(&mut self, i: usize, frames: usize) -> (out: Vec<(T, T)>)
        where T: Copy
        requires
            i < old(self)@.len(),
            old(self)@[i as int].playing && frames > 0 ==> mixable(old(self)@[i as int]),
        ensures
            final(self)@.len() == old(self)@.len(),
            forall|j: int| 0 <= j < old(self)@.len() && j != i ==> final(self)@[j] == old(self)@[j],
            ({
                let v = old(self)@[i as int];
                if !v.playing {
                    out@.len() == 0 && final(self)@[i as int] == v
                } else {
                    let (fs, pos, playing) = block_spec(v.frame_pos as nat, voice_frames(v), v.looping, frames as nat);
                    &&& out@ == fs.map_values(|f: nat| frame_pair_spec(v, f))
                    &&& final(self)@[i as int] == VoiceView { frame_pos: pos as usize, playing, ..v }
                }
            }),
    {
        let ghost v = self@[i as int];
        let read = self.advance_voice(i, frames);
        let ghost fs = read@.map_values(|f: usize| f as nat);
        let mut out: Vec<(T, T)> = Vec::new();
        let mut k: usize = 0;
        while k < read.len()
            invariant
                k <= read@.len(),
                i < self@.len(),
                self@[i as int].samples == v.samples,
                self@[i as int].channels == v.channels,
                fs == read@.map_values(|f: usize| f as nat),
                forall|m: int| 0 <= m < read@.len() ==> frame_inside(v, #[trigger] read@[m] as nat),
                out@ == fs.subrange(0, k as int).map_values(|f: nat| frame_pair_spec(v, f)),
            decreases read@.len() - k,
        {
            let pair = self.frame_pair(i, read[k]);
            out.push(pair);
            k = k + 1;
            assert(out@ =~= fs.subrange(0, k as int).map_values(|f: nat| frame_pair_spec(v, f)));
        }
        assert(fs.subrange(0, read@.len() as int) =~= fs);
        out
    }

    /// The playback position in milliseconds of the first voice of `id`.
    pub fn position_ms(&self, id: &str) -> (ms: Option<u64>)
        requires
            forall|j: int| 0 <= j < self@.len() && self@[j].id == id@ ==> self@[j].frame_pos * 1000 <= u64::MAX,
        ensures
            match first_voice(self@, id@) {
                None => ms is None,
                Some(j) => ms == Some(if self@[j].sample_rate == 0 { 0u64 } else {
                    (self@[j].frame_pos * 1000 / (self@[j].sample_rate as int)) as u64
                }),
            },
    {
        match self.find_first(id) {
            None => None,
            Some(i) => {
                assert(self@[i as int] == self.voices@[i as int]@);
                Some(position_ms(self.voices[i].frame_pos, self.voices[i].sample_rate))
            },
        }
    }

    fn find_first(&self, id: &str) -> (r: Option<usize>)
        ensures
            r is None <==> first_voice(self@, id@) is None,
            r matches Some(i) ==> i < self@.len() && first_voice(self@, id@) == Some(i as int)
                && self@[i as int].id == id@,
    {
        let key = id.to_owned();
        let mut i: usize = 0;
        while i < self.voices.len()
            invariant
                i <= self@.len(),
                key@ == id@,
                forall|j: int| 0 <= j < i ==> self@[j].id != id@,
            decreases self@.len() - i,
        {
            assert(self@[i as int] == self.voices@[i as int]@);
            if self.voices[i].id == key {
                proof {
                    let c = choose|c: int| 0 <= c < self@.len() && self@[c].id == id@ && forall|j: int| 0 <= j < c ==> self@[j].id != id@;
                    assert(0 <= c < self@.len() && self@[c].id == id@ && forall|j: int| 0 <= j < c ==> self@[j].id != id@) by {
                        assert(forall|j: int| 0 <= j < i ==> self@[j].id != id@);
                    }
                    if c > i {
                        assert(self@[i as int].id == id@);
                    }
                }
                return Some(i);
            }
            i = i + 1;
        }
        None
    }
}

/// The first voice of the sound `id`.
pub open spec fn first_voice<T>(v: Seq<VoiceView<T>>, id: Seq<char>) -> Option<int> {
    if exists|i: int| 0 <= i < v.len() && v[i].id == id {
        Some(choose|i: int| 0 <= i < v.len() && v[i].id == id && forall|j: int| 0 <= j < i ==> v[j].id != id)
    } else {
        None
    }
}

/// Only one voice is the first of its sound.
proof fn lemma_first_voice_unique<T>(v: Seq<VoiceView<T>>, id: Seq<char>, c: int)
    requires
        0 <= c < v.len(),
        v[c].id == id,
        forall|j: int| 0 <= j < c ==> v[j].id != id,
    ensures
        first_voice(v, id) == Some(c),
{
    let d = choose|i: int| 0 <= i < v.len() && v[i].id == id && forall|j: int| 0 <= j < i ==> v[j].id != id;
    assert(0 <= d < v.len() && v[d].id == id && forall|j: int| 0 <= j < d ==> v[j].id != id);
    if d < c {
        assert(v[d].id != id);
    }
    if c < d {
        assert(v[c].id != id);
    }
}

/// A sound with a voice has a first voice.
proof fn lemma_first_voice_found<T>(v: Seq<VoiceView<T>>, id: Seq<char>, i: int) -> (c: int)
    requires
        0 <= i < v.len(),
        v[i].id == id,
    ensures
        0 <= c <= i,
        v[c].id == id,
        forall|j: int| 0 <= j < c ==> v[j].id != id,
        first_voice(v, id) == Some(c),
    decreases i,
{
    if exists|k: int| 0 <= k < i && v[k].id == id {
        let k = choose|k: int| 0 <= k < i && v[k].id == id;
        lemma_first_voice_found(v, id, k)
    } else {
        lemma_first_voice_unique(v, id, i);
        i
    }
}

/// A seek followed by a position read gives back the time sought, rounded down to
/// a whole frame: the first voice of the sound stays first and lands on frame
/// `ms * rate / 1000`, reading it back never gives more than `ms`, and gives `ms`
/// exactly where the rate is a whole number of frames per millisecond. Every voice
/// of the sound can then be read back without overflow. (Stated where each frame
/// the seek computes fits the platform's word.)
pub proof fn lemma_seek_then_position<T>(before: Seq<VoiceView<T>>, id: Seq<char>, ms: u64)
    requires
        first_voice(before, id) is Some,
        seek_fits(before, id, ms),
        forall|m: int| 0 <= m < before.len() && before[m].id == id ==> ms * before[m].sample_rate / 1000 <= usize::MAX,
    ensures
        ({
            let after = edited(before, id, VoiceEdit::Seek(ms));
            let j = first_voice(before, id)->0;
            let sr = before[j].sample_rate as int;
            &&& first_voice(after, id) == Some(j)
            &&& after[j].frame_pos == ms * sr / 1000
            &&& forall|m: int| 0 <= m < after.len() && after[m].id == id ==> after[m].frame_pos * 1000 <= u64::MAX
            &&& sr > 0 ==> after[j].frame_pos * 1000 / sr <= ms
            &&& sr > 0 && sr % 1000 == 0 ==> after[j].frame_pos * 1000 / sr == ms
        }),
{
    let after = edited(before, id, VoiceEdit::Seek(ms));
    let w = choose|i: int| 0 <= i < before.len() && before[i].id == id;
    let j = lemma_first_voice_found(before, id, w);
    assert forall|k: int| 0 <= k < j implies after[k].id != id by {
        assert(before[k].id != id);
    }
    lemma_first_voice_unique(after, id, j);
    assert forall|m: int| 0 <= m < after.len() && after[m].id == id implies after[m].frame_pos * 1000 <= u64::MAX by {
        let r = before[m].sample_rate as int;
        let x = ms * r;
        assert(x <= u64::MAX);
        assert(after[m].frame_pos == x / 1000);
        assert((x / 1000) * 1000 <= x) by (nonlinear_arith)
            requires
                x >= 0,
        ;
    }
    let sr = before[j].sample_rate as int;
    let x = ms * sr;
    let f = x / 1000;
    assert(after[j].frame_pos == f);
    if sr > 0 {
        assert(f * 1000 <= x) by (nonlinear_arith)
            requires
                x >= 0,
                f == x / 1000,
        ;
        assert(f * 1000 / sr <= ms) by (nonlinear_arith)
            requires
                f * 1000 <= ms * sr,
                sr > 0,
                f >= 0,
        ;
        if sr % 1000 == 0 {
            let q = sr / 1000;
            assert(sr == q * 1000);
            assert(x == (ms * q) * 1000) by (nonlinear_arith)
                requires
                    x == ms * sr,
                    sr == q * 1000,
            ;
            assert(f == ms * q) by (nonlinear_arith)
                requires
                    x == (ms * q) * 1000,
                    f == x / 1000,
            ;
            assert(f * 1000 / sr == ms) by (nonlinear_arith)
                requires
                    f == ms * q,
                    sr == q * 1000,
                    sr > 0,
            ;
        }
    }
}

/// The voices that are not of the sound `id`, in order.
pub open spec fn kept_spec<T>(v: Seq<VoiceView<T>>, id: Seq<char>) -> Seq<VoiceView<T>>
    decreases v.len(),
{
    if v.len() == 0 {
        Seq::empty()
    } else {
        let prev = kept_spec(v.drop_last(), id);
        if v.last().id != id {
            prev.push(v.last())
        } else {
            prev
        }
    }
}

/// A looping voice walks its sound round and round and never stops: started
/// anywhere in the sound or just past its last frame (where the previous block
/// ended), in a block of `n` frames it reads frames `pos, pos + 1, ...` modulo
/// the sound's length, and keeps playing.
pub proof fn lemma_looping_block(pos: nat, total: nat, n: nat)
    requires
        0 < total,
        pos <= total,
    ensures
        block_spec(pos, total, true, n).0 == Seq::new(n, |k: int| ((pos + k) % (total as int)) as nat),
        block_spec(pos, total, true, n).2,
        1 <= block_spec(pos, total, true, n).1 <= total || (n == 0 && block_spec(pos, total, true, n).1 == pos),
        (block_spec(pos, total, true, n).1 as int) % (total as int) == (pos + n) as int % (total as int),
    decreases n,
{
    if n == 0 {
        assert(block_spec(pos, total, true, 0).0 =~= Seq::new(0, |k: int| ((pos + k) % (total as int)) as nat));
    } else {
        lemma_looping_block(pos, total, (n - 1) as nat);
        let (fs, p, pl) = block_spec(pos, total, true, (n - 1) as nat);
        let t = total as int;
        if p >= total {
            assert(p == total);
            vstd::arithmetic::div_mod::lemma_mod_self_0(t);
            assert((pos + n - 1) as int % t == 0);
            assert(1int % t == (pos + n) as int % t) by {
                vstd::arithmetic::div_mod::lemma_add_mod_noop((pos + n - 1) as int, 1, t);
                vstd::arithmetic::div_mod::lemma_mod_twice(1, t);
            }
        } else {
            vstd::arithmetic::div_mod::lemma_small_mod(p, total);
            vstd::arithmetic::div_mod::lemma_add_mod_noop(p as int, 1, t);
            vstd::arithmetic::div_mod::lemma_add_mod_noop((pos + n - 1) as int, 1, t);
            if p + 1 < total {
                vstd::arithmetic::div_mod::lemma_small_mod((p + 1) as nat, total);
            } else {
                vstd::arithmetic::div_mod::lemma_mod_self_0(t);
            }
        }
        assert(block_spec(pos, total, true, n).0 =~= Seq::new(n, |k: int| ((pos + k) % t) as nat));
    }
}

/// Starting or pausing a sound only switches whether its voices play: where they
/// read, their gain, looping and samples stay, and other sounds' voices are
/// untouched. So a sound played after a seek or a pause starts where the seek
/// or the pause left it.
pub proof fn lemma_set_playing_keeps_position<T>(vs: Seq<VoiceView<T>>, id: Seq<char>, playing: bool, ms: u64)
    ensures
        edited(vs, id, VoiceEdit::SetPlaying(playing)).len() == vs.len(),
        forall|j: int| 0 <= j < vs.len() ==> {
            let w = #[trigger] edited(vs, id, VoiceEdit::SetPlaying(playing))[j];
            &&& w.playing == (if vs[j].id == id { playing } else { vs[j].playing })
            &&& w.frame_pos == vs[j].frame_pos
            &&& w.volume_bits == vs[j].volume_bits
            &&& w.looping == vs[j].looping
            &&& w.samples == vs[j].samples
            &&& w.channels == vs[j].channels
            &&& w.sample_rate == vs[j].sample_rate
            &&& w.id == vs[j].id
        },
        forall|j: int| 0 <= j < vs.len() && vs[j].id == id
            ==> #[trigger] edited(edited(vs, id, VoiceEdit::Seek(ms)), id, VoiceEdit::SetPlaying(true))[j].frame_pos
                == (ms * vs[j].sample_rate / 1000) as usize,
{
    let sought = edited(vs, id, VoiceEdit::Seek(ms));
    assert forall|j: int| 0 <= j < vs.len() && vs[j].id == id implies #[trigger] edited(edited(vs, id, VoiceEdit::Seek(ms)), id, VoiceEdit::SetPlaying(true))[j].frame_pos
        == (ms * vs[j].sample_rate / 1000) as usize by {
        assert(sought[j].id == id);
    }
}

/// A voice that does not loop reads each remaining frame once, in order, and
/// stops once a block asks for more frames than remain.
pub proof fn lemma_one_shot_block(pos: nat, total: nat, n: nat)
    requires
        pos <= total,
    ensures
        ({
            let take = if n <= total - pos { n } else { (total - pos) as nat };
            let (fs, p, playing) = block_spec(pos, total, false, n);
            &&& fs == Seq::new(take, |k: int| (pos + k) as nat)
            &&& p == pos + take
            &&& playing == (n <= total - pos)
        }),
    decreases n,
{
    if n == 0 {
        assert(block_spec(pos, total, false, 0).0 =~= Seq::new(0, |k: int| (pos + k) as nat));
    } else {
        lemma_one_shot_block(pos, total, (n - 1) as nat);
        let take = if n <= total - pos { n } else { (total - pos) as nat };
        assert(block_spec(pos, total, false, n).0 =~= Seq::new(take, |k: int| (pos + k) as nat));
    }
}

/// Every frame a voice reads is a frame of its sound, or frame 0 where a looping
/// voice wraps.
proof fn lemma_block_frames_inside(pos: nat, total: nat, looping: bool, n: nat)
    ensures
        forall|k: int| 0 <= k < block_spec(pos, total, looping, n).0.len()
            ==> #[trigger] block_spec(pos, total, looping, n).0[k] < total
                || (block_spec(pos, total, looping, n).0[k] == 0 && looping),
    decreases n,
{
    if n > 0 {
        lemma_block_frames_inside(pos, total, looping, (n - 1) as nat);
        let (before, p, playing) = block_spec(pos, total, looping, (n - 1) as nat);
        let fs = block_spec(pos, total, looping, n).0;
        if playing {
            if let Some((f, next)) = step_spec(p, total, looping) {
                assert(f < total || (f == 0 && looping));
                assert(fs == before.push(f));
                assert forall|k: int| 0 <= k < fs.len() implies #[trigger] fs[k] < total || (fs[k] == 0 && looping) by {
                    if k < before.len() {
                        assert(fs[k] == before[k]);
                    }
                }
            }
        }
    }
}

/// A frame a mixable voice reads has its samples inside the voice's data.
proof fn lemma_read_frame_inside<T>(v: VoiceView<T>, f: nat)
    requires
        mixable(v) || f < voice_frames(v),
        f < voice_frames(v) || (f == 0 && v.looping),
    ensures
        frame_inside(v, f),
{
    if f < voice_frames(v) {
        let ch: nat = if v.channels == 0 { 1 } else { v.channels as nat };
        lemma_frame_inside(f, ch, v.samples.len());
        assert(f * ch + ch <= v.samples.len());
    }
}

/// Once a voice has stopped in a block it stays stopped for the rest of it.
proof fn lemma_block_stays_stopped(pos: nat, total: nat, looping: bool, a: nat, b: nat)
    requires
        a <= b,
        !block_spec(pos, total, looping, a).2,
    ensures
        block_spec(pos, total, looping, b) == block_spec(pos, total, looping, a),
    decreases b,
{
    if b > a {
        lemma_block_stays_stopped(pos, total, looping, a, (b - 1) as nat);
    }
}

} // verus!
