//! The engine's control state: lifecycle, the registry of loaded sounds and the
//! master bus. The audio graph that plays the sounds lives with the caller; every
//! operation here is the decision the engine makes about its own state.
use vstd::prelude::*;
use crate::error::{EngineError, EngineErrorView};
use crate::sound_id::{sound_id, sound_id_spec, lemma_sound_id_injective};

verus! {

/// The bit pattern of the `f32` value 1.0, the gain and rate a sound starts with.
pub const UNIT_GAIN_BITS: u32 = 0x3f80_0000u32;

/// Engine configuration as handed to `init`.
#[derive(Debug)]
pub struct EngineConfig {
    pub sample_rate: u32,
    pub buffer_size: usize,
    pub internal_precision: String,
}

impl Clone for EngineConfig {
    fn clone(&self) -> (c: Self)
        ensures
            c == *self,
    {
        EngineConfig {
            sample_rate: self.sample_rate,
            buffer_size: self.buffer_size,
            internal_precision: self.internal_precision.clone(),
        }
    }
}

impl Default for EngineConfig {
    fn default() -> (c: Self)
        ensures
            c.sample_rate == 48000,
            c.buffer_size == 256,
            c.internal_precision@ == "f32"@,
    {
        EngineConfig {
            sample_rate: 48000,
            buffer_size: 256,
            internal_precision: String::from_str("f32"),
        }
    }
}

/// Version and capability report.
#[derive(Debug)]
pub struct EngineInfo {
    pub version: String,
    pub rust_version: String,
    pub supported_backends: Vec<String>,
}

impl EngineInfo {
    /// The report of this build: its package version, the minimum Rust version it
    /// declares (none, so empty), and the audio backends it supports.
    pub fn current() -> (info: Self)
        ensures
            info.version@ == "0.1.0"@,
            info.rust_version@ == ""@,
            info.supported_backends@.len() == 5,
            info.supported_backends@[0]@ == "wasapi"@,
            info.supported_backends@[1]@ == "coreaudio"@,
            info.supported_backends@[2]@ == "alsa"@,
            info.supported_backends@[3]@ == "jack"@,
            info.supported_backends@[4]@ == "pipewire"@,
    {
        let mut backends: Vec<String> = Vec::new();
        backends.push(String::from_str("wasapi"));
        backends.push(String::from_str("coreaudio"));
        backends.push(String::from_str("alsa"));
        backends.push(String::from_str("jack"));
        backends.push(String::from_str("pipewire"));
        EngineInfo {
            version: String::from_str("0.1.0"),
            rust_version: String::from_str(""),
            supported_backends: backends,
        }
    }
}

/// A loaded sound as the control API reports it. Gain and rate are `f32` values
/// held by their bit patterns.
#[derive(Debug)]
pub struct SoundHandle {
    pub id: String,
    pub src: String,
    pub state: String,
    pub position_ms: u64,
    pub duration_ms: u64,
    pub volume_bits: u32,
    pub rate_bits: u32,
    pub loop_playback: bool,
}

/// A sound handle with its texts taken by their characters.
pub struct SoundView {
    pub id: Seq<char>,
    pub src: Seq<char>,
    pub state: Seq<char>,
    pub position_ms: u64,
    pub duration_ms: u64,
    pub volume_bits: u32,
    pub rate_bits: u32,
    pub loop_playback: bool,
}

impl View for SoundHandle {
    type V = SoundView;

    open spec fn view(&self) -> SoundView {
        SoundView {
            id: self.id@,
            src: self.src@,
            state: self.state@,
            position_ms: self.position_ms,
            duration_ms: self.duration_ms,
            volume_bits: self.volume_bits,
            rate_bits: self.rate_bits,
            loop_playback: self.loop_playback,
        }
    }
}

impl Clone for SoundHandle {
    fn clone(&self) -> (h: Self)
        ensures
            h@ == self@,
    {
        SoundHandle {
            id: self.id.clone(),
            src: self.src.clone(),
            state: self.state.clone(),
            position_ms: self.position_ms,
            duration_ms: self.duration_ms,
            volume_bits: self.volume_bits,
            rate_bits: self.rate_bits,
            loop_playback: self.loop_playback,
        }
    }
}

/// The master bus: its gain in dB (an `f32` held by its bit pattern) and mute.
#[derive(Debug, Clone, Copy, PartialEq, Eq)]
pub struct MasterState {
    pub volume_db_bits: u32,
    pub muted: bool,
}

impl Default for MasterState {
    fn default() -> (m: Self)
        ensures
            m.volume_db_bits == 0,
            !m.muted,
    {
        MasterState { volume_db_bits: 0, muted: false }
    }
}

/// What a decoded file tells the engine: how many interleaved samples it holds,
/// at which rate and in how many channels.
#[derive(Debug, Clone, Copy, PartialEq, Eq)]
pub struct DecodedInfo {
    pub sample_count: usize,
    pub sample_rate: u32,
    pub channels: u16,
}

/// Length in milliseconds of `sample_count` interleaved samples; 0 for a stream
/// without rate or channels.
pub open spec fn duration_spec(sample_count: nat, channels: nat, sample_rate: nat) -> nat {
    if sample_rate == 0 || channels == 0 {
        0
    } else {
        (sample_count / channels) * 1000 / sample_rate
    }
}

/// The millisecond arithmetic fits in 64 bits.
pub open spec fn duration_fits(sample_count: nat, channels: nat) -> bool {
    channels == 0 || (sample_count / channels) * 1000 <= u64::MAX
}

/// Length in milliseconds of a decoded sound.
pub fn duration_ms(sample_count: usize, channels: u16, sample_rate: u32) -> (ms: u64)
    requires
        duration_fits(sample_count as nat, channels as nat),
    ensures
        ms == duration_spec(sample_count as nat, channels as nat, sample_rate as nat),
{
    if sample_rate == 0 || channels == 0 {
        0
    } else {
        let frames = sample_count / (channels as usize);
        (frames as u64) * 1000 / (sample_rate as u64)
    }
}

/// The engine state seen as plain values.
pub struct EngineView {
    pub initialized: bool,
    pub config: Option<EngineConfig>,
    pub sounds: Seq<SoundView>,
    pub master: MasterState,
    pub next_sound_id: u64,
}

/// No registered sound carries an identifier that a later load would hand out,
/// and no two registered sounds share one.
pub open spec fn ids_ok(e: EngineView) -> bool {
    &&& (forall|i: int, k: nat|
        0 <= i < e.sounds.len() && k >= e.next_sound_id ==> #[trigger] e.sounds[i].id
            != #[trigger] sound_id_spec(k))
    &&& (forall|i: int, j: int|
        0 <= i < e.sounds.len() && 0 <= j < e.sounds.len() && i != j ==> e.sounds[i].id
            != e.sounds[j].id)
}

/// The position of the sound with identifier `id`, if one is registered.
pub open spec fn find_spec(sounds: Seq<SoundView>, id: Seq<char>) -> Option<int> {
    if exists|i: int| 0 <= i < sounds.len() && sounds[i].id == id {
        Some(choose|i: int| 0 <= i < sounds.len() && sounds[i].id == id)
    } else {
        None
    }
}

pub open spec fn sample_rate_ok(rate: u32) -> bool {
    22050 <= rate <= 384000
}

pub open spec fn buffer_size_ok(size: usize) -> bool {
    16 <= size <= 4096
}

/// `init`: refused while running or for a rate or buffer size out of range (the
/// rate checked first); then the audio graph's start decides.
pub open spec fn init_spec(e: EngineView, config: EngineConfig, graph: Result<(), Seq<char>>) -> (
    EngineView,
    Result<(), EngineErrorView>,
) {
    if e.initialized {
        (e, Err(EngineErrorView::AlreadyInitialized))
    } else if !sample_rate_ok(config.sample_rate) {
        (e, Err(EngineErrorView::InvalidSampleRate(config.sample_rate)))
    } else if !buffer_size_ok(config.buffer_size) {
        (e, Err(EngineErrorView::InvalidBufferSize(config.buffer_size)))
    } else {
        match graph {
            Err(msg) => (e, Err(EngineErrorView::Other("Audio graph start failed: "@ + msg))),
            Ok(()) => (EngineView { initialized: true, config: Some(config), ..e }, Ok(())),
        }
    }
}

/// `shutdown`: drops the configuration and every sound; the identifier counter
/// and the master bus stay.
pub open spec fn shutdown_spec(e: EngineView) -> (EngineView, Result<(), EngineErrorView>) {
    if !e.initialized {
        (e, Err(EngineErrorView::NotInitialized))
    } else {
        (EngineView { initialized: false, config: None, sounds: Seq::empty(), ..e }, Ok(()))
    }
}

/// `suspend` and `resume` only check that the engine runs.
pub open spec fn running_check(e: EngineView) -> Result<(), EngineErrorView> {
    if e.initialized {
        Ok(())
    } else {
        Err(EngineErrorView::NotInitialized)
    }
}

/// The handle a sound gets when it is loaded.
pub open spec fn loaded_handle(e: EngineView, src: Seq<char>, info: DecodedInfo) -> SoundView {
    SoundView {
        id: sound_id_spec(e.next_sound_id as nat),
        src: src,
        state: "loaded"@,
        position_ms: 0,
        duration_ms: duration_spec(
            info.sample_count as nat,
            info.channels as nat,
            info.sample_rate as nat,
        ) as u64,
        volume_bits: UNIT_GAIN_BITS,
        rate_bits: UNIT_GAIN_BITS,
        loop_playback: false,
    }
}

/// `sound_load`: a failed decode is reported first, then a stopped engine;
/// otherwise the sound is registered under the next identifier.
pub open spec fn load_spec(e: EngineView, src: Seq<char>, decoded: Result<DecodedInfo, Seq<char>>) -> (
    EngineView,
    Result<SoundView, EngineErrorView>,
) {
    match decoded {
        Err(msg) => (e, Err(EngineErrorView::Other("Decode failed: "@ + msg))),
        Ok(info) => if !e.initialized {
            (e, Err(EngineErrorView::NotInitialized))
        } else {
            let h = loaded_handle(e, src, info);
            (
                EngineView {
                    sounds: e.sounds.push(h),
                    next_sound_id: (e.next_sound_id + 1) as u64,
                    ..e
                },
                Ok(h),
            )
        },
    }
}

/// The change that an operation on one sound makes to it.
pub enum SoundEdit {
    Play,
    Pause,
    Stop,
    Seek(u64),
    SetVolume(u32),
    SetRate(u32),
    SetLoop(bool),
}

pub open spec fn edit_spec(h: SoundView, edit: SoundEdit) -> SoundView {
    match edit {
        SoundEdit::Play => SoundView { state: "playing"@, ..h },
        SoundEdit::Pause => if h.state == "playing"@ {
            SoundView { state: "paused"@, ..h }
        } else {
            h
        },
        SoundEdit::Stop => SoundView { state: "stopped"@, position_ms: 0, ..h },
        SoundEdit::Seek(pos) => SoundView { position_ms: pos, ..h },
        SoundEdit::SetVolume(bits) => SoundView { volume_bits: bits, ..h },
        SoundEdit::SetRate(bits) => SoundView { rate_bits: bits, ..h },
        SoundEdit::SetLoop(lp) => SoundView { loop_playback: lp, ..h },
    }
}

/// An operation on the sound `id`: refused for an unknown identifier, else the
/// edit applies to that sound alone.
pub open spec fn sound_op_spec(e: EngineView, id: Seq<char>, edit: SoundEdit) -> (
    EngineView,
    Result<(), EngineErrorView>,
) {
    match find_spec(e.sounds, id) {
        None => (e, Err(EngineErrorView::SoundNotFound(id))),
        Some(i) => (
            EngineView { sounds: e.sounds.update(i, edit_spec(e.sounds[i], edit)), ..e },
            Ok(()),
        ),
    }
}

/// `sound_dispose`: removes the sound, or reports an unknown identifier.
pub open spec fn dispose_spec(e: EngineView, id: Seq<char>) -> (
    EngineView,
    Result<(), EngineErrorView>,
) {
    match find_spec(e.sounds, id) {
        None => (e, Err(EngineErrorView::SoundNotFound(id))),
        Some(i) => (EngineView { sounds: e.sounds.remove(i), ..e }, Ok(())),
    }
}

pub open spec fn unit_result(r: Result<(), EngineError>) -> Result<(), EngineErrorView> {
    match r {
        Ok(()) => Ok(()),
        Err(e) => Err(e@),
    }
}

pub open spec fn handle_result(r: Result<SoundHandle, EngineError>) -> Result<
    SoundView,
    EngineErrorView,
> {
    match r {
        Ok(h) => Ok(h@),
        Err(e) => Err(e@),
    }
}

/// The views of a run of handles.
pub open spec fn handle_views(v: Seq<SoundHandle>) -> Seq<SoundView> {
    v.map_values(|h: SoundHandle| h@)
}

/// The control state of the engine.
pub struct EngineState {
    initialized: bool,
    config: Option<EngineConfig>,
    sounds: Vec<SoundHandle>,
    master: MasterState,
    next_sound_id: u64,
}

impl View for EngineState {
    type V = EngineView;

    closed spec fn view(&self) -> EngineView {
        EngineView {
            initialized: self.initialized,
            config: self.config,
            sounds: handle_views(self.sounds@),
            master: self.master,
            next_sound_id: self.next_sound_id,
        }
    }
}

impl EngineState {
    pub open spec fn wf(&self) -> bool {
        ids_ok(self@)
    }

    pub fn new() -> (s: Self)
        ensures
            s.wf(),
            !s@.initialized,
            s@.config is None,
            s@.sounds == Seq::<SoundView>::empty(),
            s@.master == (MasterState { volume_db_bits: 0, muted: false }),
            s@.next_sound_id == 0,
    {
        let s = EngineState {
            initialized: false,
            config: None,
            sounds: Vec::new(),
            master: MasterState { volume_db_bits: 0, muted: false },
            next_sound_id: 0,
        };
        assert(s@.sounds =~= Seq::<SoundView>::empty());
        s
    }

    pub fn is_initialized(&self) -> (b: bool)
        ensures
            b == self@.initialized,
    {
        self.initialized
    }

    /// The counter from which the next sound's identifier is made.
    pub fn next_sound_id(&self) -> (n: u64)
        ensures
            n == self@.next_sound_id,
    {
        self.next_sound_id
    }

    /// Whether `init` with this configuration would pass the engine's own checks
    /// (before the audio graph is started).
    pub fn init_precheck(&self, config: &EngineConfig) -> (r: Result<(), EngineError>)
        ensures
            unit_result(r) == init_spec(self@, *config, Ok(())).1,
    {
        if self.initialized {
            return Err(EngineError::AlreadyInitialized);
        }
        if config.sample_rate < 22050 || config.sample_rate > 384000 {
            return Err(EngineError::InvalidSampleRate(config.sample_rate));
        }
        if config.buffer_size < 16 || config.buffer_size > 4096 {
            return Err(EngineError::InvalidBufferSize(config.buffer_size));
        }
        Ok(())
    }

    /// Start the engine with `config`; `graph` is how starting the audio graph
    /// went (it is only started once the checks pass).
    pub fn init(&mut self, config: EngineConfig, graph: Result<(), String>) -> (r: Result<
        (),
        EngineError,
    >)
        requires
            old(self).wf(),
        ensures
            final(self).wf(),
            (final(self)@, unit_result(r)) == init_spec(
                old(self)@,
                config,
                match graph {
                    Ok(()) => Ok(()),
                    Err(m) => Err(m@),
                },
            ),
    {
        if let Err(e) = self.init_precheck(&config) {
            return Err(e);
        }
        match graph {
            Err(msg) => {
                let mut text = String::from_str("Audio graph start failed: ");
                text.append(msg.as_str());
                return Err(EngineError::Other(text));
            },
            Ok(()) => {
                self.config = Some(config);
                self.initialized = true;
                Ok(())
            },
        }
    }

    pub fn shutdown(&mut self) -> (r: Result<(), EngineError>)
        requires
            old(self).wf(),
        ensures
            final(self).wf(),
            (final(self)@, unit_result(r)) == shutdown_spec(old(self)@),
    {
        if !self.initialized {
            return Err(EngineError::NotInitialized);
        }
        self.initialized = false;
        self.config = None;
        self.sounds = Vec::new();
        assert(self@.sounds =~= Seq::<SoundView>::empty());
        Ok(())
    }

    /// The index of the sound registered under `id`.
    fn find(&self, id: &str) -> (r: Option<usize>)
        requires
            self.wf(),
        ensures
            r is Some ==> find_spec(self@.sounds, id@) == Some(r->0 as int),
            r is None ==> find_spec(self@.sounds, id@) is None,
    {
        let key = id.to_owned();
        let mut i: usize = 0;
        while i < self.sounds.len()
            invariant
                i <= self.sounds@.len(),
                self.wf(),
                key@ == id@,
                forall|j: int| 0 <= j < i ==> self@.sounds[j].id != id@,
            decreases self.sounds@.len() - i,
        {
            if self.sounds[i].id == key {
                proof {
                    assert(self@.sounds[i as int].id == id@);
                    let c = choose|c: int| 0 <= c < self@.sounds.len() && self@.sounds[c].id == id@;
                    if c != i as int {
                        assert(self@.sounds[c].id != self@.sounds[i as int].id);
                    }
                }
                return Some(i);
            }
            assert(self@.sounds[i as int].id != id@);
            i = i + 1;
        }
        None
    }

    /// Apply `edit` to the sound registered under `id`.
    fn edit_sound(&mut self, id: &str, edit: SoundEdit) -> (r: Result<(), EngineError>)
        requires
            old(self).wf(),
        ensures
            final(self).wf(),
            (final(self)@, unit_result(r)) == sound_op_spec(old(self)@, id@, edit),
    {
        match self.find(id) {
            None => Err(EngineError::SoundNotFound(id.to_owned())),
            Some(i) => {
                let ghost before = self@;
                let mut h = self.sounds[i].clone();
                match edit {
                    SoundEdit::Play => {
                        h.state = String::from_str("playing");
                    },
                    SoundEdit::Pause => {
                        if h.state == String::from_str("playing") {
                            h.state = String::from_str("paused");
                        }
                    },
                    SoundEdit::Stop => {
                        h.state = String::from_str("stopped");
                        h.position_ms = 0;
                    },
                    SoundEdit::Seek(pos) => {
                        h.position_ms = pos;
                    },
                    SoundEdit::SetVolume(bits) => {
                        h.volume_bits = bits;
                    },
                    SoundEdit::SetRate(bits) => {
                        h.rate_bits = bits;
                    },
                    SoundEdit::SetLoop(lp) => {
                        h.loop_playback = lp;
                    },
                }
                assert(h@ == edit_spec(before.sounds[i as int], edit));
                self.sounds.set(i, h);
                assert(self@.sounds =~= before.sounds.update(i as int, edit_spec(before.sounds[i as int], edit)));
                assert(forall|j: int| 0 <= j < self@.sounds.len() ==> #[trigger] self@.sounds[j].id == before.sounds[j].id);
                Ok(())
            },
        }
    }

    /// Load a decoded sound under a fresh identifier. `decoded` is how decoding the
    /// file at `src` went.
    pub fn sound_load(&mut self, src: &str, decoded: Result<DecodedInfo, String>) -> (r: Result<
        SoundHandle,
        EngineError,
    >)
        requires
            old(self).wf(),
            match decoded {
                Ok(info) => old(self)@.initialized ==> old(self)@.next_sound_id < u64::MAX
                    && duration_fits(info.sample_count as nat, info.channels as nat),
                Err(_) => true,
            },
        ensures
            final(self).wf(),
            (final(self)@, handle_result(r)) == load_spec(
                old(self)@,
                src@,
                match decoded {
                    Ok(info) => Ok(info),
                    Err(m) => Err(m@),
                },
            ),
    {
        match decoded {
            Err(msg) => {
                let mut text = String::from_str("Decode failed: ");
                text.append(msg.as_str());
                Err(EngineError::Other(text))
            },
            Ok(info) => {
                if !self.initialized {
                    return Err(EngineError::NotInitialized);
                }
                let ghost before = self@;
                let n = self.next_sound_id;
                let id = sound_id(n);
                self.next_sound_id = n + 1;
                let duration = duration_ms(info.sample_count, info.channels, info.sample_rate);
                let handle = SoundHandle {
                    id: id,
                    src: src.to_owned(),
                    state: String::from_str("loaded"),
                    position_ms: 0,
                    duration_ms: duration,
                    volume_bits: UNIT_GAIN_BITS,
                    rate_bits: UNIT_GAIN_BITS,
                    loop_playback: false,
                };
                let out = handle.clone();
                self.sounds.push(handle);
                assert(self@.sounds =~= before.sounds.push(loaded_handle(before, src@, info)));
                proof {
                    assert forall|i: int, k: nat|
                        0 <= i < self@.sounds.len() && k >= self@.next_sound_id implies #[trigger] self@.sounds[i].id
                            != #[trigger] sound_id_spec(k) by {
                        if i == before.sounds.len() {
                            lemma_sound_id_injective(n as nat, k);
                        } else {
                            assert(self@.sounds[i] == before.sounds[i]);
                        }
                    }
                    assert forall|i: int, j: int|
                        0 <= i < self@.sounds.len() && 0 <= j < self@.sounds.len() && i != j implies self@.sounds[i].id
                            != self@.sounds[j].id by {
                        if i == before.sounds.len() {
                            assert(before.sounds[j].id != sound_id_spec(n as nat));
                        } else if j == before.sounds.len() {
                            assert(before.sounds[i].id != sound_id_spec(n as nat));
                        }
                    }
                }
                Ok(out)
            },
        }
    }

    pub fn sound_play(&mut self, id: &str) -> (r: Result<(), EngineError>)
        requires
            old(self).wf(),
        ensures
            final(self).wf(),
            (final(self)@, unit_result(r)) == sound_op_spec(old(self)@, id@, SoundEdit::Play),
    {
        self.edit_sound(id, SoundEdit::Play)
    }

    /// Pause a playing sound; a sound in another state keeps it.
    pub fn sound_pause(&mut self, id: &str) -> (r: Result<(), EngineError>)
        requires
            old(self).wf(),
        ensures
            final(self).wf(),
            (final(self)@, unit_result(r)) == sound_op_spec(old(self)@, id@, SoundEdit::Pause),
    {
        self.edit_sound(id, SoundEdit::Pause)
    }

    pub fn sound_stop(&mut self, id: &str) -> (r: Result<(), EngineError>)
        requires
            old(self).wf(),
        ensures
            final(self).wf(),
            (final(self)@, unit_result(r)) == sound_op_spec(old(self)@, id@, SoundEdit::Stop),
    {
        self.edit_sound(id, SoundEdit::Stop)
    }

    pub fn sound_seek(&mut self, id: &str, position_ms: u64) -> (r: Result<(), EngineError>)
        requires
            old(self).wf(),
        ensures
            final(self).wf(),
            (final(self)@, unit_result(r)) == sound_op_spec(
                old(self)@,
                id@,
                SoundEdit::Seek(position_ms),
            ),
    {
        self.edit_sound(id, SoundEdit::Seek(position_ms))
    }

    /// Record a sound's gain, given by the bit pattern of the already clamped value.
    pub fn sound_set_volume(&mut self, id: &str, volume_bits: u32) -> (r: Result<(), EngineError>)
        requires
            old(self).wf(),
        ensures
            final(self).wf(),
            (final(self)@, unit_result(r)) == sound_op_spec(
                old(self)@,
                id@,
                SoundEdit::SetVolume(volume_bits),
            ),
    {
        self.edit_sound(id, SoundEdit::SetVolume(volume_bits))
    }

    /// Record a sound's rate, given by the bit pattern of the already bounded value.
    pub fn sound_set_rate(&mut self, id: &str, rate_bits: u32) -> (r: Result<(), EngineError>)
        requires
            old(self).wf(),
        ensures
            final(self).wf(),
            (final(self)@, unit_result(r)) == sound_op_spec(
                old(self)@,
                id@,
                SoundEdit::SetRate(rate_bits),
            ),
    {
        self.edit_sound(id, SoundEdit::SetRate(rate_bits))
    }

    pub fn sound_set_loop(&mut self, id: &str, loop_playback: bool) -> (r: Result<(), EngineError>)
        requires
            old(self).wf(),
        ensures
            final(self).wf(),
            (final(self)@, unit_result(r)) == sound_op_spec(
                old(self)@,
                id@,
                SoundEdit::SetLoop(loop_playback),
            ),
    {
        self.edit_sound(id, SoundEdit::SetLoop(loop_playback))
    }

    pub fn sound_dispose(&mut self, id: &str) -> (r: Result<(), EngineError>)
        requires
            old(self).wf(),
        ensures
            final(self).wf(),
            (final(self)@, unit_result(r)) == dispose_spec(old(self)@, id@),
    {
        match self.find(id) {
            None => Err(EngineError::SoundNotFound(id.to_owned())),
            Some(i) => {
                let ghost before = self@;
                let _ = self.sounds.remove(i);
                assert(self@.sounds =~= before.sounds.remove(i as int));
                proof {
                    assert forall|a: int, k: nat|
                        0 <= a < self@.sounds.len() && k >= self@.next_sound_id implies #[trigger] self@.sounds[a].id
                            != #[trigger] sound_id_spec(k) by {
                        if a < i {
                            assert(self@.sounds[a] == before.sounds[a]);
                        } else {
                            assert(self@.sounds[a] == before.sounds[a + 1]);
                        }
                    }
                    assert forall|a: int, b: int|
                        0 <= a < self@.sounds.len() && 0 <= b < self@.sounds.len() && a != b implies self@.sounds[a].id
                            != self@.sounds[b].id by {
                        let a0 = if a < i { a } else { a + 1 };
                        let b0 = if b < i { b } else { b + 1 };
                        assert(self@.sounds[a] == before.sounds[a0]);
                        assert(self@.sounds[b] == before.sounds[b0]);
                    }
                }
                Ok(())
            },
        }
    }

    /// Every registered sound, in the order they were loaded.
    pub fn sound_list(&self) -> (list: Vec<SoundHandle>)
        ensures
            handle_views(list@) == self@.sounds,
    {
        let mut out: Vec<SoundHandle> = Vec::new();
        let mut i: usize = 0;
        while i < self.sounds.len()
            invariant
                i <= self.sounds@.len(),
                handle_views(out@) == self@.sounds.subrange(0, i as int),
            decreases self.sounds@.len() - i,
        {
            let ghost prev = out@;
            let h = self.sounds[i].clone();
            assert(h@ == self@.sounds[i as int]);
            out.push(h);
            assert(out@ == prev.push(h));
            assert(handle_views(out@) =~= handle_views(prev).push(h@));
            i = i + 1;
            assert(handle_views(out@) =~= self@.sounds.subrange(0, i as int));
        }
        assert(self@.sounds.subrange(0, self@.sounds.len() as int) =~= self@.sounds);
        out
    }

    /// Record the master gain in dB, given by the bit pattern of the already
    /// clamped value. Always accepted, running or not.
    pub fn master_set_volume(&mut self, volume_db_bits: u32) -> (r: Result<(), EngineError>)
        requires
            old(self).wf(),
        ensures
            final(self).wf(),
            r is Ok,
            final(self)@ == (EngineView {
                master: MasterState { volume_db_bits, ..old(self)@.master },
                ..old(self)@
            }),
    {
        self.master.volume_db_bits = volume_db_bits;
        Ok(())
    }

    pub fn master_get(&self) -> (m: MasterState)
        ensures
            m == self@.master,
    {
        self.master
    }

    pub fn suspend(&self) -> (r: Result<(), EngineError>)
        ensures
            unit_result(r) == running_check(self@),
    {
        if !self.initialized {
            return Err(EngineError::NotInitialized);
        }
        Ok(())
    }

    pub fn resume(&self) -> (r: Result<(), EngineError>)
        ensures
            unit_result(r) == running_check(self@),
    {
        if !self.initialized {
            return Err(EngineError::NotInitialized);
        }
        Ok(())
    }
}

} // verus!

verus! {

/// A started engine refuses a second start and keeps its state.
pub proof fn lemma_init_once(e: EngineView, first: EngineConfig, second: EngineConfig, graph: Result<(), Seq<char>>)
    requires
        init_spec(e, first, Ok(())).1 is Ok,
    ensures
        ({
            let started = init_spec(e, first, Ok(())).0;
            init_spec(started, second, graph) == (started, Err::<(), EngineErrorView>(EngineErrorView::AlreadyInitialized))
        }),
{
}

/// Shutting a started engine down succeeds, drops every sound and keeps the
/// identifier counter; after that the engine can be started again.
pub proof fn lemma_shutdown_restart(e: EngineView, config: EngineConfig)
    requires
        e.initialized,
        sample_rate_ok(config.sample_rate),
        buffer_size_ok(config.buffer_size),
    ensures
        ({
            let (down, r) = shutdown_spec(e);
            &&& r is Ok
            &&& !down.initialized
            &&& down.sounds.len() == 0
            &&& down.next_sound_id == e.next_sound_id
            &&& init_spec(down, config, Ok(())).1 is Ok
            &&& init_spec(down, config, Ok(())).0.initialized
        }),
{
}

/// A refused request changes nothing.
pub proof fn lemma_refusal_keeps_state(
    e: EngineView,
    config: EngineConfig,
    graph: Result<(), Seq<char>>,
    src: Seq<char>,
    decoded: Result<DecodedInfo, Seq<char>>,
    id: Seq<char>,
    edit: SoundEdit,
)
    ensures
        init_spec(e, config, graph).1 is Err ==> init_spec(e, config, graph).0 == e,
        shutdown_spec(e).1 is Err ==> shutdown_spec(e).0 == e,
        load_spec(e, src, decoded).1 is Err ==> load_spec(e, src, decoded).0 == e,
        sound_op_spec(e, id, edit).1 is Err ==> sound_op_spec(e, id, edit).0 == e,
        dispose_spec(e, id).1 is Err ==> dispose_spec(e, id).0 == e,
{
}

/// A loaded sound can be addressed by the identifier it was given, and that
/// identifier was not in use before.
pub proof fn lemma_loaded_sound_found(
    e: EngineView,
    src: Seq<char>,
    info: DecodedInfo,
    edit: SoundEdit,
)
    requires
        ids_ok(e),
        e.initialized,
    ensures
        ({
            let (after, r) = load_spec(e, src, Ok(info));
            &&& r is Ok
            &&& find_spec(e.sounds, r->Ok_0.id) is None
            &&& find_spec(after.sounds, r->Ok_0.id) == Some(e.sounds.len() as int)
            &&& sound_op_spec(after, r->Ok_0.id, edit).1 is Ok
        }),
{
    let (after, r) = load_spec(e, src, Ok(info));
    let id = r->Ok_0.id;
    assert(id == sound_id_spec(e.next_sound_id as nat));
    assert forall|i: int| 0 <= i < e.sounds.len() implies e.sounds[i].id != id by {
        assert(e.sounds[i].id != sound_id_spec(e.next_sound_id as nat));
    }
    let n = e.sounds.len() as int;
    assert(after.sounds[n].id == id);
    let c = choose|c: int| 0 <= c < after.sounds.len() && after.sounds[c].id == id;
    if c != n {
        assert(after.sounds[c] == e.sounds[c]);
    }
}

/// Once a sound is disposed of, every request for it is refused as unknown.
pub proof fn lemma_disposed_not_found(e: EngineView, id: Seq<char>, edit: SoundEdit)
    requires
        ids_ok(e),
        dispose_spec(e, id).1 is Ok,
    ensures
        ({
            let after = dispose_spec(e, id).0;
            &&& find_spec(after.sounds, id) is None
            &&& sound_op_spec(after, id, edit) == (after, Err::<(), EngineErrorView>(EngineErrorView::SoundNotFound(id)))
            &&& dispose_spec(after, id) == (after, Err::<(), EngineErrorView>(EngineErrorView::SoundNotFound(id)))
        }),
{
    let i = find_spec(e.sounds, id)->0;
    let after = dispose_spec(e, id).0;
    assert(e.sounds[i].id == id);
    assert forall|a: int| 0 <= a < after.sounds.len() implies after.sounds[a].id != id by {
        let a0 = if a < i { a } else { a + 1 };
        assert(after.sounds[a] == e.sounds[a0]);
    }
}

/// Playing a registered sound succeeds and marks it playing whatever state it
/// was in (loaded, playing, paused or stopped); nothing else about it, and no
/// other sound, changes. In particular a sound paused and played again is
/// playing.
pub proof fn lemma_play_marks_playing(e: EngineView, i: int)
    requires
        ids_ok(e),
        0 <= i < e.sounds.len(),
    ensures
        ({
            let h = e.sounds[i];
            let (after, r) = sound_op_spec(e, h.id, SoundEdit::Play);
            &&& r is Ok
            &&& after.sounds.len() == e.sounds.len()
            &&& after.sounds[i].state == "playing"@
            &&& after.sounds[i].id == h.id
            &&& after.sounds[i].position_ms == h.position_ms
            &&& after.sounds[i].volume_bits == h.volume_bits
            &&& after.sounds[i].rate_bits == h.rate_bits
            &&& after.sounds[i].loop_playback == h.loop_playback
            &&& after.sounds[i].src == h.src
            &&& after.sounds[i].duration_ms == h.duration_ms
            &&& forall|j: int| 0 <= j < e.sounds.len() && j != i ==> after.sounds[j] == e.sounds[j]
            &&& (after.initialized == e.initialized && after.master == e.master
                && after.next_sound_id == e.next_sound_id && after.config == e.config)
        }),
{
    let id = e.sounds[i].id;
    let c = choose|c: int| 0 <= c < e.sounds.len() && e.sounds[c].id == id;
    assert(e.sounds[i].id == id);
    if c != i {
        assert(e.sounds[c].id != e.sounds[i].id);
    }
    assert(find_spec(e.sounds, id) == Some(i));
}

} // verus!
