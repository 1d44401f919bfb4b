//! Carrying out the requests that the engine's control state answers with a
//! plain `{ok, error}` reply: which operation each command runs, what it
//! replies, and what the voices of the audio graph are to do.
use vstd::prelude::*;
use crate::engine::{
    dispose_spec, running_check, shutdown_spec, sound_op_spec, unit_result, EngineState, EngineView,
    MasterState, SoundEdit,
};
use crate::error::{message_spec, EngineError, EngineErrorView};
use crate::graph::{edited, kept_spec, VoiceEdit, VoiceView};
use crate::rpc::{Command, CommandView, RpcResult};

verus! {

/// What the voices of one sound in the audio graph are to do.
#[derive(Debug, Clone, Copy, PartialEq, Eq)]
pub enum VoiceAction {
    Edit(VoiceEdit),
    Dispose,
}

/// A command carried out on the control state: the operation's result, the
/// reply to send, and the change the voices of one sound are to see.
pub struct Applied {
    pub result: Result<(), EngineError>,
    pub reply: RpcResult,
    pub voices: Option<(String, VoiceAction)>,
}

/// A change to the voices, with the sound's identifier taken by its characters.
pub open spec fn voices_view(v: Option<(String, VoiceAction)>) -> Option<(Seq<char>, VoiceAction)> {
    match v {
        Some((id, a)) => Some((id@, a)),
        None => None,
    }
}

/// A change to the voices of `id`.
pub open spec fn on_voices(id: Seq<char>, a: VoiceAction) -> Option<(Seq<char>, VoiceAction)> {
    Some((id, a))
}

/// An operation on one sound, with the change its voices see.
pub open spec fn sound_command(
    e: EngineView,
    id: Seq<char>,
    edit: SoundEdit,
    voices: Option<(Seq<char>, VoiceAction)>,
) -> Option<(EngineView, Result<(), EngineErrorView>, Option<(Seq<char>, VoiceAction)>)> {
    let (after, r) = sound_op_spec(e, id, edit);
    Some((after, r, voices))
}

/// What a command does to the control state, its result, and the change to the
/// voices; `None` for the commands whose reply is not a plain `{ok, error}`.
/// `gain_bits` is the bit pattern of the clamped gain, rate or master level that
/// a gain command carries.
pub open spec fn apply_spec(e: EngineView, c: CommandView, gain_bits: u32) -> Option<
    (EngineView, Result<(), EngineErrorView>, Option<(Seq<char>, VoiceAction)>),
> {
    match c {
        CommandView::EngineShutdown => {
            let (after, r) = shutdown_spec(e);
            Some((after, r, None))
        },
        CommandView::EngineSuspend => Some((e, running_check(e), None)),
        CommandView::EngineResume => Some((e, running_check(e), None)),
        CommandView::SoundPlay { id } => sound_command(
            e,
            id,
            SoundEdit::Play,
            on_voices(id, VoiceAction::Edit(VoiceEdit::SetPlaying(true))),
        ),
        CommandView::SoundPause { id } => sound_command(
            e,
            id,
            SoundEdit::Pause,
            on_voices(id, VoiceAction::Edit(VoiceEdit::SetPlaying(false))),
        ),
        CommandView::SoundStop { id } => sound_command(
            e,
            id,
            SoundEdit::Stop,
            on_voices(id, VoiceAction::Edit(VoiceEdit::Stop)),
        ),
        CommandView::SoundSeek { id, position_ms } => sound_command(
            e,
            id,
            SoundEdit::Seek(position_ms),
            on_voices(id, VoiceAction::Edit(VoiceEdit::Seek(position_ms))),
        ),
        CommandView::SoundSetVolume { id } => sound_command(
            e,
            id,
            SoundEdit::SetVolume(gain_bits),
            on_voices(id, VoiceAction::Edit(VoiceEdit::SetVolume(gain_bits))),
        ),
        CommandView::SoundSetRate { id } => sound_command(e, id, SoundEdit::SetRate(gain_bits), None),
        CommandView::SoundSetLoop { id, looping } => sound_command(
            e,
            id,
            SoundEdit::SetLoop(looping),
            on_voices(id, VoiceAction::Edit(VoiceEdit::SetLoop(looping))),
        ),
        CommandView::SoundDispose { id } => {
            let (after, r) = dispose_spec(e, id);
            Some((after, r, on_voices(id, VoiceAction::Dispose)))
        },
        CommandView::MasterSetVolume => Some(
            (
                EngineView { master: MasterState { volume_db_bits: gain_bits, ..e.master }, ..e },
                Ok(()),
                None,
            ),
        ),
        _ => None,
    }
}

/// The reply to a result that is no I/O error: success, or the error's text.
pub open spec fn reply_spec(reply: RpcResult, r: Result<(), EngineErrorView>) -> bool {
    &&& reply.ok == r is Ok
    &&& match r {
        Ok(()) => reply.error is None,
        Err(e) => reply.error is Some && reply.error->0@ == message_spec(e),
    }
}

fn applied(result: Result<(), EngineError>, voices: Option<(String, VoiceAction)>) -> (a: Applied)
    requires
        result matches Err(e) ==> !(e@ is Io),
    ensures
        a.result == result,
        reply_spec(a.reply, unit_result(result)),
        a.voices == voices,
{
    let reply = match &result {
        Ok(()) => RpcResult::ok(),
        Err(e) => RpcResult::err(e.message()),
    };
    Applied { result, reply, voices }
}

fn sound_voices(id: &String, a: VoiceAction) -> (v: Option<(String, VoiceAction)>)
    ensures
        voices_view(v) == on_voices(id@, a),
{
    Some((id.clone(), a))
}

/// Carry out `cmd` on the control state where its reply is a plain
/// `{ok, error}`: run the engine operation it selects, give the reply, and say
/// what the voices of the sound it names are to do. Other commands are left to
/// the caller (`None`), and the state is untouched.
pub fn apply_command(state: &mut EngineState, cmd: &Command, gain_bits: u32) -> (out: Option<Applied>)
    requires
        old(state).wf(),
    ensures
        final(state).wf(),
        match apply_spec(old(state)@, cmd@, gain_bits) {
            None => out is None && final(state)@ == old(state)@,
            Some((after, r, voices)) => {
                &&& out is Some
                &&& final(state)@ == after
                &&& unit_result(out->0.result) == r
                &&& reply_spec(out->0.reply, r)
                &&& voices_view(out->0.voices) == voices
            },
        },
{
    match cmd {
        Command::EngineShutdown => Some(applied(state.shutdown(), None)),
        Command::EngineSuspend => Some(applied(state.suspend(), None)),
        Command::EngineResume => Some(applied(state.resume(), None)),
        Command::SoundPlay { id } => {
            let r = state.sound_play(id.as_str());
            Some(applied(r, sound_voices(id, VoiceAction::Edit(VoiceEdit::SetPlaying(true)))))
        },
        Command::SoundPause { id } => {
            let r = state.sound_pause(id.as_str());
            Some(applied(r, sound_voices(id, VoiceAction::Edit(VoiceEdit::SetPlaying(false)))))
        },
        Command::SoundStop { id } => {
            let r = state.sound_stop(id.as_str());
            Some(applied(r, sound_voices(id, VoiceAction::Edit(VoiceEdit::Stop))))
        },
        Command::SoundSeek { id, position_ms } => {
            let r = state.sound_seek(id.as_str(), *position_ms);
            Some(applied(r, sound_voices(id, VoiceAction::Edit(VoiceEdit::Seek(*position_ms)))))
        },
        Command::SoundSetVolume { id } => {
            let r = state.sound_set_volume(id.as_str(), gain_bits);
            Some(applied(r, sound_voices(id, VoiceAction::Edit(VoiceEdit::SetVolume(gain_bits)))))
        },
        Command::SoundSetRate { id } => {
            let r = state.sound_set_rate(id.as_str(), gain_bits);
            Some(applied(r, None))
        },
        Command::SoundSetLoop { id, looping } => {
            let r = state.sound_set_loop(id.as_str(), *looping);
            Some(applied(r, sound_voices(id, VoiceAction::Edit(VoiceEdit::SetLoop(*looping)))))
        },
        Command::SoundDispose { id } => {
            let r = state.sound_dispose(id.as_str());
            Some(applied(r, sound_voices(id, VoiceAction::Dispose)))
        },
        Command::MasterSetVolume => Some(applied(state.master_set_volume(gain_bits), None)),
        _ => None,
    }
}

/// The voices after the audio graph makes the change `voices` to them: an edit
/// of the voices of one sound, or dropping them.
pub open spec fn voices_after<T>(vs: Seq<VoiceView<T>>, voices: Option<(Seq<char>, VoiceAction)>) -> Seq<
    VoiceView<T>,
> {
    match voices {
        Some((id, VoiceAction::Edit(ed))) => edited(vs, id, ed),
        Some((id, VoiceAction::Dispose)) => kept_spec(vs, id),
        None => vs,
    }
}

/// What each sound request does to the voices of the audio graph, whatever the
/// engine state: play starts the sound's voices and pause halts them where they
/// are; stop halts them and rewinds them to frame 0; a seek moves them to the
/// frame of the time sought; a gain or loop request sets their gain or looping;
/// a rate request leaves them alone. Every other voice, and every other field of
/// the sound's voices, stays as it was.
pub proof fn lemma_sound_requests_move_voices<T>(
    e: EngineView,
    c: CommandView,
    gain_bits: u32,
    vs: Seq<VoiceView<T>>,
)
    requires
        c is SoundPlay || c is SoundPause || c is SoundStop || c is SoundSeek || c is SoundSetVolume
            || c is SoundSetRate || c is SoundSetLoop,
    ensures
        apply_spec(e, c, gain_bits) is Some,
        ({
            let (_, _, voices) = apply_spec(e, c, gain_bits)->0;
            let after = voices_after(vs, voices);
            &&& after.len() == vs.len()
            &&& forall|j: int| 0 <= j < vs.len() ==> {
                let v = vs[j];
                let w = #[trigger] after[j];
                match c {
                    CommandView::SoundPlay { id } => w == (if v.id == id {
                        VoiceView { playing: true, ..v }
                    } else {
                        v
                    }),
                    CommandView::SoundPause { id } => w == (if v.id == id {
                        VoiceView { playing: false, ..v }
                    } else {
                        v
                    }),
                    CommandView::SoundStop { id } => w == (if v.id == id {
                        VoiceView { playing: false, frame_pos: 0, ..v }
                    } else {
                        v
                    }),
                    CommandView::SoundSeek { id, position_ms } => w == (if v.id == id {
                        VoiceView { frame_pos: (position_ms * v.sample_rate / 1000) as usize, ..v }
                    } else {
                        v
                    }),
                    CommandView::SoundSetVolume { id } => w == (if v.id == id {
                        VoiceView { volume_bits: gain_bits, ..v }
                    } else {
                        v
                    }),
                    CommandView::SoundSetLoop { id, looping } => w == (if v.id == id {
                        VoiceView { looping, ..v }
                    } else {
                        v
                    }),
                    _ => w == v,
                }
            }
        }),
{
}

/// Disposing of a sound drops every one of its voices from the audio graph and
/// keeps every voice of the other sounds, in order.
pub proof fn lemma_dispose_drops_voices<T>(e: EngineView, id: Seq<char>, gain_bits: u32, vs: Seq<VoiceView<T>>)
    ensures
        ({
            let (_, _, voices) = apply_spec(e, CommandView::SoundDispose { id }, gain_bits)->0;
            let after = voices_after(vs, voices);
            &&& forall|k: int| 0 <= k < after.len() ==> (#[trigger] after[k]).id != id
            &&& after == vs.filter(|v: VoiceView<T>| v.id != id)
        }),
{
    lemma_kept_is_filter(vs, id);
}

proof fn lemma_kept_is_filter<T>(vs: Seq<VoiceView<T>>, id: Seq<char>)
    ensures
        kept_spec(vs, id) == vs.filter(|v: VoiceView<T>| v.id != id),
        forall|k: int| 0 <= k < kept_spec(vs, id).len() ==> (#[trigger] kept_spec(vs, id)[k]).id != id,
    decreases vs.len(),
{
    reveal(Seq::filter);
    if vs.len() > 0 {
        lemma_kept_is_filter(vs.drop_last(), id);
        let prev = kept_spec(vs.drop_last(), id);
        if vs.last().id != id {
            assert forall|k: int| 0 <= k < prev.push(vs.last()).len() implies (#[trigger] prev.push(vs.last())[k]).id != id by {
                if k < prev.len() {
                    assert(prev.push(vs.last())[k] == prev[k]);
                }
            }
        }
    }
}

} // verus!
