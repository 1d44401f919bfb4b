use bellow::dispatch::{apply_command, VoiceAction};
use bellow::engine::{DecodedInfo, EngineConfig, EngineState};
use bellow::error::EngineError;
use bellow::graph::VoiceEdit;
use bellow::rpc::Command;

fn loaded() -> EngineState {
    let mut e = EngineState::new();
    assert!(e.init(EngineConfig::default(), Ok(())).is_ok());
    let info = DecodedInfo { sample_count: 96000, sample_rate: 48000, channels: 2 };
    e.sound_load("a.wav", Ok(info)).unwrap();
    e
}

#[test]
fn play_runs_the_play_operation_and_starts_the_voices() {
    let mut e = loaded();
    let a = apply_command(&mut e, &Command::SoundPlay { id: "sound-0".to_string() }, 0).unwrap();
    assert!(a.result.is_ok());
    assert!(a.reply.ok && a.reply.error.is_none());
    assert_eq!(
        a.voices,
        Some(("sound-0".to_string(), VoiceAction::Edit(VoiceEdit::SetPlaying(true))))
    );
    assert_eq!(e.sound_list()[0].state, "playing");
}

#[test]
fn unknown_sound_is_refused_with_its_text() {
    let mut e = loaded();
    let a = apply_command(&mut e, &Command::SoundSeek { id: "nope".to_string(), position_ms: 5 }, 0)
        .unwrap();
    assert!(matches!(a.result, Err(EngineError::SoundNotFound(_))));
    assert!(!a.reply.ok);
    assert_eq!(a.reply.error.as_deref(), Some("Sound not found: nope"));
    assert_eq!(a.voices, Some(("nope".to_string(), VoiceAction::Edit(VoiceEdit::Seek(5)))));
}

#[test]
fn gains_dispose_and_master() {
    let mut e = loaded();
    let half = 0.5f32.to_bits();
    let a = apply_command(&mut e, &Command::SoundSetVolume { id: "sound-0".to_string() }, half).unwrap();
    assert_eq!(a.voices, Some(("sound-0".to_string(), VoiceAction::Edit(VoiceEdit::SetVolume(half)))));
    assert_eq!(e.sound_list()[0].volume_bits, half);
    let a = apply_command(&mut e, &Command::SoundSetRate { id: "sound-0".to_string() }, half).unwrap();
    assert_eq!(a.voices, None);
    assert_eq!(e.sound_list()[0].rate_bits, half);
    let db = (-6.0f32).to_bits();
    let a = apply_command(&mut e, &Command::MasterSetVolume, db).unwrap();
    assert!(a.reply.ok);
    assert_eq!(e.master_get().volume_db_bits, db);
    let a = apply_command(&mut e, &Command::SoundDispose { id: "sound-0".to_string() }, 0).unwrap();
    assert_eq!(a.voices, Some(("sound-0".to_string(), VoiceAction::Dispose)));
    assert!(e.sound_list().is_empty());
}

#[test]
fn shutdown_then_stopped_engine_refuses() {
    let mut e = loaded();
    assert!(apply_command(&mut e, &Command::EngineShutdown, 0).unwrap().reply.ok);
    let a = apply_command(&mut e, &Command::EngineSuspend, 0).unwrap();
    assert_eq!(a.reply.error.as_deref(), Some("Engine not initialized"));
}

#[test]
fn other_commands_are_left_to_the_caller() {
    let mut e = loaded();
    assert!(apply_command(&mut e, &Command::SoundList, 0).is_none());
    assert!(apply_command(&mut e, &Command::EngineInit, 0).is_none());
    assert!(apply_command(&mut e, &Command::Unknown { method: "x".to_string() }, 0).is_none());
    assert_eq!(e.sound_list().len(), 1);
}
