use bellow::engine::{
    duration_ms, DecodedInfo, EngineConfig, EngineInfo, EngineState, MasterState, UNIT_GAIN_BITS,
};
use bellow::error::EngineError;

fn config(sample_rate: u32, buffer_size: usize) -> EngineConfig {
    EngineConfig { sample_rate, buffer_size, internal_precision: "f32".to_string() }
}

fn started() -> EngineState {
    let mut e = EngineState::new();
    assert!(e.init(EngineConfig::default(), Ok(())).is_ok());
    e
}

fn info(samples: usize) -> DecodedInfo {
    DecodedInfo { sample_count: samples, sample_rate: 48000, channels: 2 }
}

#[test]
fn default_config_values() {
    let c = EngineConfig::default();
    assert_eq!(c.sample_rate, 48000);
    assert_eq!(c.buffer_size, 256);
    assert_eq!(c.internal_precision, "f32");
}

#[test]
fn engine_info_lists_backends() {
    let i = EngineInfo::current();
    assert_eq!(i.version, "0.1.0");
    assert_eq!(i.rust_version, "");
    assert_eq!(i.supported_backends, vec!["wasapi", "coreaudio", "alsa", "jack", "pipewire"]);
}

#[test]
fn unit_gain_bits_is_one() {
    assert_eq!(f32::from_bits(UNIT_GAIN_BITS), 1.0f32);
}

#[test]
fn master_default() {
    let m = MasterState::default();
    assert_eq!(f32::from_bits(m.volume_db_bits), 0.0);
    assert!(!m.muted);
}

#[test]
fn init_validates_rate_then_buffer() {
    let mut e = EngineState::new();
    assert!(matches!(e.init(config(22049, 256), Ok(())), Err(EngineError::InvalidSampleRate(22049))));
    assert!(matches!(e.init(config(384001, 5), Ok(())), Err(EngineError::InvalidSampleRate(384001))));
    assert!(matches!(e.init(config(48000, 15), Ok(())), Err(EngineError::InvalidBufferSize(15))));
    assert!(matches!(e.init(config(48000, 4097), Ok(())), Err(EngineError::InvalidBufferSize(4097))));
    assert!(!e.is_initialized());
    assert!(e.init(config(22050, 16), Ok(())).is_ok());
    assert!(e.is_initialized());
}

#[test]
fn init_accepts_upper_bounds() {
    let mut e = EngineState::new();
    assert!(e.init(config(384000, 4096), Ok(())).is_ok());
}

#[test]
fn init_twice_is_refused() {
    let mut e = started();
    assert!(matches!(e.init(EngineConfig::default(), Ok(())), Err(EngineError::AlreadyInitialized)));
    assert!(e.is_initialized());
}

#[test]
fn init_reports_graph_failure() {
    let mut e = EngineState::new();
    match e.init(EngineConfig::default(), Err("no device".to_string())) {
        Err(EngineError::Other(msg)) => assert_eq!(msg, "Audio graph start failed: no device"),
        other => panic!("unexpected {:?}", other),
    }
    assert!(!e.is_initialized());
}

#[test]
fn precheck_matches_init_checks() {
    let e = EngineState::new();
    assert!(e.init_precheck(&config(48000, 256)).is_ok());
    assert!(matches!(e.init_precheck(&config(8000, 256)), Err(EngineError::InvalidSampleRate(8000))));
    let s = started();
    assert!(matches!(s.init_precheck(&config(48000, 256)), Err(EngineError::AlreadyInitialized)));
}

#[test]
fn lifecycle_errors_when_stopped() {
    let mut e = EngineState::new();
    assert!(matches!(e.shutdown(), Err(EngineError::NotInitialized)));
    assert!(matches!(e.suspend(), Err(EngineError::NotInitialized)));
    assert!(matches!(e.resume(), Err(EngineError::NotInitialized)));
    let mut s = started();
    assert!(s.suspend().is_ok());
    assert!(s.resume().is_ok());
    assert!(s.shutdown().is_ok());
    assert!(!s.is_initialized());
}

#[test]
fn shutdown_clears_sounds_and_restarts() {
    let mut e = started();
    e.sound_load("a.wav", Ok(info(96000))).unwrap();
    assert!(e.shutdown().is_ok());
    assert!(e.sound_list().is_empty());
    assert!(e.init(EngineConfig::default(), Ok(())).is_ok());
    // the identifier counter is kept across restarts
    let h = e.sound_load("b.wav", Ok(info(10))).unwrap();
    assert_eq!(h.id, "sound-1");
}

#[test]
fn load_requires_running_engine() {
    let mut e = EngineState::new();
    assert!(matches!(e.sound_load("a.wav", Ok(info(10))), Err(EngineError::NotInitialized)));
    assert_eq!(e.next_sound_id(), 0);
}

#[test]
fn load_reports_decode_failure_first() {
    let mut e = EngineState::new();
    match e.sound_load("a.wav", Err("bad header".to_string())) {
        Err(EngineError::Other(msg)) => assert_eq!(msg, "Decode failed: bad header"),
        other => panic!("unexpected {:?}", other),
    }
}

#[test]
fn load_assigns_sequential_ids_and_handle() {
    let mut e = started();
    let h0 = e.sound_load("a.wav", Ok(info(96000))).unwrap();
    let h1 = e.sound_load("b.wav", Ok(info(48000 * 2 * 3))).unwrap();
    assert_eq!(h0.id, "sound-0");
    assert_eq!(h1.id, "sound-1");
    assert_eq!(h0.src, "a.wav");
    assert_eq!(h0.state, "loaded");
    assert_eq!(h0.position_ms, 0);
    assert_eq!(h0.duration_ms, 1000);
    assert_eq!(h1.duration_ms, 3000);
    assert_eq!(f32::from_bits(h0.volume_bits), 1.0);
    assert_eq!(f32::from_bits(h0.rate_bits), 1.0);
    assert!(!h0.loop_playback);
    let list = e.sound_list();
    assert_eq!(list.len(), 2);
    assert_eq!(list[0].id, "sound-0");
    assert_eq!(list[1].id, "sound-1");
}

#[test]
fn ids_go_past_ten() {
    let mut e = started();
    let mut last = String::new();
    for _ in 0..12 {
        last = e.sound_load("x", Ok(info(1))).unwrap().id;
    }
    assert_eq!(last, "sound-11");
}

#[test]
fn play_pause_stop_states() {
    let mut e = started();
    let id = e.sound_load("a.wav", Ok(info(96000))).unwrap().id;
    assert!(e.sound_pause(&id).is_ok());
    assert_eq!(e.sound_list()[0].state, "loaded");
    assert!(e.sound_play(&id).is_ok());
    assert_eq!(e.sound_list()[0].state, "playing");
    assert!(e.sound_seek(&id, 500).is_ok());
    assert_eq!(e.sound_list()[0].position_ms, 500);
    assert!(e.sound_pause(&id).is_ok());
    assert_eq!(e.sound_list()[0].state, "paused");
    assert!(e.sound_stop(&id).is_ok());
    assert_eq!(e.sound_list()[0].state, "stopped");
    assert_eq!(e.sound_list()[0].position_ms, 0);
}

#[test]
fn setters_record_values() {
    let mut e = started();
    let id = e.sound_load("a.wav", Ok(info(96000))).unwrap().id;
    assert!(e.sound_set_volume(&id, 0.5f32.to_bits()).is_ok());
    assert!(e.sound_set_rate(&id, 2.0f32.to_bits()).is_ok());
    assert!(e.sound_set_loop(&id, true).is_ok());
    let h = &e.sound_list()[0];
    assert_eq!(f32::from_bits(h.volume_bits), 0.5);
    assert_eq!(f32::from_bits(h.rate_bits), 2.0);
    assert!(h.loop_playback);
}

#[test]
fn unknown_ids_are_refused() {
    let mut e = started();
    assert!(matches!(e.sound_play("nope"), Err(EngineError::SoundNotFound(ref s)) if s == "nope"));
    assert!(matches!(e.sound_pause("nope"), Err(EngineError::SoundNotFound(_))));
    assert!(matches!(e.sound_stop("nope"), Err(EngineError::SoundNotFound(_))));
    assert!(matches!(e.sound_seek("nope", 3), Err(EngineError::SoundNotFound(_))));
    assert!(matches!(e.sound_set_volume("nope", 0), Err(EngineError::SoundNotFound(_))));
    assert!(matches!(e.sound_set_rate("nope", 0), Err(EngineError::SoundNotFound(_))));
    assert!(matches!(e.sound_set_loop("nope", true), Err(EngineError::SoundNotFound(_))));
    assert!(matches!(e.sound_dispose("nope"), Err(EngineError::SoundNotFound(_))));
}

#[test]
fn dispose_removes_only_that_sound() {
    let mut e = started();
    let a = e.sound_load("a", Ok(info(1))).unwrap().id;
    let b = e.sound_load("b", Ok(info(1))).unwrap().id;
    let c = e.sound_load("c", Ok(info(1))).unwrap().id;
    assert!(e.sound_dispose(&b).is_ok());
    let ids: Vec<String> = e.sound_list().into_iter().map(|h| h.id).collect();
    assert_eq!(ids, vec![a.clone(), c.clone()]);
    assert!(matches!(e.sound_play(&b), Err(EngineError::SoundNotFound(_))));
    assert!(matches!(e.sound_dispose(&b), Err(EngineError::SoundNotFound(_))));
    assert!(e.sound_play(&c).is_ok());
    // a fresh load never reuses a disposed identifier
    let d = e.sound_load("d", Ok(info(1))).unwrap().id;
    assert_eq!(d, "sound-3");
}

#[test]
fn master_volume_is_recorded_even_when_stopped() {
    let mut e = EngineState::new();
    assert!(e.master_set_volume((-6.0f32).to_bits()).is_ok());
    let m = e.master_get();
    assert_eq!(f32::from_bits(m.volume_db_bits), -6.0);
    assert!(!m.muted);
}

#[test]
fn duration_formula() {
    assert_eq!(duration_ms(96000, 2, 48000), 1000);
    assert_eq!(duration_ms(44100, 1, 44100), 1000);
    assert_eq!(duration_ms(44099, 1, 44100), 999);
    assert_eq!(duration_ms(5, 2, 1000), 2);
    assert_eq!(duration_ms(100, 0, 48000), 0);
    assert_eq!(duration_ms(100, 2, 0), 0);
}
