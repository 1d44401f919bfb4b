use bellow::rpc::{command_from, Command, RequestParams, RpcResult};
use bellow::error::EngineError;

fn params() -> RequestParams {
    RequestParams { id: None, src: None, position_ms: None, looping: None }
}

#[test]
fn rpc_result_shapes() {
    let ok = RpcResult::ok();
    assert!(ok.ok);
    assert!(ok.error.is_none());
    let err = RpcResult::err("boom".to_string());
    assert!(!err.ok);
    assert_eq!(err.error.as_deref(), Some("boom"));
    let unk = RpcResult::unknown_method("x.y");
    assert!(!unk.ok);
    assert_eq!(unk.error.as_deref(), Some("Unknown method: x.y"));
}

#[test]
fn lifecycle_methods_route() {
    assert!(matches!(command_from("engine.init", &params()), Command::EngineInit));
    assert!(matches!(command_from("engine.shutdown", &params()), Command::EngineShutdown));
    assert!(matches!(command_from("engine.suspend", &params()), Command::EngineSuspend));
    assert!(matches!(command_from("engine.resume", &params()), Command::EngineResume));
    assert!(matches!(command_from("engine.version", &params()), Command::EngineVersion));
    assert!(matches!(command_from("sound.list", &params()), Command::SoundList));
    assert!(matches!(command_from("master.setVolume", &params()), Command::MasterSetVolume));
    assert!(matches!(command_from("master.get", &params()), Command::MasterGet));
    assert!(matches!(command_from("devices.list", &params()), Command::DevicesList));
}

#[test]
fn sound_methods_take_params_or_defaults() {
    let p = RequestParams {
        id: Some("sound-3".to_string()),
        src: Some("song.mp3".to_string()),
        position_ms: Some(1500),
        looping: Some(true),
    };
    match command_from("sound.load", &p) {
        Command::SoundLoad { src } => assert_eq!(src, "song.mp3"),
        c => panic!("{:?}", c),
    }
    match command_from("sound.seek", &p) {
        Command::SoundSeek { id, position_ms } => {
            assert_eq!(id, "sound-3");
            assert_eq!(position_ms, 1500);
        }
        c => panic!("{:?}", c),
    }
    match command_from("sound.setLoop", &p) {
        Command::SoundSetLoop { id, looping } => {
            assert_eq!(id, "sound-3");
            assert!(looping);
        }
        c => panic!("{:?}", c),
    }
    match command_from("sound.seek", &params()) {
        Command::SoundSeek { id, position_ms } => {
            assert_eq!(id, "");
            assert_eq!(position_ms, 0);
        }
        c => panic!("{:?}", c),
    }
    match command_from("sound.setLoop", &params()) {
        Command::SoundSetLoop { looping, .. } => assert!(!looping),
        c => panic!("{:?}", c),
    }
    match command_from("sound.load", &params()) {
        Command::SoundLoad { src } => assert_eq!(src, ""),
        c => panic!("{:?}", c),
    }
    assert!(matches!(command_from("sound.play", &p), Command::SoundPlay { .. }));
    assert!(matches!(command_from("sound.pause", &p), Command::SoundPause { .. }));
    assert!(matches!(command_from("sound.stop", &p), Command::SoundStop { .. }));
    assert!(matches!(command_from("sound.setVolume", &p), Command::SoundSetVolume { .. }));
    assert!(matches!(command_from("sound.setRate", &p), Command::SoundSetRate { .. }));
    assert!(matches!(command_from("sound.dispose", &p), Command::SoundDispose { .. }));
}

#[test]
fn unknown_method_keeps_name() {
    match command_from("sound.Play", &params()) {
        Command::Unknown { method } => assert_eq!(method, "sound.Play"),
        c => panic!("{:?}", c),
    }
}

#[test]
fn error_texts() {
    assert_eq!(EngineError::AlreadyInitialized.message(), "Engine already initialized");
    assert_eq!(EngineError::NotInitialized.message(), "Engine not initialized");
    assert_eq!(EngineError::InvalidSampleRate(7).message(), "Invalid sample rate: 7");
    assert_eq!(EngineError::InvalidBufferSize(4096).message(), "Invalid buffer size: 4096");
    assert_eq!(EngineError::SoundNotFound("sound-3".to_string()).message(), "Sound not found: sound-3");
    assert_eq!(EngineError::Other("boom".to_string()).message(), "boom");
    let io = std::io::Error::new(std::io::ErrorKind::Other, "disk gone");
    assert_eq!(EngineError::Io(io).message(), "IO error: disk gone");
}

#[test]
fn unit_replies() {
    let ok = RpcResult::from_unit(Ok(()));
    assert!(ok.ok);
    assert_eq!(ok.error, None);
    let bad = RpcResult::from_unit(Err(EngineError::SoundNotFound("x".to_string())));
    assert!(!bad.ok);
    assert_eq!(bad.error.as_deref(), Some("Sound not found: x"));
}
