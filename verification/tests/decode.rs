use bellow::decode::{block_take, duration_frames, select_track, stream_format};
use bellow::error::DecodeError;

#[test]
fn first_known_codec_is_chosen() {
    assert_eq!(select_track(&vec![true, false, false]).unwrap(), 1);
    assert_eq!(select_track(&vec![false]).unwrap(), 0);
    assert!(matches!(select_track(&vec![true, true]), Err(DecodeError::NoAudioTrack)));
    assert!(matches!(select_track(&vec![]), Err(DecodeError::NoAudioTrack)));
}

#[test]
fn format_defaults() {
    assert_eq!(stream_format(None, 2), (48000, 2));
    assert_eq!(stream_format(Some(44100), 6), (44100, 6));
    assert_eq!(stream_format(Some(8000), 65537), (8000, 1));
}

#[test]
fn frames_from_samples() {
    assert_eq!(duration_frames(96000, 2), 48000);
    assert_eq!(duration_frames(7, 2), 3);
}

#[test]
fn block_cuts_chunks() {
    // room for 10 stereo frames, chunk of 8 samples
    assert_eq!(block_take(10, 0, 2, 8), (8, 4));
    // 2 frames left, chunk of 100 samples
    assert_eq!(block_take(10, 8, 2, 100), (4, 10));
    // odd chunk length floors the frame count
    assert_eq!(block_take(10, 0, 2, 5), (5, 2));
    assert_eq!(block_take(10, 0, 2, 0), (0, 0));
}
