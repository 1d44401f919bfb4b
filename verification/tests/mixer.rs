use bellow::mixer::{position_ms, seek_frame, source_samples, VoiceCursor};

#[test]
fn one_shot_voice_reads_to_the_end() {
    let mut c = VoiceCursor { pos: 2, total: 4, looping: false };
    assert_eq!(c.advance(), Some(2));
    assert_eq!(c.advance(), Some(3));
    assert_eq!(c.advance(), None);
    assert_eq!(c.pos, 4);
    assert_eq!(c.advance(), None);
}

#[test]
fn looping_voice_wraps() {
    let mut c = VoiceCursor { pos: 1, total: 3, looping: true };
    let got: Vec<usize> = (0..7).map(|_| c.advance().unwrap()).collect();
    assert_eq!(got, vec![1, 2, 0, 1, 2, 0, 1]);
}

#[test]
fn looping_voice_past_end_restarts() {
    let mut c = VoiceCursor { pos: 10, total: 3, looping: true };
    assert_eq!(c.advance(), Some(0));
    assert_eq!(c.pos, 1);
}

#[test]
fn source_sample_positions() {
    assert_eq!(source_samples(3, 2, 10), (6, 7));
    assert_eq!(source_samples(3, 1, 10), (3, 3));
    assert_eq!(source_samples(1, 0, 10), (1, 1));
    assert_eq!(source_samples(1, 6, 12), (6, 7));
}

#[test]
fn seek_and_position_formulas() {
    assert_eq!(seek_frame(1500, 48000), 72000);
    assert_eq!(seek_frame(1, 44100), 44);
    assert_eq!(position_ms(72000, 48000), 1500);
    assert_eq!(position_ms(44, 44100), 0);
    assert_eq!(position_ms(1000, 0), 0);
}
