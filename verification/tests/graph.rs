use bellow::engine::UNIT_GAIN_BITS;
use bellow::graph::{VoiceEdit, VoiceTable};
use std::sync::Arc;

fn table() -> VoiceTable<f32> {
    let mut t = VoiceTable::new();
    // 4 stereo frames at 1 kHz, and a mono sound of 3 frames
    let stereo: Vec<f32> = (0..8).map(|k| k as f32).collect();
    let (pos, dur) = t.add("sound-0".to_string(), Arc::new(stereo), 2, 1000);
    assert_eq!((pos, dur), (0, 4));
    t.add("sound-1".to_string(), Arc::new(vec![0.5, 0.25, 0.125]), 1, 1000);
    t
}

#[test]
fn added_voices_start_idle() {
    let t = table();
    assert_eq!(t.len(), 2);
    let v = t.voice(0);
    assert_eq!(v.id, "sound-0");
    assert!(!v.playing && !v.looping);
    assert_eq!(v.frame_pos, 0);
    assert_eq!(v.volume_bits, UNIT_GAIN_BITS);
}

#[test]
fn edits_touch_only_matching_voices() {
    let mut t = table();
    t.edit("sound-1", VoiceEdit::SetPlaying(true));
    assert!(!t.voice(0).playing);
    assert!(t.voice(1).playing);
    t.edit("sound-1", VoiceEdit::Seek(2));
    assert_eq!(t.voice(1).frame_pos, 2);
    t.edit("sound-1", VoiceEdit::SetVolume(0.25f32.to_bits()));
    assert_eq!(f32::from_bits(t.voice(1).volume_bits), 0.25);
    t.edit("sound-1", VoiceEdit::SetLoop(true));
    assert!(t.voice(1).looping);
    t.edit("sound-1", VoiceEdit::Stop);
    assert!(!t.voice(1).playing);
    assert_eq!(t.voice(1).frame_pos, 0);
    t.edit("missing", VoiceEdit::SetPlaying(true));
    assert!(!t.voice(0).playing);
}

#[test]
fn idle_voice_reads_nothing() {
    let mut t = table();
    assert!(t.advance_voice(0, 16).is_empty());
    assert_eq!(t.voice(0).frame_pos, 0);
}

#[test]
fn one_shot_voice_stops_at_end() {
    let mut t = table();
    t.edit("sound-0", VoiceEdit::SetPlaying(true));
    t.edit("sound-0", VoiceEdit::Seek(1)); // frame 1
    assert_eq!(t.advance_voice(0, 2), vec![1, 2]);
    assert!(t.voice(0).playing);
    assert_eq!(t.advance_voice(0, 5), vec![3]);
    assert!(!t.voice(0).playing);
    assert_eq!(t.voice(0).frame_pos, 4);
}

#[test]
fn looping_voice_wraps_in_a_block() {
    let mut t = table();
    t.edit("sound-1", VoiceEdit::SetLoop(true));
    t.edit("sound-1", VoiceEdit::SetPlaying(true));
    assert!(t.is_mixable(1));
    assert_eq!(t.advance_voice(1, 7), vec![0, 1, 2, 0, 1, 2, 0]);
    assert!(t.voice(1).playing);
    assert_eq!(t.voice(1).frame_pos, 1);
}

#[test]
fn looping_empty_voice_is_not_mixable() {
    let mut t: VoiceTable<f32> = VoiceTable::new();
    t.add("e".to_string(), Arc::new(vec![0.0]), 2, 48000);
    assert!(t.is_mixable(0));
    t.edit("e", VoiceEdit::SetLoop(true));
    assert!(!t.is_mixable(0));
}

#[test]
fn dispose_keeps_order_of_the_rest() {
    let mut t = table();
    t.add("sound-2".to_string(), Arc::new(vec![]), 2, 1000);
    t.dispose("sound-1");
    assert_eq!(t.len(), 2);
    assert_eq!(t.voice(0).id, "sound-0");
    assert_eq!(t.voice(1).id, "sound-2");
    assert_eq!(t.voice(0).samples.len(), 8);
    assert!(t.voice(1).samples.is_empty());
}

#[test]
fn voices_keep_their_own_samples() {
    let mut t = table();
    assert_eq!(*t.voice(1).samples, vec![0.5, 0.25, 0.125]);
    t.edit("sound-0", VoiceEdit::SetPlaying(true));
    t.edit("sound-1", VoiceEdit::Stop);
    assert_eq!(t.voice(0).samples[7], 7.0);
    assert_eq!(*t.voice(1).samples, vec![0.5, 0.25, 0.125]);
}

#[test]
fn stereo_block_reads_left_and_right() {
    let mut t = table();
    t.edit("sound-0", VoiceEdit::SetPlaying(true));
    t.edit("sound-0", VoiceEdit::Seek(2)); // frame 2
    assert_eq!(t.frame_pair(0, 1), (2.0, 3.0));
    assert_eq!(t.mix_block(0, 4), vec![(4.0, 5.0), (6.0, 7.0)]);
    assert!(!t.voice(0).playing);
}

#[test]
fn mono_block_feeds_both_sides_and_loops() {
    let mut t = table();
    t.edit("sound-1", VoiceEdit::SetLoop(true));
    t.edit("sound-1", VoiceEdit::SetPlaying(true));
    assert_eq!(
        t.mix_block(1, 4),
        vec![(0.5, 0.5), (0.25, 0.25), (0.125, 0.125), (0.5, 0.5)]
    );
    assert!(t.voice(1).playing);
}

#[test]
fn empty_block_leaves_a_looping_empty_voice_alone() {
    let mut t: VoiceTable<f32> = VoiceTable::new();
    t.add("e".to_string(), Arc::new(vec![]), 1, 1000);
    t.edit("e", VoiceEdit::SetLoop(true));
    t.edit("e", VoiceEdit::SetPlaying(true));
    assert!(t.mix_block(0, 0).is_empty());
    assert!(t.voice(0).playing);
}

#[test]
fn position_and_seek_range() {
    let mut t = table();
    assert_eq!(t.position_ms("missing"), None);
    t.edit("sound-0", VoiceEdit::Seek(3));
    assert_eq!(t.voice(0).frame_pos, 3);
    assert_eq!(t.position_ms("sound-0"), Some(3));
    assert!(t.seek_in_range("sound-0", 1000));
    assert!(!t.seek_in_range("sound-0", u64::MAX));
    assert!(t.seek_in_range("missing", u64::MAX));
}

#[test]
fn seek_then_position_rounds_down_to_a_frame() {
    let mut t: VoiceTable<f32> = VoiceTable::new();
    t.add("a".to_string(), Arc::new(vec![0.0; 96000]), 2, 48000);
    t.add("b".to_string(), Arc::new(vec![0.0; 44100]), 1, 44100);
    t.edit("a", VoiceEdit::Seek(250));
    assert_eq!(t.voice(0).frame_pos, 12000);
    assert_eq!(t.position_ms("a"), Some(250));
    t.edit("b", VoiceEdit::Seek(7));
    // 7 ms at 44.1 kHz is frame 308, which reads back as 6 ms
    assert_eq!(t.voice(1).frame_pos, 308);
    assert_eq!(t.position_ms("b"), Some(6));
    assert_eq!(t.voice(0).frame_pos, 12000);
}

#[test]
fn looping_voice_without_a_whole_frame_rereads_frame_zero() {
    // three channels but only two samples: no whole frame, yet frame 0's left
    // and right samples are there, so the mixer reads them over and over
    let mut t: VoiceTable<f32> = VoiceTable::new();
    t.add("short".to_string(), Arc::new(vec![0.5, -0.5]), 3, 1000);
    t.edit("short", VoiceEdit::SetLoop(true));
    t.edit("short", VoiceEdit::SetPlaying(true));
    assert!(t.is_mixable(0));
    assert_eq!(t.mix_block(0, 3), vec![(0.5, -0.5), (0.5, -0.5), (0.5, -0.5)]);
    assert!(t.voice(0).playing);
}
