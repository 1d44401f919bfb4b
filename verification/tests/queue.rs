use bellow::queue::{fill_silence, ChunkCursor};

#[test]
fn cursor_copies_and_keeps_the_rest() {
    let mut c = ChunkCursor::<f32>::new();
    assert!(c.is_exhausted());
    c.load(vec![1.0, 2.0, 3.0, 4.0, 5.0]);
    assert!(!c.is_exhausted());
    let mut out = [0.0f32; 4];
    let n = c.copy_into(&mut out, 1);
    assert_eq!(n, 3);
    assert_eq!(out, [0.0, 1.0, 2.0, 3.0]);
    let mut out2 = [9.0f32; 4];
    let m = c.copy_into(&mut out2, 0);
    assert_eq!(m, 2);
    assert_eq!(out2, [4.0, 5.0, 9.0, 9.0]);
    assert!(c.is_exhausted());
    fill_silence(&mut out2, m, 0.0);
    assert_eq!(out2, [4.0, 5.0, 0.0, 0.0]);
}

#[test]
fn empty_chunk_is_exhausted() {
    let mut c = ChunkCursor::<i16>::new();
    c.load(Vec::new());
    assert!(c.is_exhausted());
    let mut out = [1i16, 2];
    assert_eq!(c.copy_into(&mut out, 0), 0);
    assert_eq!(out, [1, 2]);
}

#[test]
fn fill_step_reads_received_chunks_then_pads_with_silence() {
    let mut c: ChunkCursor<i32> = ChunkCursor::new();
    let mut out = vec![9; 5];
    // used up: a chunk arrives and is copied out
    assert_eq!(c.fill_step(&mut out, 0, Some(vec![1, 2]), 0), Some(2));
    assert_eq!(out, vec![1, 2, 9, 9, 9]);
    // used up again: a longer chunk, cut at the buffer's end
    assert_eq!(c.fill_step(&mut out, 2, Some(vec![3, 4, 5, 6]), 0), Some(5));
    assert_eq!(out, vec![1, 2, 3, 4, 5]);
    // what did not fit is read first in the next buffer
    let mut next = vec![9; 3];
    assert_eq!(c.fill_step(&mut next, 0, None, 0), Some(1));
    assert_eq!(next, vec![6, 9, 9]);
    // nothing arrives: the rest is silence
    assert_eq!(c.fill_step(&mut next, 1, None, 0), None);
    assert_eq!(next, vec![6, 0, 0]);
}
