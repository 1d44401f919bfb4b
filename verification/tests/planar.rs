use bellow::planar::{deinterleave, interleave};

#[test]
fn stereo_splits_into_two_runs() {
    let planes = deinterleave(&[1, 10, 2, 20, 3, 30], 2);
    assert_eq!(planes, vec![vec![1, 2, 3], vec![10, 20, 30]]);
}

#[test]
fn partial_frame_is_left_out() {
    let planes = deinterleave(&[1.0f32, -1.0, 2.0, -2.0, 3.0], 2);
    assert_eq!(planes, vec![vec![1.0, 2.0], vec![-1.0, -2.0]]);
    assert_eq!(deinterleave::<u8>(&[], 3), vec![Vec::<u8>::new(); 3]);
}

#[test]
fn runs_weave_back() {
    let samples = vec![0.5f32, -0.5, 0.25, -0.25, 0.125, -0.125];
    let planes = deinterleave(&samples, 3);
    assert_eq!(interleave(&planes, 3), samples);
}

#[test]
fn first_run_sets_the_frame_count() {
    let planes = vec![vec![1, 2], vec![10, 20, 30], vec![7]];
    assert_eq!(interleave(&planes, 2), vec![1, 10, 2, 20]);
}
