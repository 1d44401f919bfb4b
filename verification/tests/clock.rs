use bellow::clock::SampleClock;

#[test]
fn clock_starts_at_zero() {
    let c = SampleClock::new(48000);
    assert_eq!(c.samples(), 0);
    assert_eq!(c.sample_rate(), 48000);
}

#[test]
fn clock_advances_by_blocks() {
    let mut c = SampleClock::new(44100);
    c.advance(256);
    c.advance(256);
    c.advance(100);
    assert_eq!(c.samples(), 612);
    assert_eq!(c.sample_rate(), 44100);
}

#[test]
fn clock_default_is_zero() {
    let c = SampleClock::default();
    assert_eq!(c.samples(), 0);
    assert_eq!(c.sample_rate(), 0);
}
