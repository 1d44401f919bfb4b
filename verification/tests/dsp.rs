use bellow::dsp::{BypassNode, EqBandKind};

#[test]
fn bypass_copies() {
    let node = BypassNode;
    let input = [0.25f32, -0.5, 1.0];
    let mut output = [0.0f32; 3];
    node.pass_through(&input, &mut output);
    assert_eq!(output, input);
    assert_eq!(node.name(), "bypass");
}

#[test]
fn band_kinds_compare() {
    assert_eq!(EqBandKind::Notch, EqBandKind::Notch);
    assert_ne!(EqBandKind::Peak, EqBandKind::BandPass);
}
