use bellow::sound_id::{push_decimal, sound_id};

#[test]
fn ids_are_decimal() {
    assert_eq!(sound_id(0), "sound-0");
    assert_eq!(sound_id(9), "sound-9");
    assert_eq!(sound_id(10), "sound-10");
    assert_eq!(sound_id(1234567890), "sound-1234567890");
    assert_eq!(sound_id(u64::MAX), format!("sound-{}", u64::MAX));
}

#[test]
fn push_decimal_appends() {
    let mut s = String::from("n=");
    push_decimal(&mut s, 405);
    assert_eq!(s, "n=405");
}
