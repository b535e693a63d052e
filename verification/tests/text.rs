use rustbof::strings::{from_cstr, from_wide, to_cstr, to_wide};

#[test]
fn to_cstr_appends_a_terminator() {
    assert_eq!(to_cstr("abc"), vec![b'a', b'b', b'c', 0]);
    assert_eq!(to_cstr(""), vec![0]);
}

#[test]
fn to_cstr_truncates_at_an_interior_zero() {
    assert_eq!(to_cstr("a\0b"), vec![b'a', 0]);
}

#[test]
fn from_cstr_reads_up_to_the_terminator() {
    assert_eq!(from_cstr(&[104, 105, 0, 120]), "hi".to_string());
    assert_eq!(from_cstr(&[104, 105, 0]), "hi".to_string());
}

#[test]
fn from_cstr_without_a_terminator_degrades_to_empty() {
    assert_eq!(from_cstr(&[104, 105]), String::new());
    assert_eq!(from_cstr(&[]), String::new());
}

#[test]
fn from_cstr_handles_negative_byte_values() {
    // 0xC3 0xA9 is the UTF-8 form of 'é'; as signed bytes those are negative.
    assert_eq!(from_cstr(&[-61, -87, 0]), "é".to_string());
}

#[test]
fn from_cstr_invalid_utf8_degrades_to_empty() {
    assert_eq!(from_cstr(&[-1, -2]), String::new());
}

#[test]
fn to_wide_encodes_utf16_with_a_terminator() {
    assert_eq!(to_wide("A"), vec![65, 0]);
    assert_eq!(to_wide(""), vec![0]);
    assert_eq!(to_wide("π"), vec![0x03C0, 0]);
    // U+1F600 needs a surrogate pair.
    assert_eq!(to_wide("\u{1F600}"), vec![0xD83D, 0xDE00, 0]);
}

#[test]
fn from_wide_reads_up_to_the_terminator() {
    assert_eq!(from_wide(&[72, 105, 0, 33]), "Hi".to_string());
    assert_eq!(from_wide(&[]), String::new());
    assert_eq!(from_wide(&[0x03C0]), "π".to_string());
}

#[test]
fn from_wide_decodes_surrogate_pairs() {
    assert_eq!(from_wide(&[0xD83D, 0xDE00, 0]), "\u{1F600}".to_string());
}

#[test]
fn from_wide_replaces_lone_surrogates() {
    assert_eq!(from_wide(&[0xD800, 65]), "\u{FFFD}A".to_string());
}
