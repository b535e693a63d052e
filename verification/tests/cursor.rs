use rustbof::codec::{pack_bytes, pack_int, pack_short};
use rustbof::data::DataParser;

#[test]
fn end_to_end_int_short_blob() {
    let mut buf: Vec<u8> = Vec::new();
    pack_int(&mut buf, 7);
    pack_short(&mut buf, 3);
    pack_bytes(&mut buf, b"hello");

    let mut p = DataParser::new(buf);
    assert_eq!(p.get_int(), 7);
    assert_eq!(p.get_short(), 3);
    assert_eq!(p.get_bytes(), b"hello".to_vec());
    assert_eq!(p.remaining(), 0);
}

#[test]
fn little_endian_layout() {
    let mut buf: Vec<u8> = Vec::new();
    pack_int(&mut buf, 7);
    assert_eq!(buf, vec![7, 0, 0, 0]);

    let mut buf: Vec<u8> = Vec::new();
    pack_short(&mut buf, 3);
    assert_eq!(buf, vec![3, 0]);

    let mut buf: Vec<u8> = Vec::new();
    pack_bytes(&mut buf, b"hello");
    assert_eq!(buf, vec![5, 0, 0, 0, b'h', b'e', b'l', b'l', b'o']);

    let mut buf: Vec<u8> = Vec::new();
    pack_int(&mut buf, 0x0102_0304);
    assert_eq!(buf, vec![4, 3, 2, 1]);
}

#[test]
fn remaining_decreases_by_exact_width() {
    let mut buf: Vec<u8> = Vec::new();
    pack_int(&mut buf, 1);
    pack_short(&mut buf, 2);
    pack_bytes(&mut buf, b"hello");

    let mut p = DataParser::new(buf);
    assert_eq!(p.remaining(), 15);
    p.get_int();
    assert_eq!(p.remaining(), 11);
    p.get_short();
    assert_eq!(p.remaining(), 9);
    p.get_bytes();
    assert_eq!(p.remaining(), 0);
}

#[test]
fn exhausted_cursor_returns_zero_and_empty() {
    let mut p = DataParser::new(Vec::new());
    assert_eq!(p.remaining(), 0);
    assert_eq!(p.get_int(), 0);
    assert_eq!(p.get_short(), 0);
    assert_eq!(p.get_bytes(), Vec::<u8>::new());
    assert_eq!(p.get_str(), String::new());
    assert_eq!(p.get_ptr(1), Vec::<u8>::new());
    assert_eq!(p.remaining(), 0);
}

#[test]
fn short_buffer_consumes_nothing() {
    let mut p = DataParser::new(vec![1, 2, 3]);
    assert_eq!(p.get_int(), 0);
    assert_eq!(p.remaining(), 3);

    let mut p = DataParser::new(vec![9]);
    assert_eq!(p.get_short(), 0);
    assert_eq!(p.remaining(), 1);
}

#[test]
fn negative_values_round_trip() {
    let mut buf: Vec<u8> = Vec::new();
    pack_int(&mut buf, -123_456);
    pack_short(&mut buf, -5);
    pack_int(&mut buf, i32::MIN);
    pack_short(&mut buf, i16::MIN);

    let mut p = DataParser::new(buf);
    assert_eq!(p.get_int(), -123_456);
    assert_eq!(p.get_short(), -5);
    assert_eq!(p.get_int(), i32::MIN);
    assert_eq!(p.get_short(), i16::MIN);
    assert_eq!(p.remaining(), 0);
}

#[test]
fn blob_prefix_longer_than_buffer_yields_empty() {
    let mut buf: Vec<u8> = Vec::new();
    pack_int(&mut buf, 100);
    let mut p = DataParser::new(buf);
    assert_eq!(p.get_bytes(), Vec::<u8>::new());
    assert_eq!(p.remaining(), 4);
}

#[test]
fn negative_blob_prefix_yields_empty() {
    let mut buf: Vec<u8> = Vec::new();
    pack_int(&mut buf, -1);
    let mut p = DataParser::new(buf);
    assert_eq!(p.get_bytes(), Vec::<u8>::new());
    assert_eq!(p.remaining(), 4);
}

#[test]
fn empty_blob_round_trip() {
    let mut buf: Vec<u8> = Vec::new();
    pack_bytes(&mut buf, b"");
    let mut p = DataParser::new(buf);
    assert_eq!(p.get_bytes(), Vec::<u8>::new());
    assert_eq!(p.remaining(), 0);
}

#[test]
fn get_ptr_is_a_bounded_view() {
    let mut p = DataParser::new(vec![1, 2, 3, 4, 5]);
    assert_eq!(p.get_ptr(2), vec![1, 2]);
    assert_eq!(p.remaining(), 3);
    assert_eq!(p.get_ptr(9), Vec::<u8>::new());
    assert_eq!(p.remaining(), 3);
    assert_eq!(p.get_ptr(3), vec![3, 4, 5]);
    assert_eq!(p.remaining(), 0);
}

#[test]
fn get_str_cuts_at_first_zero_byte() {
    let mut buf: Vec<u8> = Vec::new();
    pack_bytes(&mut buf, b"hi\0there");
    let mut p = DataParser::new(buf);
    assert_eq!(p.get_str(), "hi".to_string());
    assert_eq!(p.remaining(), 0);
}

#[test]
fn get_str_invalid_utf8_degrades_to_empty() {
    let mut buf: Vec<u8> = Vec::new();
    pack_bytes(&mut buf, &[0xFF, 0xFE, 0x41]);
    let mut p = DataParser::new(buf);
    assert_eq!(p.get_str(), String::new());
    assert_eq!(p.remaining(), 0);
}

#[test]
fn get_bytes_keeps_interior_zero_bytes() {
    let mut buf: Vec<u8> = Vec::new();
    pack_bytes(&mut buf, b"hi\0there");
    let mut p = DataParser::new(buf);
    assert_eq!(p.get_bytes(), b"hi\0there".to_vec());
}

#[test]
fn decoding_order_is_the_serialization_order() {
    let mut buf: Vec<u8> = Vec::new();
    pack_bytes(&mut buf, b"first");
    pack_int(&mut buf, 42);
    pack_bytes(&mut buf, b"second");
    pack_short(&mut buf, -7);

    let mut p = DataParser::new(buf);
    assert_eq!(p.get_str(), "first".to_string());
    assert_eq!(p.get_int(), 42);
    assert_eq!(p.get_bytes(), b"second".to_vec());
    assert_eq!(p.get_short(), -7);
    assert_eq!(p.remaining(), 0);
}
