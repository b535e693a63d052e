use rustbof::output::{
    error_write, error_write_line, BeaconWriter, CALLBACK_CUSTOM, CALLBACK_CUSTOM_LAST,
    CALLBACK_ERROR, CALLBACK_OUTPUT, CALLBACK_OUTPUT_OEM, CALLBACK_OUTPUT_UTF8,
};

#[test]
fn callback_kind_values() {
    assert_eq!(CALLBACK_OUTPUT, 0x00);
    assert_eq!(CALLBACK_OUTPUT_OEM, 0x1E);
    assert_eq!(CALLBACK_OUTPUT_UTF8, 0x20);
    assert_eq!(CALLBACK_ERROR, 0x0D);
    assert_eq!(CALLBACK_CUSTOM, 0x1000);
    assert_eq!(CALLBACK_CUSTOM_LAST, 0x13FF);
}

#[test]
fn flush_on_empty_buffer_makes_no_host_call() {
    let mut w = BeaconWriter::new();
    assert!(w.flush(CALLBACK_OUTPUT_UTF8).is_none());
}

#[test]
fn flush_delivers_whole_payload_once_and_empties_the_buffer() {
    let mut w = BeaconWriter::new();
    w.write("abc");
    let out = w.flush(CALLBACK_OUTPUT_UTF8).expect("one host call");
    assert_eq!(out.kind, CALLBACK_OUTPUT_UTF8);
    assert_eq!(out.data, b"abc".to_vec());
    assert!(w.flush(CALLBACK_OUTPUT_UTF8).is_none());
}

#[test]
fn two_writes_one_flush_one_payload() {
    let mut w = BeaconWriter::new();
    w.write("a");
    w.write("b");
    let out = w.flush(CALLBACK_OUTPUT_UTF8).expect("one host call");
    assert_eq!(out.kind, CALLBACK_OUTPUT_UTF8);
    assert_eq!(out.data, b"ab".to_vec());
    assert!(w.flush(CALLBACK_OUTPUT_UTF8).is_none());
}

#[test]
fn write_line_appends_a_newline() {
    let mut w = BeaconWriter::new();
    w.write_line("x");
    w.write("y");
    let out = w.flush(CALLBACK_OUTPUT).expect("one host call");
    assert_eq!(out.data, b"x\ny".to_vec());
}

#[test]
fn error_write_line_is_eager_and_leaves_ordinary_output_alone() {
    let mut w = BeaconWriter::new();
    w.write("keep");

    let err = error_write_line("x");
    assert_eq!(err.kind, CALLBACK_ERROR);
    assert_eq!(err.data, b"x\n".to_vec());

    let out = w.flush(CALLBACK_OUTPUT_UTF8).expect("ordinary output intact");
    assert_eq!(out.data, b"keep".to_vec());
}

#[test]
fn error_write_skips_the_host_call_for_empty_text() {
    assert!(error_write("").is_none());
    let err = error_write("boom").expect("one host call");
    assert_eq!(err.kind, CALLBACK_ERROR);
    assert_eq!(err.data, b"boom".to_vec());
}

#[test]
fn flush_passes_custom_kinds_through() {
    let mut w = BeaconWriter::new();
    w.write("c");
    let out = w.flush(CALLBACK_CUSTOM + 5).expect("one host call");
    assert_eq!(out.kind, 0x1005);
    assert_eq!(out.data, b"c".to_vec());
}

#[test]
fn non_ascii_text_is_delivered_as_utf8_bytes() {
    let mut w = BeaconWriter::new();
    w.write("héllo");
    let out = w.flush(CALLBACK_OUTPUT_UTF8).expect("one host call");
    assert_eq!(out.data, "héllo".as_bytes().to_vec());
}
