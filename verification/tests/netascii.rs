//! Line ends on the wire and on disk.
use aitftp::netascii::{FromWire, ToWire};

fn to_wire(s: &[u8]) -> Vec<u8> {
    let mut e = ToWire::new();
    let mut out = Vec::new();
    e.translate(s, &mut out);
    out
}

fn from_wire(chunks: &[&[u8]]) -> Vec<u8> {
    let mut d = FromWire::new();
    let mut out = Vec::new();
    for c in chunks {
        d.translate(c, &mut out);
    }
    d.finish(&mut out);
    out
}

#[test]
fn lf_becomes_crlf() {
    assert_eq!(to_wire(b"a\nb\n"), b"a\r\nb\r\n");
}

#[test]
fn cr_becomes_cr_nul() {
    assert_eq!(to_wire(b"a\rb"), b"a\r\0b");
}

#[test]
fn crlf_becomes_lf() {
    assert_eq!(from_wire(&[b"a\r\nb\r\n"]), b"a\nb\n");
}

#[test]
fn cr_nul_becomes_cr() {
    assert_eq!(from_wire(&[b"a\r\0b"]), b"a\rb");
}

#[test]
fn split_across_blocks() {
    // CR at end of one chunk, LF at start of next.
    assert_eq!(from_wire(&[b"abc\r", b"\ndef"]), b"abc\ndef");
    // CR at end of one chunk, NUL at start of next.
    assert_eq!(from_wire(&[b"abc\r", b"\0def"]), b"abc\rdef");
}

#[test]
fn trailing_cr_is_flushed() {
    assert_eq!(from_wire(&[b"abc\r"]), b"abc\r");
}

#[test]
fn lone_cr_is_kept() {
    assert_eq!(from_wire(&[b"a\rb"]), b"a\rb");
    assert_eq!(from_wire(&[b"a\r\rb"]), b"a\r\rb");
}

#[test]
fn encoding_appends_and_counts() {
    let mut out = b"x".to_vec();
    assert_eq!(ToWire::default().translate(b"\n\r", &mut out), 2);
    assert_eq!(out, b"x\r\n\r\0");
}

#[test]
fn encoding_then_decoding_gives_the_text_back() {
    let text: Vec<u8> = (0..=255).chain([13, 13, 10, 0, 13]).collect();
    let wire = to_wire(&text);
    assert_eq!(from_wire(&[&wire]), text);
    for cut in 0..wire.len() {
        assert_eq!(from_wire(&[&wire[..cut], &wire[cut..]]), text);
    }
}

#[test]
fn encoding_does_not_depend_on_cuts() {
    let text = b"one\ntwo\r\nthree\r";
    for cut in 0..text.len() {
        let mut pieces = to_wire(&text[..cut]);
        pieces.extend(to_wire(&text[cut..]));
        assert_eq!(pieces, to_wire(text));
    }
}
