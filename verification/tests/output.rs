use pi_natives::shell::output::{decode_available, decode_step, Step, Utf8Fault};
use pi_natives::shell::{append_replacing_quotes, source_command};

const R: &str = "\u{FFFD}";

fn decoded(bytes: &[u8]) -> (Vec<String>, usize) {
    let (pieces, consumed) = decode_available(bytes);
    (pieces.into_iter().map(String::from).collect(), consumed)
}

fn pieces(items: &[&str]) -> Vec<String> {
    items.iter().map(|s| s.to_string()).collect()
}

#[test]
fn valid_bytes_are_one_piece_of_text() {
    assert_eq!(decoded(b"hello"), (pieces(&["hello"]), 5));
    assert_eq!(decoded("h\u{e9}llo \u{1f600}".as_bytes()), (pieces(&["h\u{e9}llo \u{1f600}"]), 11));
    assert_eq!(decoded(b"\x00"), (pieces(&["\0"]), 1));
}

#[test]
fn no_bytes_give_no_piece() {
    assert_eq!(decoded(b""), (pieces(&[]), 0));
}

#[test]
fn an_invalid_byte_is_replaced_and_decoding_goes_on() {
    assert_eq!(decoded(b"a\xffb"), (pieces(&["a", R, "b"]), 3));
    assert_eq!(decoded(b"\xffb"), (pieces(&[R, "b"]), 2));
    assert_eq!(decoded(b"a\xff"), (pieces(&["a", R]), 2));
    assert_eq!(decoded(b"\xff"), (pieces(&[R]), 1));
    assert_eq!(decoded(b"\xff\xfe"), (pieces(&[R, R]), 2));
    assert_eq!(decoded(b"a\x80\x80b"), (pieces(&["a", R, R, "b"]), 4));
}

#[test]
fn a_broken_sequence_is_replaced_once() {
    // The first two bytes of a character of three, then a byte that cannot follow.
    assert_eq!(decoded(b"\xe2\x82a"), (pieces(&[R, "a"]), 3));
    // An overlong form: the lead byte alone is invalid, and so is what follows.
    assert_eq!(decoded(b"\xc0\xafz"), (pieces(&[R, R, "z"]), 3));
    // A surrogate in UTF-8 clothes.
    assert_eq!(decoded(b"\xed\xa0\x80z"), (pieces(&[R, R, R, "z"]), 4));
}

#[test]
fn an_incomplete_character_at_the_end_is_kept() {
    let euro = "\u{20ac}".as_bytes(); // e2 82 ac
    assert_eq!(decoded(&euro[..1]), (pieces(&[]), 0));
    assert_eq!(decoded(&euro[..2]), (pieces(&[]), 0));
    assert_eq!(decoded(euro), (pieces(&["\u{20ac}"]), 3));
    let mut bytes = b"ab".to_vec();
    bytes.extend_from_slice(&euro[..2]);
    assert_eq!(decoded(&bytes), (pieces(&["ab"]), 2));
    let face = "\u{1f600}".as_bytes(); // f0 9f 98 80
    assert_eq!(decoded(&face[..3]), (pieces(&[]), 0));
    let mut bytes = b"a\xffb".to_vec();
    bytes.extend_from_slice(&face[..3]);
    assert_eq!(decoded(&bytes), (pieces(&["a", R, "b"]), 3));
}

#[test]
fn reads_that_split_characters_decode_like_the_whole() {
    let text = "a\u{e9}\u{20ac}\u{1f600}z\u{4e2d}\u{6587}";
    let mut stream = text.as_bytes().to_vec();
    stream.extend_from_slice(b"\xff\xe2\x82");
    stream.extend_from_slice("ok".as_bytes());
    for size in 1..=7usize {
        let mut pending: Vec<u8> = Vec::new();
        let mut out = String::new();
        for read in stream.chunks(size) {
            pending.extend_from_slice(read);
            let (pieces, consumed) = decode_available(&pending);
            for piece in pieces {
                out.push_str(piece);
            }
            assert!(pending.len() - consumed <= 3);
            pending.drain(..consumed);
        }
        assert!(pending.is_empty());
        assert_eq!(out, String::from_utf8_lossy(&stream));
    }
}

#[test]
fn every_pair_of_bytes_decodes_like_the_lossy_decoder() {
    for a in 0u8..=255 {
        for b in 0u8..=255 {
            let bytes = [a, b, b'!'];
            let (pieces, consumed) = decode_available(&bytes);
            assert_eq!(consumed, 3);
            assert_eq!(pieces.concat(), String::from_utf8_lossy(&bytes));
        }
    }
}

#[test]
fn decode_step_by_reading() {
    assert_eq!(
        decode_step(7, None),
        Step { text_len: 7, replace: false, consumed: 7, again: false }
    );
    assert_eq!(
        decode_step(7, Some(Utf8Fault { valid_up_to: 4, error_len: Some(2) })),
        Step { text_len: 4, replace: true, consumed: 6, again: true }
    );
    assert_eq!(
        decode_step(7, Some(Utf8Fault { valid_up_to: 0, error_len: Some(1) })),
        Step { text_len: 0, replace: true, consumed: 1, again: true }
    );
    assert_eq!(
        decode_step(7, Some(Utf8Fault { valid_up_to: 5, error_len: None })),
        Step { text_len: 5, replace: false, consumed: 5, again: false }
    );
    assert_eq!(
        decode_step(0, None),
        Step { text_len: 0, replace: false, consumed: 0, again: false }
    );
}

#[test]
fn source_command_quotes_the_path() {
    assert_eq!(source_command("/tmp/snap.sh"), "source '/tmp/snap.sh'");
    assert_eq!(source_command(""), "source ''");
    assert_eq!(source_command("/tmp/it's here"), "source '/tmp/it'\\''s here'");
    assert_eq!(source_command("'"), "source ''\\'''");
    for path in ["a'b'c", "''", "\u{e9}'", "plain"] {
        let escaped = path.replace('\'', "'\\''");
        assert_eq!(source_command(path), format!("source '{escaped}'"));
    }
}

#[test]
fn append_replacing_quotes_keeps_what_was_there() {
    let mut out = "x=".to_string();
    append_replacing_quotes(&mut out, "a'b", "<q>");
    assert_eq!(out, "x=a<q>b");
    append_replacing_quotes(&mut out, "", "<q>");
    assert_eq!(out, "x=a<q>b");
    append_replacing_quotes(&mut out, "''", "");
    assert_eq!(out, "x=a<q>b");
    append_replacing_quotes(&mut out, "'z'", "'");
    assert_eq!(out, "x=a<q>b'z'");
}
