use pi_natives::keys::matcher::{matches_token, KeyToken};
use pi_natives::keys::{matches_key, matches_key_inner};

fn hit(bytes: &[u8], spec: &str, kitty: bool) -> bool {
    matches_key_inner(bytes, spec, kitty)
}

fn either(bytes: &[u8], spec: &str) -> bool {
    let a = hit(bytes, spec, false);
    let b = hit(bytes, spec, true);
    assert_eq!(a, b, "the protocol flag changed the answer for {:?} and {:?}", bytes, spec);
    a
}

#[test]
fn matches_key_kitty_ctrl_a() {
    assert!(matches_key("\x1b[97;5u".to_string(), "ctrl+a".to_string(), true));
    assert!(matches_key("\x1b[97;5u".to_string(), "ctrl+A".to_string(), true));
    // Key code 65 is the capital letter: without a base-layout key it is no `a`.
    assert!(!matches_key("\x1b[65;5u".to_string(), "ctrl+a".to_string(), true));
    assert!(matches_key("\x1b[65::97;5u".to_string(), "ctrl+a".to_string(), true));
}

#[test]
fn matches_key_alt_backspace_under_the_kitty_protocol() {
    assert!(matches_key("\x1b\x7f".to_string(), "alt+backspace".to_string(), true));
    assert!(matches_key("\x1b\x7f".to_string(), "alt+backspace".to_string(), false));
    assert!(matches_key("\x1b\x08".to_string(), "alt+backspace".to_string(), true));
}

#[test]
fn matches_key_shift_tab_legacy() {
    assert!(matches_key("\x1b[Z".to_string(), "shift+tab".to_string(), false));
    assert!(matches_key("\x1b[Z".to_string(), "shift+tab".to_string(), true));
    assert!(!matches_key("\x1b[Z".to_string(), "tab".to_string(), false));
}

#[test]
fn matches_key_specification_without_a_key_matches_nothing() {
    for bytes in [&b""[..], b"a", b"\x1b", b"\x1b[97;5u", b"\x00"] {
        for spec in ["", "  ", "ctrl", "ctrl+shift", "ctrl+", "nosuchkey", "ctrl+f13", "ab"] {
            assert!(!either(bytes, spec));
        }
    }
}

#[test]
fn matches_key_empty_input_matches_nothing() {
    for spec in ["a", "ctrl+a", "escape", "space", "tab", "enter", "up", "f1", "ctrl+space", "+"] {
        assert!(!either(b"", spec));
    }
}

#[test]
fn escape_takes_no_modifier() {
    assert!(either(b"\x1b", "escape"));
    assert!(either(b"\x1b", "esc"));
    assert!(either(b"\x1b", "ESC"));
    assert!(either(b"\x1b[27u", "escape"));
    assert!(either(b"\x1b[27;1u", "escape"));
    assert!(either(b"\x1b[27;65u", "escape"));
    assert!(!either(b"\x1b[27;5u", "escape"));
    assert!(!either(b"\x1b[27;5u", "ctrl+escape"));
    assert!(!either(b"\x1b", "ctrl+escape"));
    assert!(!either(b"\x1b", "shift+esc"));
    assert!(!either(b"\x1b\x1b", "alt+escape"));
}

#[test]
fn space_and_its_legacy_forms() {
    assert!(either(b" ", "space"));
    assert!(either(b"\x1b[32u", "space"));
    assert!(!either(b"\x1b[27;1;32~", "space"));
    assert!(either(b"\x00", "ctrl+space"));
    assert!(either(b"\x1b[32;5u", "ctrl+space"));
    assert!(either(b"\x1b[27;5;32~", "ctrl+space"));
    assert!(!either(b"\x00", "space"));
    assert!(!either(b"\x00", "ctrl+shift+space"));
    assert!(hit(b"\x1b ", "alt+space", false));
    assert!(!hit(b"\x1b ", "alt+space", true));
    assert!(either(b"\x1b[32;3u", "alt+space"));
    assert!(either(b"\x1b[32;2u", "shift+space"));
    assert!(!either(b" ", "shift+space"));
}

#[test]
fn tab_and_its_legacy_forms() {
    assert!(either(b"\t", "tab"));
    assert!(either(b"\x1b[9u", "tab"));
    assert!(either(b"\x1b[Z", "shift+tab"));
    assert!(either(b"\x1b[9;2u", "shift+tab"));
    assert!(either(b"\x1b[27;2;9~", "shift+tab"));
    assert!(either(b"\x1b\t", "alt+tab"));
    assert!(either(b"\x1b[9;3u", "alt+tab"));
    assert!(either(b"\x1b[27;3;9~", "alt+tab"));
    assert!(either(b"\x1b[9;5u", "ctrl+tab"));
    assert!(either(b"\x1b[27;5;9~", "ctrl+tab"));
    assert!(!either(b"\t", "ctrl+tab"));
    assert!(!either(b"\t", "shift+tab"));
    assert!(!either(b"\x1b\t", "tab"));
    assert!(!either(b"\x1b\t", "shift+alt+tab"));
    assert!(!either(b"\x1b[Z", "ctrl+shift+tab"));
    assert!(either(b"\x1b[9;6u", "ctrl+shift+tab"));
}

#[test]
fn enter_and_its_legacy_forms() {
    assert!(either(b"\r", "enter"));
    assert!(either(b"\n", "enter"));
    assert!(either(b"\r", "return"));
    assert!(either(b"\x1bOM", "enter"));
    assert!(either(b"\x1b[13u", "enter"));
    assert!(either(b"\x1b[57414u", "enter"));
    assert!(either(b"\x1b\r", "alt+enter"));
    assert!(!either(b"\x1b\n", "alt+enter"));
    assert!(either(b"\x1b[13;3u", "alt+enter"));
    assert!(either(b"\x1b[57414;3u", "alt+enter"));
    assert!(either(b"\x1b[27;3;13~", "alt+enter"));
    assert!(either(b"\x1b[27;5;57414~", "ctrl+enter"));
    assert!(either(b"\x1b[13;2u", "shift+enter"));
    assert!(!either(b"\r", "shift+enter"));
    assert!(!either(b"\x1bOM", "ctrl+enter"));
    assert!(!either(b"\x1b[27;1;13~", "enter"));
}

#[test]
fn backspace_and_its_legacy_forms() {
    assert!(either(b"\x7f", "backspace"));
    assert!(either(b"\x08", "backspace"));
    assert!(either(b"\x1b[127u", "backspace"));
    assert!(either(b"\x1b\x7f", "alt+backspace"));
    assert!(either(b"\x1b\x08", "alt+backspace"));
    assert!(either(b"\x1b[127;3u", "alt+backspace"));
    assert!(either(b"\x1b[27;3;127~", "alt+backspace"));
    assert!(either(b"\x1b[127;5u", "ctrl+backspace"));
    assert!(either(b"\x1b[27;5;127~", "ctrl+backspace"));
    assert!(!either(b"\x08", "ctrl+backspace"));
    assert!(!either(b"\x7f", "alt+backspace"));
    assert!(!either(b"\x1b\x7f", "backspace"));
    assert!(!either(b"\x1b\x7f", "ctrl+alt+backspace"));
    assert!(!either(b"\x1b[8u", "backspace"));
}

#[test]
fn editing_keys_without_modifiers() {
    assert!(either(b"\x1b[2~", "insert"));
    assert!(either(b"\x1b[3~", "delete"));
    assert!(either(b"\x1b[E", "clear"));
    assert!(either(b"\x1bOE", "clear"));
    assert!(either(b"\x1b[H", "home"));
    assert!(either(b"\x1bOH", "home"));
    assert!(either(b"\x1b[1~", "home"));
    assert!(either(b"\x1b[7~", "home"));
    assert!(either(b"\x1b[F", "end"));
    assert!(either(b"\x1b[4~", "end"));
    assert!(either(b"\x1b[8~", "end"));
    assert!(either(b"\x1b[5~", "pageup"));
    assert!(either(b"\x1b[5~", "pageUp"));
    assert!(either(b"\x1b[[5~", "PAGEUP"));
    assert!(either(b"\x1b[6~", "pagedown"));
    assert!(either(b"\x1b[[6~", "pageDown"));
    assert!(either(b"\x1b[1;1H", "home"));
    assert!(either(b"\x1b[3;1~", "delete"));
    assert!(!either(b"\x1b[3~", "insert"));
    assert!(!either(b"\x1b[3$", "delete"));
    assert!(!either(b"\x1b[3;5~", "delete"));
}

#[test]
fn editing_keys_with_modifiers() {
    assert!(either(b"\x1b[2$", "shift+insert"));
    assert!(either(b"\x1b[2^", "ctrl+insert"));
    assert!(either(b"\x1b[3$", "shift+delete"));
    assert!(either(b"\x1b[3^", "ctrl+delete"));
    assert!(either(b"\x1b[3;5~", "ctrl+delete"));
    assert!(either(b"\x1b[3;3~", "alt+delete"));
    assert!(either(b"\x1b[3;8~", "ctrl+alt+shift+delete"));
    assert!(either(b"\x1b[5$", "shift+pageup"));
    assert!(either(b"\x1b[6^", "ctrl+pagedown"));
    assert!(either(b"\x1b[7$", "shift+home"));
    assert!(either(b"\x1b[8^", "ctrl+end"));
    assert!(either(b"\x1b[e", "shift+clear"));
    assert!(either(b"\x1bOe", "ctrl+clear"));
    assert!(either(b"\x1b[1;2H", "shift+home"));
    assert!(either(b"\x1b[1;6F", "ctrl+shift+end"));
    assert!(either(b"\x1b[1;5E", "ctrl+clear"));
    assert!(!either(b"\x1b[3^", "shift+delete"));
    assert!(!either(b"\x1b[3$", "ctrl+shift+delete"));
    assert!(!either(b"\x1b[3~", "ctrl+delete"));
}

#[test]
fn up_and_down() {
    assert!(either(b"\x1b[A", "up"));
    assert!(either(b"\x1bOA", "up"));
    assert!(either(b"\x1b[1;1A", "up"));
    assert!(either(b"\x1b[B", "down"));
    assert!(either(b"\x1bOB", "down"));
    assert!(either(b"\x1b[a", "shift+up"));
    assert!(either(b"\x1bOa", "ctrl+up"));
    assert!(either(b"\x1b[b", "shift+down"));
    assert!(either(b"\x1bOb", "ctrl+down"));
    assert!(either(b"\x1b[1;2A", "shift+up"));
    assert!(either(b"\x1b[1;5B", "ctrl+down"));
    assert!(either(b"\x1bp", "alt+up"));
    assert!(either(b"\x1bn", "alt+down"));
    assert!(either(b"\x1b[1;3A", "alt+up"));
    assert!(either(b"\x1b[1;3B", "alt+down"));
    assert!(either(b"\x1b[1;7A", "ctrl+alt+up"));
    assert!(!either(b"\x1bn", "alt+up"));
    assert!(!either(b"\x1bp", "up"));
    assert!(!either(b"\x1bp", "shift+alt+up"));
    assert!(!either(b"\x1b[A", "alt+up"));
    assert!(!either(b"\x1b[A", "down"));
}

#[test]
fn left_and_right() {
    assert!(either(b"\x1b[D", "left"));
    assert!(either(b"\x1bOD", "left"));
    assert!(either(b"\x1b[C", "right"));
    assert!(either(b"\x1bOC", "right"));
    assert!(either(b"\x1b[1;3D", "alt+left"));
    assert!(either(b"\x1b[1;3C", "alt+right"));
    assert!(either(b"\x1bb", "alt+left"));
    assert!(either(b"\x1bf", "alt+right"));
    assert!(hit(b"\x1bB", "alt+left", false));
    assert!(!hit(b"\x1bB", "alt+left", true));
    assert!(hit(b"\x1bF", "alt+right", false));
    assert!(!hit(b"\x1bF", "alt+right", true));
    assert!(either(b"\x1b[1;5D", "ctrl+left"));
    assert!(either(b"\x1b[1;5C", "ctrl+right"));
    assert!(either(b"\x1bOd", "ctrl+left"));
    assert!(either(b"\x1bOc", "ctrl+right"));
    assert!(either(b"\x1b[d", "shift+left"));
    assert!(either(b"\x1b[c", "shift+right"));
    assert!(either(b"\x1b[1;4D", "shift+alt+left"));
    assert!(either(b"\x1b[1;3:1D", "alt+left"));
    assert!(either(b"\x1b[1;67D", "alt+left"));
    assert!(!either(b"\x1bb", "alt+right"));
    assert!(!either(b"\x1b[1;3D", "alt+right"));
    assert!(!either(b"\x1b[1;3D", "ctrl+left"));
    assert!(!either(b"\x1b[1;5D", "left"));
    assert!(!either(b"\x1bb", "left"));
}

#[test]
fn function_keys() {
    assert!(either(b"\x1bOP", "f1"));
    assert!(either(b"\x1b[11~", "f1"));
    assert!(either(b"\x1b[[A", "f1"));
    assert!(either(b"\x1bOP", "F1"));
    assert!(either(b"\x1b[15~", "f5"));
    assert!(either(b"\x1b[[E", "f5"));
    assert!(either(b"\x1b[24~", "f12"));
    assert!(either(b"\x1b[24~", "F12"));
    assert!(either(b"\x1b[1;5P", "ctrl+f1"));
    assert!(either(b"\x1b[15;2~", "shift+f5"));
    assert!(either(b"\x1b[24;3~", "alt+f12"));
    assert!(either(b"\x1b[1;2S", "shift+F4"));
    assert!(!either(b"\x1bOP", "f2"));
    assert!(!either(b"\x1bOP", "ctrl+f1"));
    // Without a modifier only the legacy sequences count.
    assert!(!either(b"\x1b[1;1P", "f1"));
    assert!(!either(b"\x1b[15;1~", "f5"));
}

#[test]
fn plain_characters() {
    assert!(either(b"a", "a"));
    assert!(either(b"a", "A"));
    assert!(either(b"\x1b[97u", "a"));
    assert!(either(b"\x1b[97;1u", "a"));
    assert!(either(b"1", "1"));
    assert!(either(b"/", "/"));
    assert!(either(b"+", "+"));
    assert!(either(b"+", "plus"));
    assert!(either(b"~", "~"));
    assert!(!either(b"A", "a"));
    assert!(!either(b"A", "A"));
    assert!(!either(b"b", "a"));
    assert!(!either(b"aa", "a"));
    assert!(!either(b"\x1b[27;1;97~", "a"));
    assert!(either(b"\x1b[1089::97u", "a"));
}

#[test]
fn ctrl_with_letters_and_symbols() {
    assert!(either(b"\x01", "ctrl+a"));
    assert!(either(b"\x01", "ctrl+A"));
    assert!(either(b"\x1a", "ctrl+z"));
    assert!(either(b"\x03", "ctrl+c"));
    assert!(either(b"\x1b[99;5u", "ctrl+c"));
    assert!(either(b"\x1b[27;5;99~", "ctrl+c"));
    assert!(either(b"\x1b[1089::99;5u", "ctrl+c"));
    assert!(either(b"\x00", "ctrl+@"));
    assert!(either(b"\x1b", "ctrl+["));
    assert!(either(b"\x1c", "ctrl+\\"));
    assert!(either(b"\x1d", "ctrl+]"));
    assert!(either(b"\x1e", "ctrl+^"));
    assert!(either(b"\x1f", "ctrl+_"));
    assert!(either(b"\x1f", "ctrl+-"));
    assert!(either(b"\x1b[45;5u", "ctrl+-"));
    assert!(either(b"\x1b[27;5;47~", "ctrl+/"));
    assert!(!either(b"\x1f", "ctrl+/"));
    assert!(!either(b"\x01", "ctrl+b"));
    assert!(!either(b"\x01", "a"));
    assert!(!either(b"\x01", "ctrl+shift+a"));
    assert!(!either(b"a", "ctrl+a"));
}

#[test]
fn shift_with_characters() {
    assert!(either(b"A", "shift+a"));
    assert!(either(b"A", "shift+A"));
    assert!(either(b"\x1b[97;2u", "shift+a"));
    assert!(either(b"\x1b[27;2;97~", "shift+a"));
    assert!(either(b"\x1b[49;2u", "shift+1"));
    assert!(!either(b"a", "shift+a"));
    assert!(!either(b"!", "shift+1"));
    assert!(!either(b"\x11", "shift+1"));
    assert!(either(b"\x1b[97;6u", "ctrl+shift+a"));
    assert!(either(b"\x1b[27;6;97~", "ctrl+shift+a"));
    assert!(!either(b"\x01", "ctrl+shift+a"));
    assert!(!either(b"A", "ctrl+shift+a"));
}

#[test]
fn alt_with_letters_depends_on_the_protocol() {
    assert!(hit(b"\x1ba", "alt+a", false));
    assert!(!hit(b"\x1ba", "alt+a", true));
    assert!(hit(b"\x1bz", "alt+Z", false));
    assert!(!hit(b"\x1b[97;3u", "alt+a", false));
    assert!(hit(b"\x1b[97;3u", "alt+a", true));
    assert!(hit(b"\x1b[27;3;97~", "alt+a", true));
    assert!(!hit(b"\x1b[27;3;97~", "alt+a", false));
    assert!(hit(b"\x1b\x01", "ctrl+alt+a", false));
    assert!(!hit(b"\x1b\x01", "ctrl+alt+a", true));
    assert!(hit(b"\x1b[97;7u", "ctrl+alt+a", true));
    assert!(!hit(b"\x1b[97;7u", "ctrl+alt+a", false));
    // Symbols have no two-byte form: the encodings count under both.
    assert!(either(b"\x1b[49;3u", "alt+1"));
    assert!(!either(b"\x1b1", "alt+1"));
    assert!(either(b"\x1b[97;4u", "shift+alt+a"));
    assert!(either(b"\x1b[97;8u", "ctrl+shift+alt+a"));
    assert!(!hit(b"\x1bA", "shift+alt+a", false));
}

#[test]
fn lock_bits_of_the_input_are_ignored_under_either_encoding() {
    assert!(either(b"\x1b[97;69u", "ctrl+a"));
    assert!(either(b"\x1b[97;133u", "ctrl+a"));
    assert!(either(b"\x1b[1;69A", "ctrl+up"));
    assert!(either(b"\x1b[27;69;97~", "ctrl+a"));
    assert!(either(b"\x1b[27;133;97~", "ctrl+a"));
    assert!(either(b"\x1b[27;197;97", "ctrl+a"));
    assert!(either(b"\x1b[27;66;9~", "shift+tab"));
    assert!(either(b"\x1b[27;69;32~", "ctrl+space"));
    assert!(either(b"\x1b[27;131;127~", "alt+backspace"));
    assert!(either(b"\x1b[27;70;13~", "ctrl+shift+enter"));
    assert!(!either(b"\x1b[27;69;97~", "ctrl+shift+a"));
    assert!(!either(b"\x1b[27;65;97~", "ctrl+a"));
}

#[test]
fn matches_token_by_key_and_flags() {
    assert!(matches_token(b"\x1b[A", KeyToken::Up, false, false, false, true));
    assert!(matches_token(b"\x1bOa", KeyToken::Up, true, false, false, true));
    assert!(matches_token(b"\x01", KeyToken::Char(b'a'), true, false, false, true));
    assert!(matches_token(b"\x1bOP", KeyToken::Function(1), false, false, false, false));
    assert!(matches_token(b"\x1b[24;5~", KeyToken::Function(12), true, false, false, false));
    assert!(!matches_token(b"\x1bOP", KeyToken::Function(0), false, false, false, false));
    assert!(!matches_token(b"\x1bOP", KeyToken::Function(13), false, false, false, false));
    assert!(!matches_token(b" ", KeyToken::Char(b' '), false, false, false, false));
    assert!(!matches_token(b"\x7f", KeyToken::Char(0x7f), false, false, false, false));
    assert!(!matches_token(b"a", KeyToken::Unknown, false, false, false, false));
    // A token is a small letter: the capital letter is Shift with it.
    assert!(matches_token(b"A", KeyToken::Char(b'a'), false, true, false, false));
    assert!(!matches_token(b"A", KeyToken::Char(b'A'), false, true, false, false));
}

#[test]
fn every_table_form_with_a_modifier_matches_its_specification() {
    let forms: [(&[u8], &str); 22] = [
        (b"\x1b[a", "shift+up"),
        (b"\x1b[b", "shift+down"),
        (b"\x1b[c", "shift+right"),
        (b"\x1b[d", "shift+left"),
        (b"\x1bOa", "ctrl+up"),
        (b"\x1bOb", "ctrl+down"),
        (b"\x1bOc", "ctrl+right"),
        (b"\x1bOd", "ctrl+left"),
        (b"\x1b[e", "shift+clear"),
        (b"\x1bOe", "ctrl+clear"),
        (b"\x1b[2$", "shift+insert"),
        (b"\x1b[2^", "ctrl+insert"),
        (b"\x1b[3$", "shift+delete"),
        (b"\x1b[3^", "ctrl+delete"),
        (b"\x1b[5$", "shift+pageup"),
        (b"\x1b[6$", "shift+pagedown"),
        (b"\x1b[7$", "shift+home"),
        (b"\x1b[8$", "shift+end"),
        (b"\x1b[5^", "ctrl+pageup"),
        (b"\x1b[6^", "ctrl+pagedown"),
        (b"\x1b[7^", "ctrl+home"),
        (b"\x1b[8^", "ctrl+end"),
    ];
    for (bytes, spec) in forms {
        assert!(either(bytes, spec));
    }
}
