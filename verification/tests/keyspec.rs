use pi_natives::keys::keyspec::{parse_key_id, ParsedKeyId};
use pi_natives::keys::matcher::{classify_key, ctrl_symbol_to_byte, raw_ctrl_char, KeyToken};
use pi_natives::text::{ascii_lower, bytes_eq, chars_of, is_whitespace, str_eq, window_is};

fn id(key: &str, ctrl: bool, shift: bool, alt: bool) -> Option<ParsedKeyId<'_>> {
    Some(ParsedKeyId { key, ctrl, shift, alt })
}

#[test]
fn key_spec_with_modifiers_in_any_order() {
    assert_eq!(parse_key_id("a"), id("a", false, false, false));
    assert_eq!(parse_key_id("ctrl+a"), id("a", true, false, false));
    assert_eq!(parse_key_id("shift+a"), id("a", false, true, false));
    assert_eq!(parse_key_id("alt+a"), id("a", false, false, true));
    assert_eq!(parse_key_id("ctrl+shift+a"), id("a", true, true, false));
    assert_eq!(parse_key_id("shift+ctrl+a"), id("a", true, true, false));
    assert_eq!(parse_key_id("alt+shift+ctrl+delete"), id("delete", true, true, true));
    assert_eq!(parse_key_id("a+ctrl"), id("a", true, false, false));
    assert_eq!(parse_key_id("ctrl+ctrl+a"), id("a", true, false, false));
}

#[test]
fn key_spec_synonyms_and_case() {
    assert_eq!(parse_key_id("control+a"), id("a", true, false, false));
    assert_eq!(parse_key_id("option+a"), id("a", false, false, true));
    assert_eq!(parse_key_id("CTRL+a"), id("a", true, false, false));
    assert_eq!(parse_key_id("Control+Option+Shift+a"), id("a", true, true, true));
    assert_eq!(parse_key_id("cTrL+aLt+X"), id("X", true, false, true));
    assert_eq!(parse_key_id("ctrl+PageUp"), id("PageUp", true, false, false));
}

#[test]
fn key_spec_white_space_is_dropped() {
    assert_eq!(parse_key_id("  ctrl+a  "), id("a", true, false, false));
    assert_eq!(parse_key_id(" ctrl + shift + a "), id("a", true, true, false));
    assert_eq!(parse_key_id("\tctrl\t+\na\r\n"), id("a", true, false, false));
    assert_eq!(parse_key_id("\u{a0}ctrl+a\u{2003}"), id("a", true, false, false));
    assert_eq!(parse_key_id("ctrl+\u{3000}a\u{2028}"), id("a", true, false, false));
    assert_eq!(parse_key_id("page up"), id("page up", false, false, false));
    assert_eq!(parse_key_id("ctrl + + a"), id("a", true, false, false));
}

#[test]
fn key_spec_without_a_key() {
    assert_eq!(parse_key_id(""), None);
    assert_eq!(parse_key_id("   "), None);
    assert_eq!(parse_key_id("\u{2003}"), None);
    assert_eq!(parse_key_id("ctrl"), None);
    assert_eq!(parse_key_id("ctrl+shift"), None);
    assert_eq!(parse_key_id("ctrl+"), None);
    assert_eq!(parse_key_id("shift+alt+option+control"), None);
    assert_eq!(parse_key_id("ctrl+ +"), None);
}

#[test]
fn key_spec_the_last_key_wins() {
    assert_eq!(parse_key_id("a+b"), id("b", false, false, false));
    assert_eq!(parse_key_id("a+ctrl+b+shift"), id("b", true, true, false));
    assert_eq!(parse_key_id("tab+escape"), id("escape", false, false, false));
}

#[test]
fn key_spec_plus_key() {
    assert_eq!(parse_key_id("+"), id("+", false, false, false));
    assert_eq!(parse_key_id(" + "), id("+", false, false, false));
    assert_eq!(parse_key_id("++"), id("+", false, false, false));
    assert_eq!(parse_key_id("ctrl++"), id("+", true, false, false));
    assert_eq!(parse_key_id("ctrl+shift++"), id("+", true, true, false));
    assert_eq!(parse_key_id("shift+++"), id("+", false, true, false));
    assert_eq!(parse_key_id("plus"), id("+", false, false, false));
    assert_eq!(parse_key_id("ctrl+PLUS"), id("+", true, false, false));
    // A key before the doubled plus is read after it, and wins.
    assert_eq!(parse_key_id("a++"), id("a", false, false, false));
    assert_eq!(parse_key_id("plus++"), id("+", false, false, false));
}

#[test]
fn key_spec_escape_alias_is_folded() {
    assert_eq!(parse_key_id("ESC"), id("esc", false, false, false));
    assert_eq!(parse_key_id("Esc"), id("esc", false, false, false));
    assert_eq!(parse_key_id("Escape"), id("Escape", false, false, false));
}

#[test]
fn key_spec_keeps_text_that_is_not_ascii() {
    assert_eq!(parse_key_id("ctrl+\u{e9}"), id("\u{e9}", true, false, false));
    assert_eq!(parse_key_id("\u{4e2d}\u{6587}+alt"), id("\u{4e2d}\u{6587}", false, false, true));
    assert_eq!(parse_key_id("ctrl+\u{1f600}x"), id("\u{1f600}x", true, false, false));
}

#[test]
fn white_space_is_what_unicode_says() {
    for v in 0u32..0x11_0000 {
        if let Some(c) = char::from_u32(v) {
            assert_eq!(is_whitespace(c), c.is_whitespace());
        }
    }
}

#[test]
fn classify_named_keys_without_regard_to_case() {
    assert_eq!(classify_key("escape"), KeyToken::Escape);
    assert_eq!(classify_key("esc"), KeyToken::Escape);
    assert_eq!(classify_key("ESCAPE"), KeyToken::Escape);
    assert_eq!(classify_key("space"), KeyToken::Space);
    assert_eq!(classify_key("Tab"), KeyToken::Tab);
    assert_eq!(classify_key("enter"), KeyToken::Enter);
    assert_eq!(classify_key("Return"), KeyToken::Enter);
    assert_eq!(classify_key("backspace"), KeyToken::Backspace);
    assert_eq!(classify_key("insert"), KeyToken::Insert);
    assert_eq!(classify_key("delete"), KeyToken::Delete);
    assert_eq!(classify_key("clear"), KeyToken::Clear);
    assert_eq!(classify_key("home"), KeyToken::Home);
    assert_eq!(classify_key("end"), KeyToken::End);
    assert_eq!(classify_key("pageUp"), KeyToken::PageUp);
    assert_eq!(classify_key("pagedown"), KeyToken::PageDown);
    assert_eq!(classify_key("up"), KeyToken::Up);
    assert_eq!(classify_key("DOWN"), KeyToken::Down);
    assert_eq!(classify_key("left"), KeyToken::Left);
    assert_eq!(classify_key("right"), KeyToken::Right);
    for n in 1u8..=12 {
        assert_eq!(classify_key(&format!("f{}", n)), KeyToken::Function(n));
        assert_eq!(classify_key(&format!("F{}", n)), KeyToken::Function(n));
    }
}

#[test]
fn classify_single_characters() {
    assert_eq!(classify_key("a"), KeyToken::Char(b'a'));
    assert_eq!(classify_key("A"), KeyToken::Char(b'a'));
    assert_eq!(classify_key("Z"), KeyToken::Char(b'z'));
    assert_eq!(classify_key("+"), KeyToken::Char(b'+'));
    assert_eq!(classify_key("~"), KeyToken::Char(b'~'));
    assert_eq!(classify_key("!"), KeyToken::Char(b'!'));
    assert_eq!(classify_key("1"), KeyToken::Char(b'1'));
    assert_eq!(classify_key(" "), KeyToken::Unknown);
    assert_eq!(classify_key("\x7f"), KeyToken::Unknown);
    assert_eq!(classify_key("\x1b"), KeyToken::Unknown);
    assert_eq!(classify_key("\u{e9}"), KeyToken::Unknown);
}

#[test]
fn classify_unknown_tokens() {
    assert_eq!(classify_key(""), KeyToken::Unknown);
    assert_eq!(classify_key("ab"), KeyToken::Unknown);
    assert_eq!(classify_key("f0"), KeyToken::Unknown);
    assert_eq!(classify_key("f13"), KeyToken::Unknown);
    assert_eq!(classify_key("ctrl"), KeyToken::Unknown);
    assert_eq!(classify_key("page up"), KeyToken::Unknown);
    assert_eq!(classify_key("escapee"), KeyToken::Unknown);
    assert_eq!(classify_key("esca"), KeyToken::Unknown);
}

#[test]
fn control_bytes_of_letters_and_symbols() {
    for b in b'a'..=b'z' {
        assert_eq!(raw_ctrl_char(b), b - b'a' + 1);
        assert_eq!(raw_ctrl_char(b.to_ascii_uppercase()), b - b'a' + 1);
    }
    assert_eq!(raw_ctrl_char(b'{'), 27);
    assert_eq!(raw_ctrl_char(0xff), 159);
    assert_eq!(ctrl_symbol_to_byte(b'@'), Some(0x00));
    assert_eq!(ctrl_symbol_to_byte(b'['), Some(0x1b));
    assert_eq!(ctrl_symbol_to_byte(b'\\'), Some(0x1c));
    assert_eq!(ctrl_symbol_to_byte(b']'), Some(0x1d));
    assert_eq!(ctrl_symbol_to_byte(b'^'), Some(0x1e));
    assert_eq!(ctrl_symbol_to_byte(b'_'), Some(0x1f));
    assert_eq!(ctrl_symbol_to_byte(b'-'), Some(0x1f));
    assert_eq!(ctrl_symbol_to_byte(b'a'), None);
    assert_eq!(ctrl_symbol_to_byte(b'?'), None);
    assert_eq!(ctrl_symbol_to_byte(0xff), None);
}

#[test]
fn text_helpers() {
    assert_eq!(chars_of("a\u{e9}\u{1f600}"), vec!['a', '\u{e9}', '\u{1f600}']);
    assert_eq!(chars_of(""), Vec::<char>::new());
    assert!(str_eq("", ""));
    assert!(str_eq("up", "up"));
    assert!(!str_eq("up", "Up"));
    assert!(!str_eq("up", "upp"));
    assert!(!str_eq("\u{e9}", "e"));
    assert!(bytes_eq(b"\x1b[A", b"\x1b[A"));
    assert!(!bytes_eq(b"\x1b[A", b"\x1b[B"));
    assert!(!bytes_eq(b"", b"\x00"));
    for v in 0u32..0x11_0000 {
        if let Some(c) = char::from_u32(v) {
            assert_eq!(ascii_lower(c), c.to_ascii_lowercase());
        }
    }
    let chars: Vec<char> = "xxCtRlyy".chars().collect();
    assert!(window_is(&chars, 2, 6, "ctrl"));
    assert!(window_is(&chars, 2, 6, "CTRL"));
    assert!(!window_is(&chars, 2, 5, "ctrl"));
    assert!(!window_is(&chars, 2, 7, "ctrl"));
    assert!(!window_is(&chars, 1, 5, "ctrl"));
    assert!(window_is(&chars, 3, 3, ""));
    assert!(!window_is(&chars, 3, 3, "a"));
    let kelvin: Vec<char> = vec!['\u{212a}'];
    assert!(!window_is(&kelvin, 0, 1, "k"));
}
