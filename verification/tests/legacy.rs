use pi_natives::keys::legacy::{
    legacy_lookup, matches_legacy_key, matches_legacy_modifier_sequence,
};
use pi_natives::keys::{matches_legacy_sequence, parse_key_inner};

fn table() -> Vec<(&'static [u8], &'static str)> {
    vec![
        (b"\x1bOA", "up"),
        (b"\x1bOB", "down"),
        (b"\x1bOC", "right"),
        (b"\x1bOD", "left"),
        (b"\x1b[A", "up"),
        (b"\x1b[B", "down"),
        (b"\x1b[C", "right"),
        (b"\x1b[D", "left"),
        (b"\x1bOH", "home"),
        (b"\x1bOF", "end"),
        (b"\x1b[H", "home"),
        (b"\x1b[F", "end"),
        (b"\x1b[1~", "home"),
        (b"\x1b[7~", "home"),
        (b"\x1b[4~", "end"),
        (b"\x1b[8~", "end"),
        (b"\x1b[E", "clear"),
        (b"\x1bOE", "clear"),
        (b"\x1bOe", "ctrl+clear"),
        (b"\x1b[e", "shift+clear"),
        (b"\x1b[2~", "insert"),
        (b"\x1b[2$", "shift+insert"),
        (b"\x1b[2^", "ctrl+insert"),
        (b"\x1b[3~", "delete"),
        (b"\x1b[3$", "shift+delete"),
        (b"\x1b[3^", "ctrl+delete"),
        (b"\x1b[5~", "pageup"),
        (b"\x1b[6~", "pagedown"),
        (b"\x1b[[5~", "pageup"),
        (b"\x1b[[6~", "pagedown"),
        (b"\x1b[a", "shift+up"),
        (b"\x1b[b", "shift+down"),
        (b"\x1b[c", "shift+right"),
        (b"\x1b[d", "shift+left"),
        (b"\x1bOa", "ctrl+up"),
        (b"\x1bOb", "ctrl+down"),
        (b"\x1bOc", "ctrl+right"),
        (b"\x1bOd", "ctrl+left"),
        (b"\x1b[5$", "shift+pageup"),
        (b"\x1b[6$", "shift+pagedown"),
        (b"\x1b[7$", "shift+home"),
        (b"\x1b[8$", "shift+end"),
        (b"\x1b[5^", "ctrl+pageup"),
        (b"\x1b[6^", "ctrl+pagedown"),
        (b"\x1b[7^", "ctrl+home"),
        (b"\x1b[8^", "ctrl+end"),
        (b"\x1bOP", "f1"),
        (b"\x1bOQ", "f2"),
        (b"\x1bOR", "f3"),
        (b"\x1bOS", "f4"),
        (b"\x1b[11~", "f1"),
        (b"\x1b[12~", "f2"),
        (b"\x1b[13~", "f3"),
        (b"\x1b[14~", "f4"),
        (b"\x1b[[A", "f1"),
        (b"\x1b[[B", "f2"),
        (b"\x1b[[C", "f3"),
        (b"\x1b[[D", "f4"),
        (b"\x1b[[E", "f5"),
        (b"\x1b[15~", "f5"),
        (b"\x1b[17~", "f6"),
        (b"\x1b[18~", "f7"),
        (b"\x1b[19~", "f8"),
        (b"\x1b[20~", "f9"),
        (b"\x1b[21~", "f10"),
        (b"\x1b[23~", "f11"),
        (b"\x1b[24~", "f12"),
        (b"\x1bb", "alt+left"),
        (b"\x1bf", "alt+right"),
        (b"\x1bp", "alt+up"),
        (b"\x1bn", "alt+down"),
    ]
}

#[test]
fn every_table_entry_is_found_under_its_name() {
    for (bytes, name) in table() {
        assert_eq!(legacy_lookup(bytes), Some(name));
        assert!(matches_legacy_key(bytes, name));
        assert!(matches_legacy_sequence(
            String::from_utf8(bytes.to_vec()).unwrap(),
            name.to_string()
        ));
    }
}

#[test]
fn every_table_entry_parses_to_its_name() {
    for (bytes, name) in table() {
        assert_eq!(parse_key_inner(bytes, false), Some(name.to_string()));
        assert_eq!(parse_key_inner(bytes, true), Some(name.to_string()));
    }
}

#[test]
fn the_table_holds_nothing_else_of_up_to_three_bytes() {
    let listed: Vec<&[u8]> = table().into_iter().map(|(b, _)| b).collect();
    assert_eq!(legacy_lookup(b""), None);
    for a in 0u8..=255 {
        assert_eq!(legacy_lookup(&[a]), None);
        for b in 0u8..=255 {
            let two = [a, b];
            assert_eq!(legacy_lookup(&two).is_some(), listed.contains(&&two[..]));
        }
    }
    for b in 0u8..=255 {
        for c in 0u8..=255 {
            let three = [0x1b, b, c];
            assert_eq!(legacy_lookup(&three).is_some(), listed.contains(&&three[..]));
        }
    }
}

#[test]
fn the_table_holds_nothing_else_of_four_and_five_bytes() {
    let listed: Vec<&[u8]> = table().into_iter().map(|(b, _)| b).collect();
    for c in 0u8..=255 {
        for d in 0u8..=255 {
            let four = [0x1b, b'[', c, d];
            assert_eq!(legacy_lookup(&four).is_some(), listed.contains(&&four[..]));
            for e in [b'~', b'$', b'^', b'A', 0u8] {
                let five = [0x1b, b'[', c, d, e];
                assert_eq!(legacy_lookup(&five).is_some(), listed.contains(&&five[..]));
            }
        }
    }
    assert_eq!(legacy_lookup(b"\x1bO[5~"), None);
    assert_eq!(legacy_lookup(b"\x1b[[15~"), None);
    assert_eq!(legacy_lookup(b"\x1b[15~~"), None);
}

#[test]
fn matches_legacy_sequence_up() {
    assert!(matches_legacy_sequence("\x1bOA".to_string(), "up".to_string()));
    assert!(!matches_legacy_sequence("\x1bOA".to_string(), "down".to_string()));
    assert!(!matches_legacy_sequence("\x1bOA".to_string(), "Up".to_string()));
    assert!(!matches_legacy_sequence("\x1bOA".to_string(), "".to_string()));
    assert!(!matches_legacy_sequence("".to_string(), "up".to_string()));
    assert!(!matches_legacy_sequence("\x1bOZ".to_string(), "up".to_string()));
}

#[test]
fn matches_legacy_modifier_sequence_knows_shift_and_ctrl_only() {
    assert!(matches_legacy_modifier_sequence(b"\x1b[a", "up", 1));
    assert!(matches_legacy_modifier_sequence(b"\x1bOa", "up", 4));
    assert!(!matches_legacy_modifier_sequence(b"\x1bOa", "up", 1));
    assert!(!matches_legacy_modifier_sequence(b"\x1b[a", "up", 4));
    assert!(matches_legacy_modifier_sequence(b"\x1b[2$", "insert", 1));
    assert!(matches_legacy_modifier_sequence(b"\x1b[3^", "delete", 4));
    assert!(matches_legacy_modifier_sequence(b"\x1b[5$", "pageup", 1));
    assert!(matches_legacy_modifier_sequence(b"\x1b[6^", "pagedown", 4));
    assert!(matches_legacy_modifier_sequence(b"\x1b[7$", "home", 1));
    assert!(matches_legacy_modifier_sequence(b"\x1b[8^", "end", 4));
    assert!(matches_legacy_modifier_sequence(b"\x1b[e", "clear", 1));
    assert!(matches_legacy_modifier_sequence(b"\x1bOe", "clear", 4));
    // Alt has a legacy sequence in the table, but no modifier form.
    assert!(!matches_legacy_modifier_sequence(b"\x1bp", "up", 2));
    assert!(!matches_legacy_modifier_sequence(b"\x1b[a", "up", 5));
    assert!(!matches_legacy_modifier_sequence(b"\x1b[a", "up", 0));
    // Function keys have none either.
    assert!(!matches_legacy_modifier_sequence(b"\x1bOP", "f1", 1));
    assert!(!matches_legacy_modifier_sequence(b"\x1b[a", "UP", 1));
}

#[test]
fn every_modifier_form_of_the_table_matches_its_key() {
    for (bytes, name) in table() {
        if let Some(key) = name.strip_prefix("shift+") {
            assert!(matches_legacy_modifier_sequence(bytes, key, 1));
            assert!(!matches_legacy_modifier_sequence(bytes, key, 4));
        }
        if let Some(key) = name.strip_prefix("ctrl+") {
            assert!(matches_legacy_modifier_sequence(bytes, key, 4));
            assert!(!matches_legacy_modifier_sequence(bytes, key, 1));
        }
    }
}
