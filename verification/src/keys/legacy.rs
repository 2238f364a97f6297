//! The fixed table of legacy escape sequences.
//!
//! Each entry pairs one exact byte sequence with a canonical key name. The
//! table is a pure function of the bytes: nothing is added or removed at run
//! time.

use vstd::prelude::*;
use vstd::utf8::encode_utf8;
use crate::keys::codes::{ESC, MOD_CTRL, MOD_SHIFT};
use crate::text::str_eq;

verus! {

/// `s` is the two bytes `ESC c`.
pub open spec fn esc_pair(s: Seq<u8>, c: char) -> bool {
    s.len() == 2 && s[0] == ESC && s[1] == c as u8
}

/// `s` is the three bytes `ESC O c`.
pub open spec fn ss3(s: Seq<u8>, c: char) -> bool {
    s.len() == 3 && s[0] == ESC && s[1] == 'O' as u8 && s[2] == c as u8
}

/// `s` is the three bytes `ESC [ c`.
pub open spec fn csi1(s: Seq<u8>, c: char) -> bool {
    s.len() == 3 && s[0] == ESC && s[1] == '[' as u8 && s[2] == c as u8
}

/// `s` is the four bytes `ESC [ c d`.
pub open spec fn csi2(s: Seq<u8>, c: char, d: char) -> bool {
    s.len() == 4 && s[0] == ESC && s[1] == '[' as u8 && s[2] == c as u8 && s[3] == d as u8
}

/// `s` is the five bytes `ESC [ c d e`.
pub open spec fn csi3(s: Seq<u8>, c: char, d: char, e: char) -> bool {
    s.len() == 5 && s[0] == ESC && s[1] == '[' as u8 && s[2] == c as u8 && s[3] == d as u8
        && s[4] == e as u8
}

/// The table: the canonical name of the legacy sequence `s`, if it is one.
pub open spec fn legacy_name(s: Seq<u8>) -> Option<Seq<char>> {
    // Arrow keys, in SS3 and CSI form.
    if ss3(s, 'A') || csi1(s, 'A') {
        Some("up"@)
    } else if ss3(s, 'B') || csi1(s, 'B') {
        Some("down"@)
    } else if ss3(s, 'C') || csi1(s, 'C') {
        Some("right"@)
    } else if ss3(s, 'D') || csi1(s, 'D') {
        Some("left"@)
    // Home and End, in the forms of several terminals.
    } else if ss3(s, 'H') || csi1(s, 'H') || csi2(s, '1', '~') || csi2(s, '7', '~') {
        Some("home"@)
    } else if ss3(s, 'F') || csi1(s, 'F') || csi2(s, '4', '~') || csi2(s, '8', '~') {
        Some("end"@)
    // Clear.
    } else if csi1(s, 'E') || ss3(s, 'E') {
        Some("clear"@)
    } else if ss3(s, 'e') {
        Some("ctrl+clear"@)
    } else if csi1(s, 'e') {
        Some("shift+clear"@)
    // Insert and Delete.
    } else if csi2(s, '2', '~') {
        Some("insert"@)
    } else if csi2(s, '2', '$') {
        Some("shift+insert"@)
    } else if csi2(s, '2', '^') {
        Some("ctrl+insert"@)
    } else if csi2(s, '3', '~') {
        Some("delete"@)
    } else if csi2(s, '3', '$') {
        Some("shift+delete"@)
    } else if csi2(s, '3', '^') {
        Some("ctrl+delete"@)
    // Page Up and Page Down, with the doubled-bracket form.
    } else if csi2(s, '5', '~') || csi3(s, '[', '5', '~') {
        Some("pageup"@)
    } else if csi2(s, '6', '~') || csi3(s, '[', '6', '~') {
        Some("pagedown"@)
    // Shift with an arrow.
    } else if csi1(s, 'a') {
        Some("shift+up"@)
    } else if csi1(s, 'b') {
        Some("shift+down"@)
    } else if csi1(s, 'c') {
        Some("shift+right"@)
    } else if csi1(s, 'd') {
        Some("shift+left"@)
    // Ctrl with an arrow.
    } else if ss3(s, 'a') {
        Some("ctrl+up"@)
    } else if ss3(s, 'b') {
        Some("ctrl+down"@)
    } else if ss3(s, 'c') {
        Some("ctrl+right"@)
    } else if ss3(s, 'd') {
        Some("ctrl+left"@)
    // Shift with Page Up, Page Down, Home, End.
    } else if csi2(s, '5', '$') {
        Some("shift+pageup"@)
    } else if csi2(s, '6', '$') {
        Some("shift+pagedown"@)
    } else if csi2(s, '7', '$') {
        Some("shift+home"@)
    } else if csi2(s, '8', '$') {
        Some("shift+end"@)
    // Ctrl with Page Up, Page Down, Home, End.
    } else if csi2(s, '5', '^') {
        Some("ctrl+pageup"@)
    } else if csi2(s, '6', '^') {
        Some("ctrl+pagedown"@)
    } else if csi2(s, '7', '^') {
        Some("ctrl+home"@)
    } else if csi2(s, '8', '^') {
        Some("ctrl+end"@)
    // Function keys: SS3, CSI with a tilde, and the Linux console.
    } else if ss3(s, 'P') || csi3(s, '1', '1', '~') || csi2(s, '[', 'A') {
        Some("f1"@)
    } else if ss3(s, 'Q') || csi3(s, '1', '2', '~') || csi2(s, '[', 'B') {
        Some("f2"@)
    } else if ss3(s, 'R') || csi3(s, '1', '3', '~') || csi2(s, '[', 'C') {
        Some("f3"@)
    } else if ss3(s, 'S') || csi3(s, '1', '4', '~') || csi2(s, '[', 'D') {
        Some("f4"@)
    } else if csi2(s, '[', 'E') || csi3(s, '1', '5', '~') {
        Some("f5"@)
    } else if csi3(s, '1', '7', '~') {
        Some("f6"@)
    } else if csi3(s, '1', '8', '~') {
        Some("f7"@)
    } else if csi3(s, '1', '9', '~') {
        Some("f8"@)
    } else if csi3(s, '2', '0', '~') {
        Some("f9"@)
    } else if csi3(s, '2', '1', '~') {
        Some("f10"@)
    } else if csi3(s, '2', '3', '~') {
        Some("f11"@)
    } else if csi3(s, '2', '4', '~') {
        Some("f12"@)
    // Alt with an arrow, as a two-byte sequence.
    } else if esc_pair(s, 'b') {
        Some("alt+left"@)
    } else if esc_pair(s, 'f') {
        Some("alt+right"@)
    } else if esc_pair(s, 'p') {
        Some("alt+up"@)
    } else if esc_pair(s, 'n') {
        Some("alt+down"@)
    } else {
        None
    }
}

/// The view of an optional name.
pub open spec fn name_view(n: Option<&'static str>) -> Option<Seq<char>> {
    match n {
        Some(s) => Some(s@),
        None => None,
    }
}

fn lookup_esc_pair(c: char) -> (r: Option<&'static str>)
    ensures
        forall|s: Seq<u8>| s.len() == 2 && s[0] == ESC && s[1] == c as u8 && c as u32 <= 255
            ==> name_view(r) == #[trigger] legacy_name(s),
{
    match c {
        'b' => Some("alt+left"),
        'f' => Some("alt+right"),
        'p' => Some("alt+up"),
        'n' => Some("alt+down"),
        _ => None,
    }
}

fn lookup_ss3(c: char) -> (r: Option<&'static str>)
    ensures
        forall|s: Seq<u8>| s.len() == 3 && s[0] == ESC && s[1] == 'O' as u8 && s[2] == c as u8 && c as u32 <= 255
            ==> name_view(r) == #[trigger] legacy_name(s),
{
    match c {
        'A' => Some("up"),
        'B' => Some("down"),
        'C' => Some("right"),
        'D' => Some("left"),
        'H' => Some("home"),
        'F' => Some("end"),
        'E' => Some("clear"),
        'e' => Some("ctrl+clear"),
        'a' => Some("ctrl+up"),
        'b' => Some("ctrl+down"),
        'c' => Some("ctrl+right"),
        'd' => Some("ctrl+left"),
        'P' => Some("f1"),
        'Q' => Some("f2"),
        'R' => Some("f3"),
        'S' => Some("f4"),
        _ => None,
    }
}

fn lookup_csi1(c: char) -> (r: Option<&'static str>)
    ensures
        forall|s: Seq<u8>| s.len() == 3 && s[0] == ESC && s[1] == '[' as u8 && s[2] == c as u8 && c as u32 <= 255
            ==> name_view(r) == #[trigger] legacy_name(s),
{
    match c {
        'A' => Some("up"),
        'B' => Some("down"),
        'C' => Some("right"),
        'D' => Some("left"),
        'H' => Some("home"),
        'F' => Some("end"),
        'E' => Some("clear"),
        'e' => Some("shift+clear"),
        'a' => Some("shift+up"),
        'b' => Some("shift+down"),
        'c' => Some("shift+right"),
        'd' => Some("shift+left"),
        _ => None,
    }
}

fn lookup_csi2(c: char, d: char) -> (r: Option<&'static str>)
    ensures
        forall|s: Seq<u8>| s.len() == 4 && s[0] == ESC && s[1] == '[' as u8 && s[2] == c as u8 && s[3] == d as u8
            && c as u32 <= 255 && d as u32 <= 255
            ==> name_view(r) == #[trigger] legacy_name(s),
{
    match (c, d) {
        ('1', '~') => Some("home"),
        ('7', '~') => Some("home"),
        ('4', '~') => Some("end"),
        ('8', '~') => Some("end"),
        ('2', '~') => Some("insert"),
        ('2', '$') => Some("shift+insert"),
        ('2', '^') => Some("ctrl+insert"),
        ('3', '~') => Some("delete"),
        ('3', '$') => Some("shift+delete"),
        ('3', '^') => Some("ctrl+delete"),
        ('5', '~') => Some("pageup"),
        ('6', '~') => Some("pagedown"),
        ('5', '$') => Some("shift+pageup"),
        ('6', '$') => Some("shift+pagedown"),
        ('7', '$') => Some("shift+home"),
        ('8', '$') => Some("shift+end"),
        ('5', '^') => Some("ctrl+pageup"),
        ('6', '^') => Some("ctrl+pagedown"),
        ('7', '^') => Some("ctrl+home"),
        ('8', '^') => Some("ctrl+end"),
        ('[', 'A') => Some("f1"),
        ('[', 'B') => Some("f2"),
        ('[', 'C') => Some("f3"),
        ('[', 'D') => Some("f4"),
        ('[', 'E') => Some("f5"),
        _ => None,
    }
}

fn lookup_csi3(c: char, d: char, e: char) -> (r: Option<&'static str>)
    ensures
        forall|s: Seq<u8>| s.len() == 5 && s[0] == ESC && s[1] == '[' as u8 && s[2] == c as u8 && s[3] == d as u8
            && s[4] == e as u8 && c as u32 <= 255 && d as u32 <= 255 && e as u32 <= 255
            ==> name_view(r) == #[trigger] legacy_name(s),
{
    match (c, d, e) {
        ('[', '5', '~') => Some("pageup"),
        ('[', '6', '~') => Some("pagedown"),
        ('1', '1', '~') => Some("f1"),
        ('1', '2', '~') => Some("f2"),
        ('1', '3', '~') => Some("f3"),
        ('1', '4', '~') => Some("f4"),
        ('1', '5', '~') => Some("f5"),
        ('1', '7', '~') => Some("f6"),
        ('1', '8', '~') => Some("f7"),
        ('1', '9', '~') => Some("f8"),
        ('2', '0', '~') => Some("f9"),
        ('2', '1', '~') => Some("f10"),
        ('2', '3', '~') => Some("f11"),
        ('2', '4', '~') => Some("f12"),
        _ => None,
    }
}

/// Looks `bytes` up in the table of legacy sequences.
pub fn legacy_lookup(bytes: &[u8]) -> (r: Option<&'static str>)
    ensures
        name_view(r) == legacy_name(bytes@),
{
    let n = bytes.len();
    if n < 2 || n > 5 || bytes[0] != ESC {
        return None;
    }
    let b1 = bytes[1] as char;
    if n == 2 {
        return lookup_esc_pair(b1);
    }
    let b2 = bytes[2] as char;
    if n == 3 {
        if b1 == 'O' {
            return lookup_ss3(b2);
        }
        if b1 == '[' {
            return lookup_csi1(b2);
        }
        return None;
    }
    if b1 != '[' {
        return None;
    }
    let b3 = bytes[3] as char;
    if n == 4 {
        return lookup_csi2(b2, b3);
    }
    lookup_csi3(b2, b3, bytes[4] as char)
}

/// Whether `s` is a legacy sequence that the table names `key`.
pub open spec fn spec_matches_legacy_key(s: Seq<u8>, key: Seq<char>) -> bool {
    legacy_name(s) == Some(key)
}

/// Whether `bytes` is the legacy sequence that the table names `key`.
pub fn matches_legacy_key(bytes: &[u8], key: &str) -> (r: bool)
    ensures
        r == spec_matches_legacy_key(bytes@, key@),
{
    match legacy_lookup(bytes) {
        Some(id) => str_eq(id, key),
        None => false,
    }
}

/// The keys of which the table holds a form with Shift and one with Ctrl.
pub open spec fn has_modifier_forms(key: Seq<char>) -> bool {
    ||| key == "up"@
    ||| key == "down"@
    ||| key == "right"@
    ||| key == "left"@
    ||| key == "clear"@
    ||| key == "insert"@
    ||| key == "delete"@
    ||| key == "pageup"@
    ||| key == "pagedown"@
    ||| key == "home"@
    ||| key == "end"@
}

/// The table's name for `key` with Shift alone or Ctrl alone. No other
/// modifier has a legacy form.
pub open spec fn modified_legacy_name(key: Seq<char>, modifier: u32) -> Option<Seq<char>> {
    if !has_modifier_forms(key) {
        None
    } else if modifier == MOD_SHIFT {
        Some("shift+"@ + key)
    } else if modifier == MOD_CTRL {
        Some("ctrl+"@ + key)
    } else {
        None
    }
}

/// Whether `s` is the legacy sequence of `key` with the modifier
/// `modifier`.
pub open spec fn spec_matches_legacy_modifier_sequence(
    s: Seq<u8>,
    key: Seq<char>,
    modifier: u32,
) -> bool {
    match modified_legacy_name(key, modifier) {
        Some(name) => legacy_name(s) == Some(name),
        None => false,
    }
}

proof fn lemma_shift_names()
    ensures
        "shift+up"@ == "shift+"@ + "up"@,
        "shift+down"@ == "shift+"@ + "down"@,
        "shift+right"@ == "shift+"@ + "right"@,
        "shift+left"@ == "shift+"@ + "left"@,
        "shift+clear"@ == "shift+"@ + "clear"@,
        "shift+insert"@ == "shift+"@ + "insert"@,
        "shift+delete"@ == "shift+"@ + "delete"@,
        "shift+pageup"@ == "shift+"@ + "pageup"@,
        "shift+pagedown"@ == "shift+"@ + "pagedown"@,
        "shift+home"@ == "shift+"@ + "home"@,
        "shift+end"@ == "shift+"@ + "end"@,
{
    reveal_strlit("shift+");
    reveal_strlit("up");
    reveal_strlit("down");
    reveal_strlit("right");
    reveal_strlit("left");
    reveal_strlit("clear");
    reveal_strlit("insert");
    reveal_strlit("delete");
    reveal_strlit("pageup");
    reveal_strlit("pagedown");
    reveal_strlit("home");
    reveal_strlit("end");
    reveal_strlit("shift+up");
    reveal_strlit("shift+down");
    reveal_strlit("shift+right");
    reveal_strlit("shift+left");
    reveal_strlit("shift+clear");
    reveal_strlit("shift+insert");
    reveal_strlit("shift+delete");
    reveal_strlit("shift+pageup");
    reveal_strlit("shift+pagedown");
    reveal_strlit("shift+home");
    reveal_strlit("shift+end");
    assert("shift+up"@ =~= "shift+"@ + "up"@);
    assert("shift+down"@ =~= "shift+"@ + "down"@);
    assert("shift+right"@ =~= "shift+"@ + "right"@);
    assert("shift+left"@ =~= "shift+"@ + "left"@);
    assert("shift+clear"@ =~= "shift+"@ + "clear"@);
    assert("shift+insert"@ =~= "shift+"@ + "insert"@);
    assert("shift+delete"@ =~= "shift+"@ + "delete"@);
    assert("shift+pageup"@ =~= "shift+"@ + "pageup"@);
    assert("shift+pagedown"@ =~= "shift+"@ + "pagedown"@);
    assert("shift+home"@ =~= "shift+"@ + "home"@);
    assert("shift+end"@ =~= "shift+"@ + "end"@);
}

proof fn lemma_ctrl_names()
    ensures
        "ctrl+up"@ == "ctrl+"@ + "up"@,
        "ctrl+down"@ == "ctrl+"@ + "down"@,
        "ctrl+right"@ == "ctrl+"@ + "right"@,
        "ctrl+left"@ == "ctrl+"@ + "left"@,
        "ctrl+clear"@ == "ctrl+"@ + "clear"@,
        "ctrl+insert"@ == "ctrl+"@ + "insert"@,
        "ctrl+delete"@ == "ctrl+"@ + "delete"@,
        "ctrl+pageup"@ == "ctrl+"@ + "pageup"@,
        "ctrl+pagedown"@ == "ctrl+"@ + "pagedown"@,
        "ctrl+home"@ == "ctrl+"@ + "home"@,
        "ctrl+end"@ == "ctrl+"@ + "end"@,
{
    reveal_strlit("ctrl+");
    reveal_strlit("up");
    reveal_strlit("down");
    reveal_strlit("right");
    reveal_strlit("left");
    reveal_strlit("clear");
    reveal_strlit("insert");
    reveal_strlit("delete");
    reveal_strlit("pageup");
    reveal_strlit("pagedown");
    reveal_strlit("home");
    reveal_strlit("end");
    reveal_strlit("ctrl+up");
    reveal_strlit("ctrl+down");
    reveal_strlit("ctrl+right");
    reveal_strlit("ctrl+left");
    reveal_strlit("ctrl+clear");
    reveal_strlit("ctrl+insert");
    reveal_strlit("ctrl+delete");
    reveal_strlit("ctrl+pageup");
    reveal_strlit("ctrl+pagedown");
    reveal_strlit("ctrl+home");
    reveal_strlit("ctrl+end");
    assert("ctrl+up"@ =~= "ctrl+"@ + "up"@);
    assert("ctrl+down"@ =~= "ctrl+"@ + "down"@);
    assert("ctrl+right"@ =~= "ctrl+"@ + "right"@);
    assert("ctrl+left"@ =~= "ctrl+"@ + "left"@);
    assert("ctrl+clear"@ =~= "ctrl+"@ + "clear"@);
    assert("ctrl+insert"@ =~= "ctrl+"@ + "insert"@);
    assert("ctrl+delete"@ =~= "ctrl+"@ + "delete"@);
    assert("ctrl+pageup"@ =~= "ctrl+"@ + "pageup"@);
    assert("ctrl+pagedown"@ =~= "ctrl+"@ + "pagedown"@);
    assert("ctrl+home"@ =~= "ctrl+"@ + "home"@);
    assert("ctrl+end"@ =~= "ctrl+"@ + "end"@);
}

fn shifted_name(key: &str) -> (r: Option<&'static str>)
    ensures
        name_view(r) == modified_legacy_name(key@, MOD_SHIFT),
{
    proof {
        lemma_shift_names();
    }
    if str_eq(key, "up") {
        Some("shift+up")
    } else if str_eq(key, "down") {
        Some("shift+down")
    } else if str_eq(key, "right") {
        Some("shift+right")
    } else if str_eq(key, "left") {
        Some("shift+left")
    } else if str_eq(key, "clear") {
        Some("shift+clear")
    } else if str_eq(key, "insert") {
        Some("shift+insert")
    } else if str_eq(key, "delete") {
        Some("shift+delete")
    } else if str_eq(key, "pageup") {
        Some("shift+pageup")
    } else if str_eq(key, "pagedown") {
        Some("shift+pagedown")
    } else if str_eq(key, "home") {
        Some("shift+home")
    } else if str_eq(key, "end") {
        Some("shift+end")
    } else {
        None
    }
}

fn controlled_name(key: &str) -> (r: Option<&'static str>)
    ensures
        name_view(r) == modified_legacy_name(key@, MOD_CTRL),
{
    proof {
        lemma_ctrl_names();
    }
    if str_eq(key, "up") {
        Some("ctrl+up")
    } else if str_eq(key, "down") {
        Some("ctrl+down")
    } else if str_eq(key, "right") {
        Some("ctrl+right")
    } else if str_eq(key, "left") {
        Some("ctrl+left")
    } else if str_eq(key, "clear") {
        Some("ctrl+clear")
    } else if str_eq(key, "insert") {
        Some("ctrl+insert")
    } else if str_eq(key, "delete") {
        Some("ctrl+delete")
    } else if str_eq(key, "pageup") {
        Some("ctrl+pageup")
    } else if str_eq(key, "pagedown") {
        Some("ctrl+pagedown")
    } else if str_eq(key, "home") {
        Some("ctrl+home")
    } else if str_eq(key, "end") {
        Some("ctrl+end")
    } else {
        None
    }
}

/// Whether `bytes` is the legacy sequence of `key` with Shift alone or Ctrl
/// alone, as `modifier` says. Other masks have no legacy form.
pub fn matches_legacy_modifier_sequence(bytes: &[u8], key: &str, modifier: u32) -> (r: bool)
    ensures
        r == spec_matches_legacy_modifier_sequence(bytes@, key@, modifier),
{
    let expected = if modifier == MOD_SHIFT {
        shifted_name(key)
    } else if modifier == MOD_CTRL {
        controlled_name(key)
    } else {
        None
    };
    match expected {
        Some(name) => matches_legacy_key(bytes, name),
        None => false,
    }
}

/// Whether `data` is a legacy sequence that the table names `key_name`.
pub fn matches_legacy_sequence(data: String, key_name: String) -> (r: bool)
    ensures
        r == spec_matches_legacy_key(encode_utf8(data@), key_name@),
{
    matches_legacy_key(data.as_str().as_bytes(), key_name.as_str())
}

} // verus!
