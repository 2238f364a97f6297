//! Canonical key names.
//!
//! A canonical name is a key token, `a` or `pageup`, after the prefixes
//! `shift+`, `ctrl+` and `alt+` of the modifiers that are held, always in
//! that order.

use vstd::prelude::*;
use vstd::string::*;
use crate::keys::codes::{
    ARROW_DOWN, ARROW_LEFT, ARROW_RIGHT, ARROW_UP, CP_BACKSPACE, CP_ENTER, CP_ESCAPE, CP_KP_ENTER,
    CP_SPACE, CP_TAB, FUNC_CLEAR, FUNC_DELETE, FUNC_END, FUNC_F1, FUNC_F10, FUNC_F11, FUNC_F12,
    FUNC_F2, FUNC_F3, FUNC_F4, FUNC_F5, FUNC_F6, FUNC_F7, FUNC_F8, FUNC_F9, FUNC_HOME, FUNC_INSERT,
    FUNC_PAGE_DOWN, FUNC_PAGE_UP, MOD_ALT, MOD_CTRL, MOD_SHIFT, spec_strip_locks, strip_locks,
};
use crate::keys::kitty::ParsedKittySequence;
use crate::keys::legacy::name_view;

verus! {

/// The view of an optional owned name.
pub open spec fn string_view(n: Option<String>) -> Option<Seq<char>> {
    match n {
        Some(s) => Some(s@),
        None => None,
    }
}

/// The name of a printable ASCII character: the character itself.
pub open spec fn spec_printable_name(code: u8) -> Seq<char> {
    seq![code as char]
}

/// The key token of a codepoint or sentinel code, where it has one.
///
/// Named keys have fixed tokens, the printable ASCII characters stand for
/// themselves, and nothing else can be named.
pub open spec fn spec_key_name(codepoint: i32) -> Option<Seq<char>> {
    if codepoint == CP_ESCAPE {
        Some("escape"@)
    } else if codepoint == CP_TAB {
        Some("tab"@)
    } else if codepoint == CP_ENTER || codepoint == CP_KP_ENTER {
        Some("enter"@)
    } else if codepoint == CP_SPACE {
        Some("space"@)
    } else if codepoint == CP_BACKSPACE {
        Some("backspace"@)
    } else if codepoint == FUNC_DELETE {
        Some("delete"@)
    } else if codepoint == FUNC_INSERT {
        Some("insert"@)
    } else if codepoint == FUNC_HOME {
        Some("home"@)
    } else if codepoint == FUNC_END {
        Some("end"@)
    } else if codepoint == FUNC_PAGE_UP {
        Some("pageup"@)
    } else if codepoint == FUNC_PAGE_DOWN {
        Some("pagedown"@)
    } else if codepoint == FUNC_CLEAR {
        Some("clear"@)
    } else if codepoint == ARROW_UP {
        Some("up"@)
    } else if codepoint == ARROW_DOWN {
        Some("down"@)
    } else if codepoint == ARROW_LEFT {
        Some("left"@)
    } else if codepoint == ARROW_RIGHT {
        Some("right"@)
    } else if codepoint == FUNC_F1 {
        Some("f1"@)
    } else if codepoint == FUNC_F2 {
        Some("f2"@)
    } else if codepoint == FUNC_F3 {
        Some("f3"@)
    } else if codepoint == FUNC_F4 {
        Some("f4"@)
    } else if codepoint == FUNC_F5 {
        Some("f5"@)
    } else if codepoint == FUNC_F6 {
        Some("f6"@)
    } else if codepoint == FUNC_F7 {
        Some("f7"@)
    } else if codepoint == FUNC_F8 {
        Some("f8"@)
    } else if codepoint == FUNC_F9 {
        Some("f9"@)
    } else if codepoint == FUNC_F10 {
        Some("f10"@)
    } else if codepoint == FUNC_F11 {
        Some("f11"@)
    } else if codepoint == FUNC_F12 {
        Some("f12"@)
    } else if 33 <= codepoint <= 126 {
        Some(spec_printable_name(codepoint as u8))
    } else {
        None
    }
}

/// The prefix that a modifier bit contributes to a name.
pub open spec fn modifier_prefix(mods: u32, bit: u32, prefix: Seq<char>) -> Seq<char> {
    if mods & bit != 0 {
        prefix
    } else {
        Seq::empty()
    }
}

/// A key token behind the prefixes of the modifiers in `mods`: `shift+`,
/// then `ctrl+`, then `alt+`. Other bits of the mask add nothing.
pub open spec fn spec_with_mods(mods: u32, key_name: Seq<char>) -> Seq<char> {
    modifier_prefix(mods, MOD_SHIFT, "shift+"@) + modifier_prefix(mods, MOD_CTRL, "ctrl+"@)
        + modifier_prefix(mods, MOD_ALT, "alt+"@) + key_name
}

/// The canonical name of a key with a modifier mask: the bare token where
/// no bit is set, the token behind its prefixes otherwise.
pub open spec fn spec_canonical_name(codepoint: i32, mods: u32) -> Option<Seq<char>> {
    match spec_key_name(codepoint) {
        Some(name) => if mods == 0 {
            Some(name)
        } else {
            Some(spec_with_mods(mods, name))
        },
        None => None,
    }
}

/// The canonical name of a decoded event: the base-layout key, where the
/// terminal gave one, names the key; lock bits are dropped from the mask.
pub open spec fn spec_format_kitty_key(parsed: ParsedKittySequence) -> Option<Seq<char>> {
    let codepoint = match parsed.base_layout_key {
        Some(b) => b,
        None => parsed.codepoint,
    };
    spec_canonical_name(codepoint, spec_strip_locks(parsed.modifier))
}

/// The name of a single byte, where it has one.
pub open spec fn spec_single_byte(code: u8) -> Option<Seq<char>> {
    if code == 0x1b {
        Some("escape"@)
    } else if code == 0x09 {
        Some("tab"@)
    } else if code == 0x0d || code == 0x0a {
        Some("enter"@)
    } else if code == 0x00 {
        Some("ctrl+space"@)
    } else if code == 0x20 {
        Some("space"@)
    } else if code == 0x7f || code == 0x08 {
        Some("backspace"@)
    } else if code == 28 {
        Some("ctrl+\\"@)
    } else if code == 29 {
        Some("ctrl+]"@)
    } else if code == 30 {
        Some("ctrl+^"@)
    } else if code == 31 {
        Some("ctrl+_"@)
    } else if 1 <= code <= 26 {
        Some("ctrl+"@ + spec_printable_name((code + 96) as u8))
    } else if 33 <= code <= 126 {
        Some(spec_printable_name(code))
    } else {
        None
    }
}

/// The name of the two bytes `ESC code`, where they have one.
///
/// Alt with Backspace, Enter or Tab keeps this form under every protocol.
/// The other pairs are read only while the Kitty protocol is not active.
pub open spec fn spec_esc_pair(code: u8, kitty_protocol_active: bool) -> Option<Seq<char>> {
    if code == 0x7f || code == 0x08 {
        Some("alt+backspace"@)
    } else if code == 0x0d {
        Some("alt+enter"@)
    } else if code == 0x09 {
        Some("alt+tab"@)
    } else if kitty_protocol_active {
        None
    } else if code == 0x20 {
        Some("alt+space"@)
    } else if code == 'B' as u8 {
        Some("alt+left"@)
    } else if code == 'F' as u8 {
        Some("alt+right"@)
    } else if 1 <= code <= 26 {
        Some("ctrl+"@ + "alt+"@ + spec_printable_name((code + 96) as u8))
    } else if 'a' as u8 <= code <= 'z' as u8 {
        Some("alt+"@ + spec_printable_name(code))
    } else {
        None
    }
}

/// The name of a printable ASCII character, without allocation.
pub fn printable_name(code: u8) -> (r: &'static str)
    requires
        33 <= code <= 126,
    ensures
        r@ == spec_printable_name(code),
{
    let table: &'static str =
        "!\"#$%&'()*+,-./0123456789:;<=>?@ABCDEFGHIJKLMNOPQRSTUVWXYZ[\\]^_`abcdefghijklmnopqrstuvwxyz{|}~";
    proof {
        reveal_strlit(
            "!\"#$%&'()*+,-./0123456789:;<=>?@ABCDEFGHIJKLMNOPQRSTUVWXYZ[\\]^_`abcdefghijklmnopqrstuvwxyz{|}~",
        );
        assert forall|k: int| 0 <= k < 94 implies #[trigger] table@[k] as int == k + 33 by {}
    }
    let i: usize = (code - 33) as usize;
    let r = table.substring_ascii(i, i + 1);
    assert(r@ =~= seq![code as char]);
    r
}

/// The key token of a codepoint or sentinel code.
pub fn format_key_name(codepoint: i32) -> (r: Option<&'static str>)
    ensures
        name_view(r) == spec_key_name(codepoint),
{
    match codepoint {
        27 => Some("escape"),
        9 => Some("tab"),
        13 | 57414 => Some("enter"),
        32 => Some("space"),
        127 => Some("backspace"),
        -10 => Some("delete"),
        -11 => Some("insert"),
        -14 => Some("home"),
        -15 => Some("end"),
        -12 => Some("pageup"),
        -13 => Some("pagedown"),
        -16 => Some("clear"),
        -1 => Some("up"),
        -2 => Some("down"),
        -4 => Some("left"),
        -3 => Some("right"),
        -20 => Some("f1"),
        -21 => Some("f2"),
        -22 => Some("f3"),
        -23 => Some("f4"),
        -24 => Some("f5"),
        -25 => Some("f6"),
        -26 => Some("f7"),
        -27 => Some("f8"),
        -28 => Some("f9"),
        -29 => Some("f10"),
        -30 => Some("f11"),
        -31 => Some("f12"),
        33..=126 => Some(printable_name(codepoint as u8)),
        _ => None,
    }
}

/// Puts the prefixes of the modifiers in `mods` before a key token.
pub fn format_with_mods(mods: u32, key_name: &str) -> (r: String)
    ensures
        r@ == spec_with_mods(mods, key_name@),
{
    let mut result = String::new();
    if mods & MOD_SHIFT != 0 {
        result.append("shift+");
    }
    if mods & MOD_CTRL != 0 {
        result.append("ctrl+");
    }
    if mods & MOD_ALT != 0 {
        result.append("alt+");
    }
    result.append(key_name);
    assert(result@ =~= spec_with_mods(mods, key_name@));
    result
}

/// The canonical name of the key `codepoint` under the mask `mods`.
pub fn canonical_name(codepoint: i32, mods: u32) -> (r: Option<String>)
    ensures
        string_view(r) == spec_canonical_name(codepoint, mods),
{
    match format_key_name(codepoint) {
        Some(name) => if mods == 0 {
            Some(name.to_owned())
        } else {
            Some(format_with_mods(mods, name))
        },
        None => None,
    }
}

/// The canonical name of a decoded event.
pub fn format_kitty_key(parsed: &ParsedKittySequence) -> (r: Option<String>)
    ensures
        string_view(r) == spec_format_kitty_key(*parsed),
{
    let effective_mod = strip_locks(parsed.modifier);
    let effective_codepoint = match parsed.base_layout_key {
        Some(b) => b,
        None => parsed.codepoint,
    };
    canonical_name(effective_codepoint, effective_mod)
}

fn prefixed(prefix: &'static str, code: u8) -> (r: String)
    requires
        33 <= code <= 126,
    ensures
        r@ == prefix@ + spec_printable_name(code),
{
    let mut result = String::new();
    result.append(prefix);
    result.append(printable_name(code));
    assert(result@ =~= prefix@ + spec_printable_name(code));
    result
}

/// Names a single byte: a typed character or a control code.
pub fn parse_single_byte(code: u8) -> (r: Option<String>)
    ensures
        string_view(r) == spec_single_byte(code),
{
    match code {
        0x1b => Some("escape".to_owned()),
        0x09 => Some("tab".to_owned()),
        0x0d | 0x0a => Some("enter".to_owned()),
        0x00 => Some("ctrl+space".to_owned()),
        0x20 => Some("space".to_owned()),
        0x7f | 0x08 => Some("backspace".to_owned()),
        28 => Some("ctrl+\\".to_owned()),
        29 => Some("ctrl+]".to_owned()),
        30 => Some("ctrl+^".to_owned()),
        31 => Some("ctrl+_".to_owned()),
        1..=26 => Some(prefixed("ctrl+", code + 96)),
        33..=126 => Some(printable_name(code).to_owned()),
        _ => None,
    }
}

/// Names the two bytes `ESC code`.
pub fn parse_esc_pair(code: u8, kitty_protocol_active: bool) -> (r: Option<String>)
    ensures
        string_view(r) == spec_esc_pair(code, kitty_protocol_active),
{
    match code {
        0x7f | 0x08 => {
            return Some("alt+backspace".to_owned());
        },
        0x0d => {
            return Some("alt+enter".to_owned());
        },
        0x09 => {
            return Some("alt+tab".to_owned());
        },
        _ => {},
    }
    if kitty_protocol_active {
        return None;
    }
    match code {
        0x20 => Some("alt+space".to_owned()),
        0x42 => Some("alt+left".to_owned()),
        0x46 => Some("alt+right".to_owned()),
        1..=26 => {
            let mut result = String::new();
            result.append("ctrl+");
            result.append("alt+");
            result.append(printable_name(code + 96));
            assert(result@ =~= "ctrl+"@ + "alt+"@ + spec_printable_name((code + 96) as u8));
            Some(result)
        },
        0x61..=0x7a => Some(prefixed("alt+", code)),
        _ => None,
    }
}

} // verus!
