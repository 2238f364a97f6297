//! Decoding of xterm's modifyOtherKeys sequences.

use vstd::prelude::*;
use crate::keys::codes::{ESC, spec_strip_locks, strip_locks};
use crate::keys::digits::{lemma_parse_digits_some, parse_digits, spec_parse_digits};
use crate::keys::kitty::{as_key_code, byte_at};

verus! {

/// `s` begins with `ESC [ 2 7 ;`.
pub open spec fn has_modify_other_keys_prefix(s: Seq<u8>) -> bool {
    &&& s.len() >= 5
    &&& s[0] == ESC
    &&& s[1] == '[' as u8
    &&& s[2] == '2' as u8
    &&& s[3] == '7' as u8
    &&& s[4] == ';' as u8
}

/// The modifier mask and the key code that a sequence
/// `CSI 27 ; <mods> ; <keycode> [~]` stands for.
///
/// A final `~` is optional. Decoding fails where a digit run is missing,
/// where bytes follow the key code, and where the modifier field is 0. The
/// mask is the field's value less one.
pub open spec fn spec_parse_modify_other_keys(s: Seq<u8>) -> Option<(u32, i32)> {
    if !(s.len() >= 7 && has_modify_other_keys_prefix(s)) {
        None
    } else {
        let end = if s.last() == '~' as u8 {
            s.len() - 1
        } else {
            s.len() as int
        };
        match spec_parse_digits(s, 5, end) {
            None => None,
            Some((raw, i1)) => if !byte_at(s, i1, end, ';') {
                None
            } else {
                match spec_parse_digits(s, i1 + 1, end) {
                    None => None,
                    Some((code, i2)) => match as_key_code(code) {
                        Some(keycode) => if i2 == end && raw != 0 {
                            Some(((raw - 1) as u32, keycode))
                        } else {
                            None
                        },
                        None => None,
                    },
                }
            },
        }
    }
}

/// Whether a decoded modifyOtherKeys sequence is the key `keycode` with
/// the modifiers `modifier`: the key codes are equal, and the masks agree
/// once their lock bits are cleared, as for a Kitty event.
pub open spec fn spec_mok_matches(parsed: Option<(u32, i32)>, keycode: i32, modifier: u32) -> bool {
    match parsed {
        Some((m, k)) => k == keycode && spec_strip_locks(m) == spec_strip_locks(modifier),
        None => false,
    }
}

/// Decodes a modifyOtherKeys sequence into its modifier mask and key code.
pub fn parse_modify_other_keys(bytes: &[u8]) -> (r: Option<(u32, i32)>)
    ensures
        r == spec_parse_modify_other_keys(bytes@),
{
    let n = bytes.len();
    if n < 7 || bytes[0] != ESC || bytes[1] != '[' as u8 || bytes[2] != '2' as u8 || bytes[3]
        != '7' as u8 || bytes[4] != ';' as u8 {
        return None;
    }
    let end = if bytes[n - 1] == '~' as u8 {
        n - 1
    } else {
        n
    };
    let (raw, i1) = match parse_digits(bytes, 5, end) {
        Some(t) => {
            proof {
                lemma_parse_digits_some(bytes@, 5, end as int);
            }
            t
        },
        None => {
            return None;
        },
    };
    if i1 >= end || bytes[i1] != ';' as u8 {
        return None;
    }
    let (code, i2) = match parse_digits(bytes, i1 + 1, end) {
        Some(t) => t,
        None => {
            return None;
        },
    };
    if i2 != end || raw == 0 || code > 0x7fff_ffff {
        return None;
    }
    Some((raw - 1, code as i32))
}

/// Whether a decoded modifyOtherKeys sequence is the key `keycode` with the
/// modifiers `modifier`, lock bits aside.
pub fn mok_matches(parsed: &Option<(u32, i32)>, keycode: i32, modifier: u32) -> (r: bool)
    ensures
        r == spec_mok_matches(*parsed, keycode, modifier),
{
    match parsed {
        Some((m, k)) => *k == keycode && strip_locks(*m) == strip_locks(modifier),
        None => false,
    }
}

/// Whether `bytes` is a modifyOtherKeys sequence for the key
/// `expected_keycode` with the modifiers `expected_modifier`. The Caps-Lock
/// and Num-Lock bits of either mask are ignored.
pub fn matches_modify_other_keys(bytes: &[u8], expected_keycode: i32, expected_modifier: u32) -> (r:
    bool)
    ensures
        r == spec_mok_matches(
            spec_parse_modify_other_keys(bytes@),
            expected_keycode,
            expected_modifier,
        ),
{
    let parsed = parse_modify_other_keys(bytes);
    mok_matches(&parsed, expected_keycode, expected_modifier)
}

} // verus!
