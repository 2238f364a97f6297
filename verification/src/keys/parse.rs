//! Naming of raw input: bytes to canonical key name.

use vstd::prelude::*;
use vstd::utf8::encode_utf8;
use crate::keys::codes::{ESC, spec_strip_locks, strip_locks};
use crate::keys::kitty::{parse_kitty_sequence, spec_parse_kitty_sequence};
use crate::keys::legacy::{legacy_lookup, legacy_name};
use crate::keys::matcher::esc_then2;
use crate::keys::modify_other_keys::{parse_modify_other_keys, spec_parse_modify_other_keys};
use crate::keys::names::{
    canonical_name, format_kitty_key, parse_esc_pair, parse_single_byte, spec_canonical_name,
    spec_esc_pair, spec_format_kitty_key, spec_single_byte, string_view,
};

verus! {

/// The canonical name of the input `s`, or nothing where it is not
/// recognised.
///
/// A single byte is named on its own. Longer input must begin with `ESC`
/// and is tried, in this order, as a legacy sequence, as a modifyOtherKeys
/// sequence, as a Kitty sequence, as a two-byte form with `ESC`, and as one
/// of two fixed sequences that the table does not hold. The first reading
/// that applies decides, also where it yields no name.
pub open spec fn spec_parse_key(s: Seq<u8>, active: bool) -> Option<Seq<char>> {
    if s.len() == 1 {
        spec_single_byte(s[0])
    } else if s.len() == 0 || s[0] != ESC {
        None
    } else if legacy_name(s) is Some {
        legacy_name(s)
    } else if spec_parse_modify_other_keys(s) is Some {
        let (mods, keycode) = spec_parse_modify_other_keys(s)->0;
        spec_canonical_name(keycode, spec_strip_locks(mods))
    } else if spec_parse_kitty_sequence(s) is Some {
        spec_format_kitty_key(spec_parse_kitty_sequence(s)->0)
    } else if s.len() == 2 {
        spec_esc_pair(s[1], active)
    } else if esc_then2(s, '[', 'Z') {
        Some("shift+tab"@)
    } else if esc_then2(s, 'O', 'M') {
        Some("enter"@)
    } else {
        None
    }
}

/// Names the input `bytes`.
///
/// `kitty_protocol_active` tells whether the terminal was asked to speak the
/// Kitty protocol; while it is, `ESC` and a letter is not read as Alt.
/// Returns `None` for input that is not recognised. Every input is
/// accepted: empty, truncated and malformed ones are not recognised.
pub fn parse_key_inner(bytes: &[u8], kitty_protocol_active: bool) -> (r: Option<String>)
    ensures
        string_view(r) == spec_parse_key(bytes@, kitty_protocol_active),
{
    if bytes.len() == 1 {
        return parse_single_byte(bytes[0]);
    }
    if bytes.len() == 0 || bytes[0] != ESC {
        return None;
    }
    match legacy_lookup(bytes) {
        Some(name) => {
            return Some(name.to_owned());
        },
        None => {},
    }
    match parse_modify_other_keys(bytes) {
        Some((mods, keycode)) => {
            return canonical_name(keycode, strip_locks(mods));
        },
        None => {},
    }
    match parse_kitty_sequence(bytes) {
        Some(parsed) => {
            return format_kitty_key(&parsed);
        },
        None => {},
    }
    if bytes.len() == 2 {
        return parse_esc_pair(bytes[1], kitty_protocol_active);
    }
    if bytes.len() == 3 && bytes[1] == '[' as u8 && bytes[2] == 'Z' as u8 {
        Some("shift+tab".to_owned())
    } else if bytes.len() == 3 && bytes[1] == 'O' as u8 && bytes[2] == 'M' as u8 {
        Some("enter".to_owned())
    } else {
        None
    }
}

/// Names the input `data`: its canonical key name, or `None` where the
/// input is not recognised.
pub fn parse_key(data: String, kitty_protocol_active: bool) -> (r: Option<String>)
    ensures
        string_view(r) == spec_parse_key(encode_utf8(data@), kitty_protocol_active),
{
    parse_key_inner(data.as_str().as_bytes(), kitty_protocol_active)
}

} // verus!
