//! Decoding of the Kitty keyboard protocol's CSI sequences.
//!
//! Three grammars share the prefix `ESC [` and are told apart by their final
//! byte: `CSI ... u`, `CSI ... ~` and `CSI 1 ; ... <letter>`. Each is
//! modelled by a spec function over `Seq<u8>`, and each decoder is proved to
//! return exactly what its model gives.

use vstd::prelude::*;
use vstd::utf8::encode_utf8;
use crate::keys::codes::{
    ARROW_DOWN, ARROW_LEFT, ARROW_RIGHT, ARROW_UP, ESC, FUNC_CLEAR, FUNC_DELETE, FUNC_END, FUNC_F1,
    FUNC_F10, FUNC_F11, FUNC_F12, FUNC_F2, FUNC_F3, FUNC_F4, FUNC_F5, FUNC_F6, FUNC_F7, FUNC_F8,
    FUNC_F9, FUNC_HOME, FUNC_INSERT, FUNC_PAGE_DOWN, FUNC_PAGE_UP, spec_strip_locks, strip_locks,
};
use crate::keys::digits::{
    is_digit, lemma_parse_digits_some, parse_digits, parse_optional_digits, spec_parse_digits,
    spec_parse_optional_digits,
};

verus! {

/// A decoded key event.
///
/// `modifier` is the bit mask of the wire's modifier field, which is the
/// field's value less one. `event_type` is 1 for press, 2 for repeat and 3
/// for release, as far as the terminal reported it.
#[derive(Clone, Copy, Debug, PartialEq, Eq)]
pub struct ParsedKittySequence {
    pub codepoint: i32,
    pub shifted_key: Option<i32>,
    pub base_layout_key: Option<i32>,
    pub modifier: u32,
    pub event_type: Option<u32>,
}

/// A decoded key event, as handed to callers outside the library.
#[derive(Clone, Copy, Debug, PartialEq, Eq)]
pub struct ParsedKittyResult {
    pub codepoint: i32,
    pub shifted_key: Option<i32>,
    pub base_layout_key: Option<i32>,
    pub modifier: u32,
    /// 1 = press, 2 = repeat, 3 = release
    pub event_type: Option<u32>,
}

/// The byte at `i` lies inside the window that ends at `end` and is `c`.
pub open spec fn byte_at(s: Seq<u8>, i: int, end: int, c: char) -> bool {
    0 <= i < end && i < s.len() && s[i] == c as u8
}

/// `s` begins with `ESC [`.
pub open spec fn has_csi_prefix(s: Seq<u8>) -> bool {
    s.len() >= 2 && s[0] == ESC && s[1] == '[' as u8
}

/// A value of a digit run as a key code, where it fits.
pub open spec fn as_key_code(v: u32) -> Option<i32> {
    if v <= i32::MAX {
        Some(v as i32)
    } else {
        None
    }
}

/// The optional group `: <shifted> [ : <base> ]` read at `i`: the shifted
/// key, the base-layout key and the index after the group.
///
/// Without a colon at `i` the group is absent. The shifted key may be
/// empty; a base-layout key that is announced by a second colon must be
/// there and must fit.
pub open spec fn spec_alternate_keys(s: Seq<u8>, i: int, end: int) -> Option<
    (Option<i32>, Option<i32>, int),
> {
    if !byte_at(s, i, end, ':') {
        Some((None, None, i))
    } else {
        let (shifted_value, i1) = spec_parse_optional_digits(s, i + 1, end);
        let shifted = match shifted_value {
            Some(v) => as_key_code(v),
            None => None,
        };
        if !byte_at(s, i1, end, ':') {
            Some((shifted, None, i1))
        } else {
            match spec_parse_digits(s, i1 + 1, end) {
                Some((base, i2)) => match as_key_code(base) {
                    Some(b) => Some((shifted, Some(b), i2)),
                    None => None,
                },
                None => None,
            }
        }
    }
}

/// An optional event type `: <digits>` read at `i`.
pub open spec fn spec_event_type(s: Seq<u8>, i: int, end: int) -> Option<(Option<u32>, int)> {
    if !byte_at(s, i, end, ':') {
        Some((None, i))
    } else {
        match spec_parse_digits(s, i + 1, end) {
            Some((ev, i1)) => Some((Some(ev), i1)),
            None => None,
        }
    }
}

/// The optional group `; [<mods>] [ : <event-type> ]` of the `u` form read
/// at `i`: the raw value of the modifier field, the event type and the index
/// after the group. An absent or empty modifier field counts as 1.
pub open spec fn spec_modifier_group(s: Seq<u8>, i: int, end: int) -> Option<
    (u32, Option<u32>, int),
> {
    if !byte_at(s, i, end, ';') {
        Some((1u32, None, i))
    } else {
        let mods = if i + 1 < end && i + 1 < s.len() && is_digit(s[i + 1]) {
            spec_parse_digits(s, i + 1, end)
        } else {
            Some((1u32, i + 1))
        };
        match mods {
            Some((raw, i1)) => match spec_event_type(s, i1, end) {
                Some((ev, i2)) => Some((raw, ev, i2)),
                None => None,
            },
            None => None,
        }
    }
}

/// The text field `s[start..end)` is well formed: it holds digits and colons
/// only, and each of its digit runs fits in 32 bits.
pub open spec fn text_field_ok(s: Seq<u8>, start: int, end: int) -> bool {
    forall|k: int|
        start <= k < end ==> {
            &&& (#[trigger] s[k] == ':' as u8 || is_digit(s[k]))
            &&& (is_digit(s[k]) && (k == start || !is_digit(s[k - 1]))) ==> spec_parse_digits(
                s,
                k,
                end,
            ) is Some
        }
}

/// The optional group `; <text-as-codepoints>` read at `i`: the index after
/// it. The field's values are not kept.
pub open spec fn spec_text_group(s: Seq<u8>, i: int, end: int) -> Option<int> {
    if !byte_at(s, i, end, ';') {
        Some(i)
    } else if text_field_ok(s, i + 1, end) {
        Some(end)
    } else {
        None
    }
}

/// The event that a `CSI ... u` sequence stands for.
///
/// The grammar is
/// `CSI <codepoint> [ : [<shifted>] [ : <base> ] ] [ ; [<mods>] [ : <event> ] ] [ ; <text> ] u`.
/// Decoding fails where the groups do not end exactly at the final `u`, and
/// where the modifier field has the value 0.
pub open spec fn spec_parse_csi_u(s: Seq<u8>) -> Option<ParsedKittySequence> {
    let end = s.len() - 1;
    if !(s.len() >= 4 && has_csi_prefix(s) && s[end] == 'u' as u8) {
        None
    } else {
        match spec_parse_digits(s, 2, end) {
            None => None,
            Some((cp, i1)) => match (as_key_code(cp), spec_alternate_keys(s, i1, end)) {
                (Some(codepoint), Some((shifted_key, base_layout_key, i2))) => match spec_modifier_group(
                    s,
                    i2,
                    end,
                ) {
                    Some((raw, event_type, i3)) => match spec_text_group(s, i3, end) {
                        Some(i4) => if i4 == end && raw != 0 {
                            Some(
                                ParsedKittySequence {
                                    codepoint,
                                    shifted_key,
                                    base_layout_key,
                                    modifier: (raw - 1) as u32,
                                    event_type,
                                },
                            )
                        } else {
                            None
                        },
                        None => None,
                    },
                    None => None,
                },
                _ => None,
            },
        }
    }
}

/// The key that the number of a `CSI <number> ~` sequence stands for.
pub open spec fn functional_key(n: u32) -> Option<i32> {
    if n == 2 {
        Some(FUNC_INSERT)
    } else if n == 3 {
        Some(FUNC_DELETE)
    } else if n == 5 {
        Some(FUNC_PAGE_UP)
    } else if n == 6 {
        Some(FUNC_PAGE_DOWN)
    } else if n == 1 || n == 7 {
        Some(FUNC_HOME)
    } else if n == 4 || n == 8 {
        Some(FUNC_END)
    } else if n == 11 {
        Some(FUNC_F1)
    } else if n == 12 {
        Some(FUNC_F2)
    } else if n == 13 {
        Some(FUNC_F3)
    } else if n == 14 {
        Some(FUNC_F4)
    } else if n == 15 {
        Some(FUNC_F5)
    } else if n == 17 {
        Some(FUNC_F6)
    } else if n == 18 {
        Some(FUNC_F7)
    } else if n == 19 {
        Some(FUNC_F8)
    } else if n == 20 {
        Some(FUNC_F9)
    } else if n == 21 {
        Some(FUNC_F10)
    } else if n == 23 {
        Some(FUNC_F11)
    } else if n == 24 {
        Some(FUNC_F12)
    } else {
        None
    }
}

/// The optional field `; <mods>` of the `~` form read at `i`: its raw value
/// and the index after it. Once announced by a semicolon the value must be
/// there; an absent field counts as 1.
pub open spec fn spec_modifier_field(s: Seq<u8>, i: int, end: int) -> Option<(u32, int)> {
    if !byte_at(s, i, end, ';') {
        Some((1u32, i))
    } else {
        spec_parse_digits(s, i + 1, end)
    }
}

/// The event that a `CSI <number> [ ; <mods> ] [ : <event> ] ~` sequence
/// stands for.
pub open spec fn spec_parse_functional(s: Seq<u8>) -> Option<ParsedKittySequence> {
    let end = s.len() - 1;
    if !(s.len() >= 4 && has_csi_prefix(s) && s[end] == '~' as u8) {
        None
    } else {
        match spec_parse_digits(s, 2, end) {
            None => None,
            Some((number, i1)) => match spec_modifier_field(s, i1, end) {
                None => None,
                Some((raw, i2)) => match spec_event_type(s, i2, end) {
                    None => None,
                    Some((event_type, i3)) => match functional_key(number) {
                        Some(codepoint) => if i3 == end && raw != 0 {
                            Some(
                                ParsedKittySequence {
                                    codepoint,
                                    shifted_key: None,
                                    base_layout_key: None,
                                    modifier: (raw - 1) as u32,
                                    event_type,
                                },
                            )
                        } else {
                            None
                        },
                        None => None,
                    },
                },
            },
        }
    }
}

/// The key that the final letter of a `CSI 1 ; <mods> <letter>` sequence
/// stands for.
pub open spec fn letter_key(b: u8) -> Option<i32> {
    if b == 'A' as u8 {
        Some(ARROW_UP)
    } else if b == 'B' as u8 {
        Some(ARROW_DOWN)
    } else if b == 'C' as u8 {
        Some(ARROW_RIGHT)
    } else if b == 'D' as u8 {
        Some(ARROW_LEFT)
    } else if b == 'H' as u8 {
        Some(FUNC_HOME)
    } else if b == 'F' as u8 {
        Some(FUNC_END)
    } else if b == 'E' as u8 {
        Some(FUNC_CLEAR)
    } else if b == 'P' as u8 {
        Some(FUNC_F1)
    } else if b == 'Q' as u8 {
        Some(FUNC_F2)
    } else if b == 'R' as u8 {
        Some(FUNC_F3)
    } else if b == 'S' as u8 {
        Some(FUNC_F4)
    } else {
        None
    }
}

/// The event that a `CSI 1 ; <mods> [ : <event> ] <letter>` sequence stands
/// for. Exactly one byte, the letter, follows the fields.
pub open spec fn spec_parse_csi_1_letter(s: Seq<u8>) -> Option<ParsedKittySequence> {
    let end = s.len() as int;
    if !(s.len() >= 4 && has_csi_prefix(s) && s[2] == '1' as u8 && s[3] == ';' as u8) {
        None
    } else {
        match spec_parse_digits(s, 4, end) {
            None => None,
            Some((raw, i1)) => match spec_event_type(s, i1, end) {
                None => None,
                Some((event_type, i2)) => if i2 + 1 == end && raw != 0 {
                    match letter_key(s[i2]) {
                        Some(codepoint) => Some(
                            ParsedKittySequence {
                                codepoint,
                                shifted_key: None,
                                base_layout_key: None,
                                modifier: (raw - 1) as u32,
                                event_type,
                            },
                        ),
                        None => None,
                    }
                } else {
                    None
                },
            },
        }
    }
}

/// The event that a sequence of the Kitty protocol stands for: the grammar
/// is chosen by the final byte.
pub open spec fn spec_parse_kitty_sequence(s: Seq<u8>) -> Option<ParsedKittySequence> {
    if !(s.len() >= 4 && has_csi_prefix(s)) {
        None
    } else if s.last() == 'u' as u8 {
        spec_parse_csi_u(s)
    } else if s.last() == '~' as u8 {
        spec_parse_functional(s)
    } else if letter_key(s.last()) is Some {
        spec_parse_csi_1_letter(s)
    } else {
        None
    }
}

/// Whether a decoded event is the key `codepoint` with the modifiers
/// `modifier`: the masks agree once their lock bits are cleared, and the
/// event's codepoint or its base-layout key is the one asked for.
pub open spec fn spec_kitty_matches(
    parsed: Option<ParsedKittySequence>,
    codepoint: i32,
    modifier: u32,
) -> bool {
    match parsed {
        Some(p) => spec_strip_locks(p.modifier) == spec_strip_locks(modifier) && (p.codepoint
            == codepoint || p.base_layout_key == Some(codepoint)),
        None => false,
    }
}

fn key_code(v: u32) -> (r: Option<i32>)
    ensures
        r == as_key_code(v),
{
    if v <= 0x7fff_ffff {
        Some(v as i32)
    } else {
        None
    }
}

fn is_at(bytes: &[u8], i: usize, end: usize, c: char) -> (r: bool)
    requires
        c as u32 <= 255,
        end <= bytes.len(),
    ensures
        r == byte_at(bytes@, i as int, end as int, c),
{
    i < end && bytes[i] == c as u8
}

fn read_event_type(bytes: &[u8], i: usize, end: usize) -> (r: Option<(Option<u32>, usize)>)
    requires
        i <= end <= bytes.len(),
    ensures
        match r {
            Some((ev, next)) => spec_event_type(bytes@, i as int, end as int) == Some(
                (ev, next as int),
            ) && i <= next <= end,
            None => spec_event_type(bytes@, i as int, end as int) is None,
        },
{
    if !is_at(bytes, i, end, ':') {
        return Some((None, i));
    }
    match parse_digits(bytes, i + 1, end) {
        Some((ev, next)) => {
            proof {
                lemma_parse_digits_some(bytes@, i as int + 1, end as int);
            }
            Some((Some(ev), next))
        },
        None => None,
    }
}

fn read_alternate_keys(bytes: &[u8], i: usize, end: usize) -> (r: Option<
    (Option<i32>, Option<i32>, usize),
>)
    requires
        i <= end <= bytes.len(),
    ensures
        match r {
            Some((shifted, base, next)) => spec_alternate_keys(bytes@, i as int, end as int)
                == Some((shifted, base, next as int)) && i <= next <= end,
            None => spec_alternate_keys(bytes@, i as int, end as int) is None,
        },
{
    if !is_at(bytes, i, end, ':') {
        return Some((None, None, i));
    }
    let (shifted_value, i1) = parse_optional_digits(bytes, i + 1, end);
    proof {
        if spec_parse_digits(bytes@, i as int + 1, end as int) is Some {
            lemma_parse_digits_some(bytes@, i as int + 1, end as int);
        }
    }
    let shifted = match shifted_value {
        Some(v) => key_code(v),
        None => None,
    };
    if !is_at(bytes, i1, end, ':') {
        return Some((shifted, None, i1));
    }
    match parse_digits(bytes, i1 + 1, end) {
        Some((base, i2)) => {
            proof {
                lemma_parse_digits_some(bytes@, i1 as int + 1, end as int);
            }
            match key_code(base) {
                Some(b) => Some((shifted, Some(b), i2)),
                None => None,
            }
        },
        None => None,
    }
}

fn read_modifier_group(bytes: &[u8], i: usize, end: usize) -> (r: Option<
    (u32, Option<u32>, usize),
>)
    requires
        i <= end <= bytes.len(),
    ensures
        match r {
            Some((raw, ev, next)) => spec_modifier_group(bytes@, i as int, end as int) == Some(
                (raw, ev, next as int),
            ) && i <= next <= end,
            None => spec_modifier_group(bytes@, i as int, end as int) is None,
        },
{
    if !is_at(bytes, i, end, ';') {
        return Some((1, None, i));
    }
    let mut raw: u32 = 1;
    let mut i1: usize = i + 1;
    if i1 < end && bytes[i1] >= 0x30 && bytes[i1] <= 0x39 {
        match parse_digits(bytes, i1, end) {
            Some((v, next)) => {
                proof {
                    lemma_parse_digits_some(bytes@, i as int + 1, end as int);
                }
                raw = v;
                i1 = next;
            },
            None => {
                return None;
            },
        }
    }
    match read_event_type(bytes, i1, end) {
        Some((ev, i2)) => Some((raw, ev, i2)),
        None => None,
    }
}

fn check_text_field(bytes: &[u8], start: usize, end: usize) -> (r: bool)
    requires
        start <= end <= bytes.len(),
    ensures
        r == text_field_ok(bytes@, start as int, end as int),
{
    let ghost s = bytes@;
    let mut idx: usize = start;
    while idx < end
        invariant
            s == bytes@,
            start <= idx <= end <= bytes.len(),
            forall|k: int|
                start <= k < idx ==> {
                    &&& (#[trigger] s[k] == ':' as u8 || is_digit(s[k]))
                    &&& (is_digit(s[k]) && (k == start || !is_digit(s[k - 1])))
                        ==> spec_parse_digits(s, k, end as int) is Some
                },
            idx == start || idx == end || !is_digit(s[idx - 1]) || !is_digit(s[idx as int]),
        decreases end - idx,
    {
        if bytes[idx] == ':' as u8 {
            idx += 1;
        } else {
            match parse_digits(bytes, idx, end) {
                Some((_, next)) => {
                    proof {
                        lemma_parse_digits_some(s, idx as int, end as int);
                    }
                    idx = next;
                },
                None => {
                    assert(!text_field_ok(s, start as int, end as int)) by {
                        let k = idx as int;
                        assert(!(s[k] == ':' as u8));
                        if is_digit(s[k]) {
                            assert(k == start || !is_digit(s[k - 1]));
                        }
                    }
                    return false;
                },
            }
        }
    }
    true
}

fn read_text_group(bytes: &[u8], i: usize, end: usize) -> (r: Option<usize>)
    requires
        i <= end <= bytes.len(),
    ensures
        match r {
            Some(next) => spec_text_group(bytes@, i as int, end as int) == Some(next as int),
            None => spec_text_group(bytes@, i as int, end as int) is None,
        },
{
    if !is_at(bytes, i, end, ';') {
        Some(i)
    } else if check_text_field(bytes, i + 1, end) {
        Some(end)
    } else {
        None
    }
}

/// Decodes a `CSI ... u` sequence.
pub fn parse_csi_u(bytes: &[u8]) -> (r: Option<ParsedKittySequence>)
    ensures
        r == spec_parse_csi_u(bytes@),
{
    let n = bytes.len();
    if n < 4 || bytes[0] != ESC || bytes[1] != '[' as u8 || bytes[n - 1] != 'u' as u8 {
        return None;
    }
    let end = n - 1;
    let (codepoint, i1) = match parse_digits(bytes, 2, end) {
        Some((cp, next)) => {
            proof {
                lemma_parse_digits_some(bytes@, 2, end as int);
            }
            match key_code(cp) {
                Some(c) => (c, next),
                None => {
                    return None;
                },
            }
        },
        None => {
            return None;
        },
    };
    let (shifted_key, base_layout_key, i2) = match read_alternate_keys(bytes, i1, end) {
        Some(t) => t,
        None => {
            return None;
        },
    };
    let (raw, event_type, i3) = match read_modifier_group(bytes, i2, end) {
        Some(t) => t,
        None => {
            return None;
        },
    };
    let i4 = match read_text_group(bytes, i3, end) {
        Some(next) => next,
        None => {
            return None;
        },
    };
    if i4 != end || raw == 0 {
        return None;
    }
    Some(ParsedKittySequence { codepoint, shifted_key, base_layout_key, modifier: raw - 1, event_type })
}

fn functional_key_code(n: u32) -> (r: Option<i32>)
    ensures
        r == functional_key(n),
{
    match n {
        2 => Some(FUNC_INSERT),
        3 => Some(FUNC_DELETE),
        5 => Some(FUNC_PAGE_UP),
        6 => Some(FUNC_PAGE_DOWN),
        1 | 7 => Some(FUNC_HOME),
        4 | 8 => Some(FUNC_END),
        11 => Some(FUNC_F1),
        12 => Some(FUNC_F2),
        13 => Some(FUNC_F3),
        14 => Some(FUNC_F4),
        15 => Some(FUNC_F5),
        17 => Some(FUNC_F6),
        18 => Some(FUNC_F7),
        19 => Some(FUNC_F8),
        20 => Some(FUNC_F9),
        21 => Some(FUNC_F10),
        23 => Some(FUNC_F11),
        24 => Some(FUNC_F12),
        _ => None,
    }
}

/// Decodes a `CSI <number> ... ~` sequence.
pub fn parse_functional(bytes: &[u8]) -> (r: Option<ParsedKittySequence>)
    ensures
        r == spec_parse_functional(bytes@),
{
    let n = bytes.len();
    if n < 4 || bytes[0] != ESC || bytes[1] != '[' as u8 || bytes[n - 1] != '~' as u8 {
        return None;
    }
    let end = n - 1;
    let (number, i1) = match parse_digits(bytes, 2, end) {
        Some(t) => {
            proof {
                lemma_parse_digits_some(bytes@, 2, end as int);
            }
            t
        },
        None => {
            return None;
        },
    };
    let (raw, i2) = if is_at(bytes, i1, end, ';') {
        match parse_digits(bytes, i1 + 1, end) {
            Some(t) => {
                proof {
                    lemma_parse_digits_some(bytes@, i1 as int + 1, end as int);
                }
                t
            },
            None => {
                return None;
            },
        }
    } else {
        (1, i1)
    };
    let (event_type, i3) = match read_event_type(bytes, i2, end) {
        Some(t) => t,
        None => {
            return None;
        },
    };
    if i3 != end || raw == 0 {
        return None;
    }
    match functional_key_code(number) {
        Some(codepoint) => Some(
            ParsedKittySequence {
                codepoint,
                shifted_key: None,
                base_layout_key: None,
                modifier: raw - 1,
                event_type,
            },
        ),
        None => None,
    }
}

fn letter_key_code(b: u8) -> (r: Option<i32>)
    ensures
        r == letter_key(b),
{
    match b as char {
        'A' => Some(ARROW_UP),
        'B' => Some(ARROW_DOWN),
        'C' => Some(ARROW_RIGHT),
        'D' => Some(ARROW_LEFT),
        'H' => Some(FUNC_HOME),
        'F' => Some(FUNC_END),
        'E' => Some(FUNC_CLEAR),
        'P' => Some(FUNC_F1),
        'Q' => Some(FUNC_F2),
        'R' => Some(FUNC_F3),
        'S' => Some(FUNC_F4),
        _ => None,
    }
}

/// Decodes a `CSI 1 ; <mods> ... <letter>` sequence.
pub fn parse_csi_1_letter(bytes: &[u8]) -> (r: Option<ParsedKittySequence>)
    ensures
        r == spec_parse_csi_1_letter(bytes@),
{
    let end = bytes.len();
    if end < 4 || bytes[0] != ESC || bytes[1] != '[' as u8 || bytes[2] != '1' as u8 || bytes[3]
        != ';' as u8 {
        return None;
    }
    let (raw, i1) = match parse_digits(bytes, 4, end) {
        Some(t) => {
            proof {
                lemma_parse_digits_some(bytes@, 4, end as int);
            }
            t
        },
        None => {
            return None;
        },
    };
    let (event_type, i2) = match read_event_type(bytes, i1, end) {
        Some(t) => t,
        None => {
            return None;
        },
    };
    if end - i2 != 1 || raw == 0 {
        return None;
    }
    match letter_key_code(bytes[i2]) {
        Some(codepoint) => Some(
            ParsedKittySequence {
                codepoint,
                shifted_key: None,
                base_layout_key: None,
                modifier: raw - 1,
                event_type,
            },
        ),
        None => None,
    }
}

/// Decodes a sequence of the Kitty keyboard protocol.
///
/// Returns `None` for every input that is not a complete sequence of one of
/// the three grammars.
pub fn parse_kitty_sequence(bytes: &[u8]) -> (r: Option<ParsedKittySequence>)
    ensures
        r == spec_parse_kitty_sequence(bytes@),
{
    let n = bytes.len();
    if n < 4 || bytes[0] != ESC || bytes[1] != '[' as u8 {
        return None;
    }
    let last = bytes[n - 1];
    if last == 'u' as u8 {
        parse_csi_u(bytes)
    } else if last == '~' as u8 {
        parse_functional(bytes)
    } else if letter_key_code(last).is_some() {
        parse_csi_1_letter(bytes)
    } else {
        None
    }
}

/// Whether a decoded event is the key `codepoint` with the modifiers
/// `modifier`, lock bits aside.
pub fn kitty_matches(parsed: &Option<ParsedKittySequence>, codepoint: i32, modifier: u32) -> (r:
    bool)
    ensures
        r == spec_kitty_matches(*parsed, codepoint, modifier),
{
    match parsed {
        Some(p) => {
            if strip_locks(p.modifier) != strip_locks(modifier) {
                false
            } else {
                p.codepoint == codepoint || match p.base_layout_key {
                    Some(b) => b == codepoint,
                    None => false,
                }
            }
        },
        None => false,
    }
}

/// Whether `data` is a Kitty sequence for the key `expected_codepoint` with
/// the modifiers `expected_modifier`. The Caps-Lock and Num-Lock bits of
/// either mask are ignored.
pub fn matches_kitty_sequence(data: String, expected_codepoint: i32, expected_modifier: u32) -> (r:
    bool)
    ensures
        r == spec_kitty_matches(
            spec_parse_kitty_sequence(encode_utf8(data@)),
            expected_codepoint,
            expected_modifier,
        ),
{
    let parsed = parse_kitty_sequence(data.as_str().as_bytes());
    kitty_matches(&parsed, expected_codepoint, expected_modifier)
}

/// The decoded event of `parsed` in the form that callers outside receive.
pub open spec fn spec_kitty_result(parsed: Option<ParsedKittySequence>) -> Option<
    ParsedKittyResult,
> {
    match parsed {
        Some(p) => Some(
            ParsedKittyResult {
                codepoint: p.codepoint,
                shifted_key: p.shifted_key,
                base_layout_key: p.base_layout_key,
                modifier: p.modifier,
                event_type: p.event_type,
            },
        ),
        None => None,
    }
}

/// Decodes `data` as a sequence of the Kitty keyboard protocol and hands
/// out every field of the event.
pub fn parse_kitty_sequence_napi(data: String) -> (r: Option<ParsedKittyResult>)
    ensures
        r == spec_kitty_result(spec_parse_kitty_sequence(encode_utf8(data@))),
{
    match parse_kitty_sequence(data.as_str().as_bytes()) {
        Some(p) => Some(
            ParsedKittyResult {
                codepoint: p.codepoint,
                shifted_key: p.shifted_key,
                base_layout_key: p.base_layout_key,
                modifier: p.modifier,
                event_type: p.event_type,
            },
        ),
        None => None,
    }
}

} // verus!
