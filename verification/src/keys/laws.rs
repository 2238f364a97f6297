//! Laws that hold of the decoders and matchers, proved over their models.

use vstd::prelude::*;
use crate::keys::codes::{ESC, spec_strip_locks};
use crate::keys::digits::{
    decimal_digits, digit_run_end, is_digit, lemma_decimal_digits_are_digits,
    lemma_digit_run_bounds, lemma_digit_run_continues, lemma_digit_run_stays_before,
    lemma_parse_decimal_digits, lemma_parse_zeros, lemma_zeros_have_value_zero,
    spec_parse_digits, spec_parse_optional_digits,
};
use crate::keys::kitty::{
    ParsedKittySequence, byte_at, functional_key, letter_key, spec_alternate_keys,
    spec_event_type, spec_kitty_matches, spec_modifier_field, spec_modifier_group,
    spec_parse_csi_1_letter, spec_parse_csi_u, spec_parse_functional, spec_parse_kitty_sequence,
    spec_text_group,
};
use crate::keys::legacy::{esc_pair, legacy_name, spec_matches_legacy_key};
use crate::keys::matcher::{KeyToken, function_name, spec_matches_token};
use crate::keys::modify_other_keys::{spec_mok_matches, spec_parse_modify_other_keys};
use crate::keys::names::spec_canonical_name;
use crate::keys::parse::spec_parse_key;

verus! {

/// Every sequence of the legacy table is named by `parse_key` exactly as
/// the table names it, whether or not the Kitty protocol is active, and
/// matches that name as a legacy sequence.
pub proof fn law_legacy_sequences_parse_to_their_names(s: Seq<u8>, name: Seq<char>, active: bool)
    requires
        legacy_name(s) == Some(name),
    ensures
        spec_parse_key(s, active) == Some(name),
        spec_matches_legacy_key(s, name),
{
}

/// A control byte from 1 to 26 is named `ctrl+` and its letter, but for
/// the four bytes that are Backspace, Tab and the two forms of Enter.
pub proof fn law_control_bytes_name_ctrl_letters(b: u8, active: bool)
    requires
        1 <= b <= 26,
        b != 0x08,
        b != 0x09,
        b != 0x0a,
        b != 0x0d,
    ensures
        spec_parse_key(seq![b], active) == Some("ctrl+"@ + seq![(b + 96) as char]),
{
}

/// The lock bits of the expected mask never change whether an input
/// matches a key, under either decoding: a mask and the same mask with
/// Caps-Lock and Num-Lock set give the same answer.
pub proof fn law_lock_bits_do_not_matter(s: Seq<u8>, codepoint: i32, modifier: u32)
    ensures
        spec_kitty_matches(spec_parse_kitty_sequence(s), codepoint, modifier)
            == spec_kitty_matches(spec_parse_kitty_sequence(s), codepoint, modifier | 64 | 128),
        spec_mok_matches(spec_parse_modify_other_keys(s), codepoint, modifier) == spec_mok_matches(
            spec_parse_modify_other_keys(s),
            codepoint,
            modifier | 64 | 128,
        ),
{
    assert(modifier & !192u32 == (modifier | 64 | 128) & !192u32) by (bit_vector);
}

/// The lock bits that the terminal reports never change whether a decoded
/// input matches a key, under either decoding: an event and the same event
/// with Caps-Lock and Num-Lock held give the same answer.
pub proof fn law_reported_lock_bits_do_not_matter(
    event: ParsedKittySequence,
    mask: u32,
    keycode: i32,
    codepoint: i32,
    modifier: u32,
)
    ensures
        spec_kitty_matches(Some(event), codepoint, modifier) == spec_kitty_matches(
            Some(ParsedKittySequence { modifier: event.modifier | 64 | 128, ..event }),
            codepoint,
            modifier,
        ),
        spec_mok_matches(Some((mask, keycode)), codepoint, modifier) == spec_mok_matches(
            Some((mask | 64 | 128, keycode)),
            codepoint,
            modifier,
        ),
{
    let m = event.modifier;
    assert(m & !192u32 == (m | 64 | 128) & !192u32) by (bit_vector);
    assert(mask & !192u32 == (mask | 64 | 128) & !192u32) by (bit_vector);
}

/// The two decodings are compared alike: a modifyOtherKeys sequence and a
/// Kitty event of the same key and the same mask match the same keys and
/// masks, where the event has no base-layout key.
pub proof fn law_both_decodings_compare_alike(
    mask: u32,
    keycode: i32,
    codepoint: i32,
    modifier: u32,
)
    ensures
        spec_mok_matches(Some((mask, keycode)), codepoint, modifier) == spec_kitty_matches(
            Some(
                ParsedKittySequence {
                    codepoint: keycode,
                    shifted_key: None,
                    base_layout_key: None,
                    modifier: mask,
                    event_type: None,
                },
            ),
            codepoint,
            modifier,
        ),
{
}

/// The `CSI u` encoding of a key with a modifier mask: the key's code, a
/// semicolon, and the mask plus one.
pub open spec fn encode_csi_u(codepoint: nat, modifier: nat) -> Seq<u8> {
    seq![ESC, '[' as u8] + decimal_digits(codepoint) + seq![';' as u8] + decimal_digits(
        modifier + 1,
    ) + seq!['u' as u8]
}

/// The shape of an encoding: where its fields lie.
proof fn lemma_encode_csi_u_shape(codepoint: nat, modifier: nat)
    ensures
        ({
            let a = decimal_digits(codepoint);
            let b = decimal_digits(modifier + 1);
            let s = encode_csi_u(codepoint, modifier);
            let la = a.len() as int;
            let end = 3 + la + b.len();
            &&& la >= 1
            &&& b.len() >= 1
            &&& s.len() == end + 1
            &&& s[0] == ESC
            &&& s[1] == '[' as u8
            &&& s.subrange(2, 2 + la) == a
            &&& s[2 + la] == ';' as u8
            &&& s.subrange(3 + la, end) == b
            &&& is_digit(s[3 + la])
            &&& s[end] == 'u' as u8
            &&& s.last() == 'u' as u8
        }),
{
    let a = decimal_digits(codepoint);
    let b = decimal_digits(modifier + 1);
    let s = encode_csi_u(codepoint, modifier);
    let la = a.len() as int;
    let end = 3 + la + b.len();
    lemma_decimal_digits_are_digits(codepoint);
    lemma_decimal_digits_are_digits(modifier + 1);
    assert(s.len() == end + 1);
    assert(s.subrange(2, 2 + la) =~= a);
    assert(s.subrange(3 + la, end) =~= b);
    assert(s[3 + la] == b[0]);
}

/// Decoding inverts encoding: the `CSI u` encoding of a key and a mask
/// decodes to that key and that mask, with no alternate keys and no event
/// type.
pub proof fn law_csi_u_decodes_its_encoding(codepoint: i32, modifier: u32)
    requires
        codepoint >= 0,
        modifier < u32::MAX,
    ensures
        spec_parse_kitty_sequence(encode_csi_u(codepoint as nat, modifier as nat)) == Some(
            ParsedKittySequence {
                codepoint,
                shifted_key: None,
                base_layout_key: None,
                modifier,
                event_type: None,
            },
        ),
{
    let s = encode_csi_u(codepoint as nat, modifier as nat);
    let la = decimal_digits(codepoint as nat).len() as int;
    let end = s.len() - 1;
    lemma_encode_csi_u_shape(codepoint as nat, modifier as nat);
    lemma_parse_decimal_digits(s, 2, end, codepoint as nat);
    lemma_parse_decimal_digits(s, 3 + la, end, modifier as nat + 1);
    let i = 2 + la;
    assert(spec_parse_digits(s, 2, end) == Some((codepoint as u32, i)));
    assert(spec_alternate_keys(s, i, end) == Some((None::<i32>, None::<i32>, i)));
    assert(spec_event_type(s, end, end) == Some((None::<u32>, end)));
    assert(spec_modifier_group(s, i, end) == Some(((modifier + 1) as u32, None::<u32>, end)));
    assert(spec_text_group(s, end, end) == Some(end));
    assert(spec_parse_csi_u(s) == Some(
        ParsedKittySequence {
            codepoint,
            shifted_key: None,
            base_layout_key: None,
            modifier,
            event_type: None,
        },
    ));
}

/// Round trip: the `CSI u` encoding of a key and a mask is named by
/// `parse_key` with the canonical name of that key under that mask, lock
/// bits aside. Where the key has no name the encoding has none.
pub proof fn law_csi_u_round_trip(codepoint: i32, modifier: u32, active: bool)
    requires
        codepoint >= 0,
        modifier < u32::MAX,
    ensures
        spec_parse_key(encode_csi_u(codepoint as nat, modifier as nat), active)
            == spec_canonical_name(codepoint, spec_strip_locks(modifier)),
{
    let a = decimal_digits(codepoint as nat);
    let s = encode_csi_u(codepoint as nat, modifier as nat);
    let la = a.len() as int;
    let end = s.len() - 1;
    law_csi_u_decodes_its_encoding(codepoint, modifier);
    lemma_encode_csi_u_shape(codepoint as nat, modifier as nat);
    assert(legacy_name(s) is None);
    assert(spec_parse_modify_other_keys(s) is None) by {
        if s.len() >= 7 && s[2] == '2' as u8 && s[3] == '7' as u8 && s[4] == ';' as u8 {
            // The key is Escape itself: behind the mask stands `u`, not the
            // second semicolon of the other grammar.
            assert(la == 2) by {
                assert(forall|k: int| 0 <= k < la ==> s[2 + k] == a[k]);
                lemma_decimal_digits_are_digits(codepoint as nat);
            }
            lemma_parse_decimal_digits(s, 5, s.len() as int, modifier as nat + 1);
        }
    }
}

/// The `CSI ~` encoding of a functional key with a modifier mask: the
/// key's number, a semicolon, and the mask plus one.
pub open spec fn encode_functional(number: nat, modifier: nat) -> Seq<u8> {
    seq![ESC, '[' as u8] + decimal_digits(number) + seq![';' as u8] + decimal_digits(modifier + 1)
        + seq!['~' as u8]
}

/// The shape of a `CSI ~` encoding: where its fields lie.
proof fn lemma_encode_functional_shape(number: nat, modifier: nat)
    ensures
        ({
            let a = decimal_digits(number);
            let b = decimal_digits(modifier + 1);
            let s = encode_functional(number, modifier);
            let la = a.len() as int;
            let end = 3 + la + b.len();
            &&& la >= 1
            &&& b.len() >= 1
            &&& s.len() == end + 1
            &&& s[0] == ESC
            &&& s[1] == '[' as u8
            &&& s.subrange(2, 2 + la) == a
            &&& s[2] == a[0]
            &&& s[2 + la] == ';' as u8
            &&& s.subrange(3 + la, end) == b
            &&& s[end] == '~' as u8
            &&& s.last() == '~' as u8
        }),
{
    let a = decimal_digits(number);
    let b = decimal_digits(modifier + 1);
    let s = encode_functional(number, modifier);
    let la = a.len() as int;
    let end = 3 + la + b.len();
    lemma_decimal_digits_are_digits(number);
    lemma_decimal_digits_are_digits(modifier + 1);
    assert(s.len() == end + 1);
    assert(s.subrange(2, 2 + la) =~= a);
    assert(s.subrange(3 + la, end) =~= b);
}

/// Round trip for the functional keys: the `CSI ~` encoding of a key's
/// number and a mask decodes to that key and that mask, and `parse_key`
/// names it with the key's canonical name under that mask, lock bits aside.
pub proof fn law_functional_round_trip(number: u32, modifier: u32, active: bool)
    requires
        functional_key(number) is Some,
        modifier < u32::MAX,
    ensures
        spec_parse_kitty_sequence(encode_functional(number as nat, modifier as nat)) == Some(
            ParsedKittySequence {
                codepoint: functional_key(number)->0,
                shifted_key: None,
                base_layout_key: None,
                modifier,
                event_type: None,
            },
        ),
        spec_parse_key(encode_functional(number as nat, modifier as nat), active)
            == spec_canonical_name(functional_key(number)->0, spec_strip_locks(modifier)),
{
    let s = encode_functional(number as nat, modifier as nat);
    let la = decimal_digits(number as nat).len() as int;
    let end = s.len() - 1;
    let i = 2 + la;
    lemma_encode_functional_shape(number as nat, modifier as nat);
    lemma_parse_decimal_digits(s, 2, end, number as nat);
    lemma_parse_decimal_digits(s, 3 + la, end, modifier as nat + 1);
    assert(spec_parse_digits(s, 2, end) == Some((number, i)));
    assert(spec_modifier_field(s, i, end) == Some(((modifier + 1) as u32, end)));
    assert(spec_event_type(s, end, end) == Some((None::<u32>, end)));
    assert(spec_parse_functional(s) == Some(
        ParsedKittySequence {
            codepoint: functional_key(number)->0,
            shifted_key: None,
            base_layout_key: None,
            modifier,
            event_type: None,
        },
    ));
    assert(legacy_name(s) is None);
    assert(spec_parse_modify_other_keys(s) is None) by {
        if s.len() >= 7 && s[2] == '2' as u8 && s[3] == '7' as u8 {
            // No functional key has a number that begins with 27.
            lemma_number_of_functional_key(number);
        }
    }
}

/// The number of a functional key spells with one digit, or with two of
/// which the first is `1` or the second is not `7`.
proof fn lemma_number_of_functional_key(number: u32)
    requires
        functional_key(number) is Some,
    ensures
        ({
            let d = decimal_digits(number as nat);
            d.len() == 1 || (d.len() == 2 && !(d[0] == '2' as u8 && d[1] == '7' as u8))
        }),
{
    let n = number as nat;
    if n >= 10 {
        assert(n / 10 < 10);
        assert(decimal_digits(n) == decimal_digits(n / 10).push((0x30 + n % 10) as u8));
        assert(decimal_digits(n / 10) == seq![(0x30 + n / 10) as u8]);
    }
}

/// The `CSI 1 ; <mods> <letter>` encoding of a key with a modifier mask.
pub open spec fn encode_letter(letter: u8, modifier: nat) -> Seq<u8> {
    seq![ESC, '[' as u8, '1' as u8, ';' as u8] + decimal_digits(modifier + 1) + seq![letter]
}

/// Round trip for the keys with a final letter: the encoding of a letter
/// and a mask decodes to the letter's key and that mask, and `parse_key`
/// names it with the key's canonical name under that mask, lock bits aside.
pub proof fn law_letter_round_trip(letter: u8, modifier: u32, active: bool)
    requires
        letter_key(letter) is Some,
        modifier < u32::MAX,
    ensures
        spec_parse_kitty_sequence(encode_letter(letter, modifier as nat)) == Some(
            ParsedKittySequence {
                codepoint: letter_key(letter)->0,
                shifted_key: None,
                base_layout_key: None,
                modifier,
                event_type: None,
            },
        ),
        spec_parse_key(encode_letter(letter, modifier as nat), active) == spec_canonical_name(
            letter_key(letter)->0,
            spec_strip_locks(modifier),
        ),
{
    let b = decimal_digits(modifier as nat + 1);
    let s = encode_letter(letter, modifier as nat);
    let end = s.len() as int;
    lemma_decimal_digits_are_digits(modifier as nat + 1);
    assert(s.len() == 5 + b.len());
    assert(s[0] == ESC && s[1] == '[' as u8 && s[2] == '1' as u8 && s[3] == ';' as u8);
    assert(s.subrange(4, end - 1) =~= b);
    assert(s[end - 1] == letter);
    assert(s.last() == letter);
    lemma_parse_decimal_digits(s, 4, end, modifier as nat + 1);
    assert(spec_parse_digits(s, 4, end) == Some(((modifier + 1) as u32, end - 1)));
    assert(spec_event_type(s, end - 1, end) == Some((None::<u32>, end - 1)));
    assert(spec_parse_csi_1_letter(s) == Some(
        ParsedKittySequence {
            codepoint: letter_key(letter)->0,
            shifted_key: None,
            base_layout_key: None,
            modifier,
            event_type: None,
        },
    ));
    assert(legacy_name(s) is None);
    assert(spec_parse_modify_other_keys(s) is None);
}

/// Whether every byte of `z` is the digit zero, and there is one.
pub open spec fn all_zeros(z: Seq<u8>) -> bool {
    z.len() > 0 && forall|i: int| 0 <= i < z.len() ==> #[trigger] z[i] == '0' as u8
}

/// A sequence `ESC [ 27 ; <mods> ...` whose modifier field spells zero is
/// no modifyOtherKeys sequence, whatever follows the field.
pub proof fn law_modify_other_keys_rejects_modifier_zero(zeros: Seq<u8>, rest: Seq<u8>)
    requires
        all_zeros(zeros),
        rest.len() == 0 || !is_digit(rest[0]),
    ensures
        spec_parse_modify_other_keys(
            seq![ESC, '[' as u8, '2' as u8, '7' as u8, ';' as u8] + zeros + rest,
        ) is None,
{
    let s = seq![ESC, '[' as u8, '2' as u8, '7' as u8, ';' as u8] + zeros + rest;
    if s.len() >= 7 {
        let end = if s.last() == '~' as u8 {
            s.len() - 1
        } else {
            s.len() as int
        };
        let z = zeros.len() as int;
        let stop = if 5 + z <= end {
            5 + z
        } else {
            end
        };
        assert forall|k: int| 5 <= k < stop implies is_digit(#[trigger] s[k]) && s[k] == '0' as u8 by {
            assert(s[k] == zeros[k - 5]);
        }
        if stop < end {
            assert(s[stop] == rest[0]);
        }
        lemma_digit_run_continues(s, 5, stop, end);
        lemma_zeros_have_value_zero(s, 5, stop);
    }
}

/// The bytes `ESC [ <key> ; <mods> <rest>`: a key field without a
/// semicolon, then the modifier field.
pub open spec fn with_modifier_field(key: Seq<u8>, mods: Seq<u8>, rest: Seq<u8>) -> Seq<u8> {
    seq![ESC, '[' as u8] + key + seq![';' as u8] + mods + rest
}

/// A sequence whose modifier field spells zero does not decode under the
/// Kitty protocol: not as `CSI ... u`, not as `CSI ... ~`, not as
/// `CSI 1 ; ... <letter>`, whatever its key field holds and whatever
/// follows the modifier field.
pub proof fn law_kitty_rejects_modifier_zero(key: Seq<u8>, zeros: Seq<u8>, rest: Seq<u8>)
    requires
        forall|i: int| 0 <= i < key.len() ==> #[trigger] key[i] != ';' as u8,
        all_zeros(zeros),
        rest.len() == 0 || !is_digit(rest[0]),
    ensures
        spec_parse_kitty_sequence(with_modifier_field(key, zeros, rest)) is None,
{
    let s = with_modifier_field(key, zeros, rest);
    let p = 2 + key.len() as int;
    let z = zeros.len() as int;
    let n = s.len() as int;
    assert(n == p + 1 + z + rest.len());
    assert(s[0] == ESC && s[1] == '[' as u8);
    assert(s[p] == ';' as u8);
    assert forall|k: int| 2 <= k < p implies #[trigger] s[k] != ';' as u8 by {
        assert(s[k] == key[k - 2]);
    }
    assert forall|k: int| p + 1 <= k < p + 1 + z implies #[trigger] s[k] == '0' as u8 by {
        assert(s[k] == zeros[k - p - 1]);
    }
    if rest.len() > 0 {
        assert(s[p + 1 + z] == rest[0]);
        assert(s.last() == rest.last());
    } else {
        assert(s.last() == zeros.last());
    }
    if n >= 4 && rest.len() > 0 {
        let last = s.last();
        assert forall|start: int, end: int| 2 <= start <= p implies #[trigger] digit_run_end(
            s,
            start,
            end,
        ) <= p by {
            lemma_digit_run_stays_before(s, start, end, p);
        }
        lemma_parse_zeros(s, p + 1, p + 1 + z, n - 1);
        lemma_parse_zeros(s, p + 1, p + 1 + z, n);
        if last == 'u' as u8 {
            lemma_csi_u_rejects_modifier_zero(s, p, z);
        } else if last == '~' as u8 {
            lemma_functional_rejects_modifier_zero(s, p, z);
        } else {
            assert(spec_parse_csi_1_letter(s) is None) by {
                if s[2] == '1' as u8 && s[3] == ';' as u8 {
                    assert(p == 3);
                }
            }
        }
    }
}

proof fn lemma_csi_u_rejects_modifier_zero(s: Seq<u8>, p: int, z: int)
    requires
        s.len() >= 4,
        2 <= p,
        1 <= z,
        p + 1 + z <= s.len() - 1,
        s[p] == ';' as u8,
        forall|k: int| 2 <= k < p ==> #[trigger] s[k] != ';' as u8,
        forall|start: int, end: int|
            2 <= start <= p ==> #[trigger] digit_run_end(s, start, end) <= p,
        spec_parse_digits(s, p + 1, s.len() - 1) == Some((0u32, p + 1 + z)),
        s[p + 1] == '0' as u8,
    ensures
        spec_parse_csi_u(s) is None,
{
    let end = s.len() - 1;
    match spec_parse_digits(s, 2, end) {
        None => {},
        Some((cp, i1)) => {
            assert(i1 == digit_run_end(s, 2, end));
            assert(2 <= i1 <= p) by {
                lemma_digit_run_bounds(s, 2, end);
            }
            match spec_alternate_keys(s, i1, end) {
                None => {},
                Some((shifted, base, i2)) => {
                    assert(i1 <= i2 <= p) by {
                        lemma_alternate_keys_stay_before(s, i1, end, p);
                    }
                    if i2 < p {
                        assert(!byte_at(s, i2, end, ';'));
                    } else {
                        assert(byte_at(s, p, end, ';'));
                        assert(is_digit(s[p + 1]));
                    }
                },
            }
        },
    }
}

proof fn lemma_alternate_keys_stay_before(s: Seq<u8>, i: int, end: int, p: int)
    requires
        2 <= i <= p < end,
        end <= s.len(),
        s[p] == ';' as u8,
        forall|start: int, e: int| 2 <= start <= p ==> #[trigger] digit_run_end(s, start, e) <= p,
    ensures
        match spec_alternate_keys(s, i, end) {
            Some((_, _, next)) => i <= next <= p,
            None => true,
        },
{
    if byte_at(s, i, end, ':') {
        assert(i < p);
        lemma_digit_run_bounds(s, i + 1, end);
        let i1 = spec_parse_optional_digits(s, i + 1, end).1;
        assert(i + 1 <= i1 <= p);
        if byte_at(s, i1, end, ':') {
            assert(i1 < p);
            lemma_digit_run_bounds(s, i1 + 1, end);
        }
    }
}

proof fn lemma_functional_rejects_modifier_zero(s: Seq<u8>, p: int, z: int)
    requires
        s.len() >= 4,
        2 <= p,
        1 <= z,
        p + 1 + z <= s.len() - 1,
        s[p] == ';' as u8,
        forall|k: int| 2 <= k < p ==> #[trigger] s[k] != ';' as u8,
        forall|start: int, end: int|
            2 <= start <= p ==> #[trigger] digit_run_end(s, start, end) <= p,
        spec_parse_digits(s, p + 1, s.len() - 1) == Some((0u32, p + 1 + z)),
    ensures
        spec_parse_functional(s) is None,
{
    let end = s.len() - 1;
    match spec_parse_digits(s, 2, end) {
        None => {},
        Some((number, i1)) => {
            assert(2 <= i1 <= p) by {
                lemma_digit_run_bounds(s, 2, end);
            }
            if i1 < p {
                assert(!byte_at(s, i1, end, ';'));
                if byte_at(s, i1, end, ':') {
                    lemma_digit_run_bounds(s, i1 + 1, end);
                }
            }
        },
    }
}

/// The name under which the legacy table knows a key, for the keys that
/// it knows.
pub open spec fn table_name(token: KeyToken) -> Option<Seq<char>> {
    match token {
        KeyToken::Insert => Some("insert"@),
        KeyToken::Delete => Some("delete"@),
        KeyToken::Clear => Some("clear"@),
        KeyToken::Home => Some("home"@),
        KeyToken::End => Some("end"@),
        KeyToken::PageUp => Some("pageup"@),
        KeyToken::PageDown => Some("pagedown"@),
        KeyToken::Up => Some("up"@),
        KeyToken::Down => Some("down"@),
        KeyToken::Left => Some("left"@),
        KeyToken::Right => Some("right"@),
        KeyToken::Function(n) => if 1 <= n <= 12 {
            Some(function_name(n))
        } else {
            None
        },
        _ => None,
    }
}

/// Whether `token` is one of the four arrow keys.
pub open spec fn is_arrow(token: KeyToken) -> bool {
    token is Up || token is Down || token is Left || token is Right
}

/// The table and the matcher agree on unmodified keys: a legacy sequence
/// that the table names with a key's bare name matches that key without
/// modifiers.
pub proof fn law_legacy_sequences_match_their_keys(s: Seq<u8>, token: KeyToken, active: bool)
    requires
        table_name(token) is Some,
        legacy_name(s) == table_name(token),
    ensures
        spec_matches_token(s, token, false, false, false, active),
{
}

/// The table and the matcher agree on Shift: a legacy sequence that the
/// table names `shift+` and a key's name matches that key with Shift alone.
pub proof fn law_legacy_shift_sequences_match_their_keys(
    s: Seq<u8>,
    token: KeyToken,
    active: bool,
)
    requires
        table_name(token) is Some,
        !(token is Function),
        legacy_name(s) == Some("shift+"@ + table_name(token)->0),
    ensures
        spec_matches_token(s, token, false, true, false, active),
{
}

/// The table and the matcher agree on Ctrl: a legacy sequence that the
/// table names `ctrl+` and a key's name matches that key with Ctrl alone.
pub proof fn law_legacy_ctrl_sequences_match_their_keys(
    s: Seq<u8>,
    token: KeyToken,
    active: bool,
)
    requires
        table_name(token) is Some,
        !(token is Function),
        legacy_name(s) == Some("ctrl+"@ + table_name(token)->0),
    ensures
        spec_matches_token(s, token, true, false, false, active),
{
}

/// The table and the matcher agree on Alt with an arrow: the four two-byte
/// sequences that the table names `alt+` and an arrow's name match that
/// arrow with Alt alone.
pub proof fn law_legacy_alt_arrows_match_their_keys(s: Seq<u8>, token: KeyToken, active: bool)
    requires
        is_arrow(token),
        legacy_name(s) == Some("alt+"@ + table_name(token)->0),
    ensures
        spec_matches_token(s, token, false, false, true, active),
{
    lemma_alt_arrow_sequences(s);
}

/// The sequences that the table names as Alt with an arrow.
proof fn lemma_alt_arrow_sequences(s: Seq<u8>)
    ensures
        legacy_name(s) == Some("alt+"@ + "left"@) ==> esc_pair(s, 'b'),
        legacy_name(s) == Some("alt+"@ + "right"@) ==> esc_pair(s, 'f'),
        legacy_name(s) == Some("alt+"@ + "up"@) ==> esc_pair(s, 'p'),
        legacy_name(s) == Some("alt+"@ + "down"@) ==> esc_pair(s, 'n'),
{
    lemma_table_names_begin();
    reveal_strlit("alt+");
    reveal_strlit("left");
    reveal_strlit("right");
    reveal_strlit("up");
    reveal_strlit("down");
    reveal_strlit("alt+left");
    reveal_strlit("alt+right");
    reveal_strlit("alt+up");
    reveal_strlit("alt+down");
    let name = legacy_name(s);
    let left = "alt+"@ + "left"@;
    let right = "alt+"@ + "right"@;
    let up = "alt+"@ + "up"@;
    let down = "alt+"@ + "down"@;
    assert(left[0] == 'a' && left[1] == 'l' && left[4] == 'l' && left.len() == 8);
    assert(right[0] == 'a' && right[1] == 'l' && right[4] == 'r' && right.len() == 9);
    assert(up[0] == 'a' && up[1] == 'l' && up[4] == 'u' && up.len() == 6);
    assert(down[0] == 'a' && down[1] == 'l' && down[4] == 'd' && down.len() == 8);
}

/// How the names of the table begin: none but the four names of Alt with
/// an arrow begins with `al`.
proof fn lemma_table_names_begin()
    ensures
        forall|s: Seq<u8>| #[trigger]
            legacy_name(s) is Some && legacy_name(s)->0.len() >= 2 && legacy_name(s)->0[0] == 'a'
                && legacy_name(s)->0[1] == 'l' ==> esc_pair(s, 'b') || esc_pair(s, 'f')
                || esc_pair(s, 'p') || esc_pair(s, 'n'),
        forall|s: Seq<u8>| #[trigger] esc_pair(s, 'b') ==> legacy_name(s) == Some("alt+left"@),
        forall|s: Seq<u8>| #[trigger] esc_pair(s, 'f') ==> legacy_name(s) == Some("alt+right"@),
        forall|s: Seq<u8>| #[trigger] esc_pair(s, 'p') ==> legacy_name(s) == Some("alt+up"@),
        forall|s: Seq<u8>| #[trigger] esc_pair(s, 'n') ==> legacy_name(s) == Some("alt+down"@),
{
    reveal_strlit("up");
    reveal_strlit("down");
    reveal_strlit("right");
    reveal_strlit("left");
    reveal_strlit("home");
    reveal_strlit("end");
    reveal_strlit("clear");
    reveal_strlit("ctrl+clear");
    reveal_strlit("shift+clear");
    reveal_strlit("insert");
    reveal_strlit("shift+insert");
    reveal_strlit("ctrl+insert");
    reveal_strlit("delete");
    reveal_strlit("shift+delete");
    reveal_strlit("ctrl+delete");
    reveal_strlit("pageup");
    reveal_strlit("pagedown");
    reveal_strlit("shift+up");
    reveal_strlit("shift+down");
    reveal_strlit("shift+right");
    reveal_strlit("shift+left");
    reveal_strlit("ctrl+up");
    reveal_strlit("ctrl+down");
    reveal_strlit("ctrl+right");
    reveal_strlit("ctrl+left");
    reveal_strlit("shift+pageup");
    reveal_strlit("shift+pagedown");
    reveal_strlit("shift+home");
    reveal_strlit("shift+end");
    reveal_strlit("ctrl+pageup");
    reveal_strlit("ctrl+pagedown");
    reveal_strlit("ctrl+home");
    reveal_strlit("ctrl+end");
    reveal_strlit("f1");
    reveal_strlit("f2");
    reveal_strlit("f3");
    reveal_strlit("f4");
    reveal_strlit("f5");
    reveal_strlit("f6");
    reveal_strlit("f7");
    reveal_strlit("f8");
    reveal_strlit("f9");
    reveal_strlit("f10");
    reveal_strlit("f11");
    reveal_strlit("f12");
}

} // verus!
