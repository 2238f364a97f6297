//! Matching of raw input against a key specification.
//!
//! The same key reaches a program in several encodings. A specification is
//! met by the Kitty encoding of its key and modifiers, by the
//! modifyOtherKeys encoding where one exists, and by the legacy bytes that
//! terminals keep sending for it, some of them even while the Kitty
//! protocol is active.

use vstd::prelude::*;
use vstd::utf8::encode_utf8;
use crate::keys::codes::{
    ARROW_DOWN, ARROW_LEFT, ARROW_RIGHT, ARROW_UP, CP_BACKSPACE, CP_ENTER, CP_ESCAPE, CP_KP_ENTER,
    CP_SPACE, CP_TAB, ESC, FUNC_CLEAR, FUNC_DELETE, FUNC_END, FUNC_F1, FUNC_HOME, FUNC_INSERT,
    FUNC_PAGE_DOWN, FUNC_PAGE_UP, MOD_ALT, MOD_CTRL, MOD_SHIFT, modifier_bits, spec_modifier_bits,
};
use crate::keys::keyspec::{KeySpec, parse_key_id, spec_parse_key_id};
use crate::keys::kitty::{
    ParsedKittySequence, kitty_matches, parse_kitty_sequence, spec_kitty_matches,
    spec_parse_kitty_sequence,
};
use crate::keys::legacy::{
    legacy_name, matches_legacy_key, matches_legacy_modifier_sequence,
    spec_matches_legacy_modifier_sequence,
};
use crate::keys::modify_other_keys::{
    mok_matches, parse_modify_other_keys, spec_mok_matches, spec_parse_modify_other_keys,
};
use crate::text::{ascii_lower, chars_of, eq_ignore_case, spec_ascii_lower, window_is};

verus! {

/// The key that a specification's token names.
#[derive(Clone, Copy, Debug, PartialEq, Eq)]
pub enum KeyToken {
    Escape,
    Space,
    Tab,
    Enter,
    Backspace,
    Insert,
    Delete,
    Clear,
    Home,
    End,
    PageUp,
    PageDown,
    Up,
    Down,
    Left,
    Right,
    /// A function key, by its number from 1 to 12.
    Function(u8),
    /// A graphic ASCII character, letters in lower case.
    Char(u8),
    /// A token that names no key.
    Unknown,
}

/// The function key that a token names, if any: its number.
pub open spec fn spec_function_number(key: Seq<char>) -> Option<u8> {
    if eq_ignore_case(key, "f1"@) {
        Some(1u8)
    } else if eq_ignore_case(key, "f2"@) {
        Some(2u8)
    } else if eq_ignore_case(key, "f3"@) {
        Some(3u8)
    } else if eq_ignore_case(key, "f4"@) {
        Some(4u8)
    } else if eq_ignore_case(key, "f5"@) {
        Some(5u8)
    } else if eq_ignore_case(key, "f6"@) {
        Some(6u8)
    } else if eq_ignore_case(key, "f7"@) {
        Some(7u8)
    } else if eq_ignore_case(key, "f8"@) {
        Some(8u8)
    } else if eq_ignore_case(key, "f9"@) {
        Some(9u8)
    } else if eq_ignore_case(key, "f10"@) {
        Some(10u8)
    } else if eq_ignore_case(key, "f11"@) {
        Some(11u8)
    } else if eq_ignore_case(key, "f12"@) {
        Some(12u8)
    } else {
        None
    }
}

/// The key that a token names. Names are read without regard to case; a
/// token of one graphic ASCII character names that character, a capital
/// letter its small letter.
pub open spec fn spec_classify_key(key: Seq<char>) -> KeyToken {
    if eq_ignore_case(key, "escape"@) || eq_ignore_case(key, "esc"@) {
        KeyToken::Escape
    } else if eq_ignore_case(key, "space"@) {
        KeyToken::Space
    } else if eq_ignore_case(key, "tab"@) {
        KeyToken::Tab
    } else if eq_ignore_case(key, "enter"@) || eq_ignore_case(key, "return"@) {
        KeyToken::Enter
    } else if eq_ignore_case(key, "backspace"@) {
        KeyToken::Backspace
    } else if eq_ignore_case(key, "insert"@) {
        KeyToken::Insert
    } else if eq_ignore_case(key, "delete"@) {
        KeyToken::Delete
    } else if eq_ignore_case(key, "clear"@) {
        KeyToken::Clear
    } else if eq_ignore_case(key, "home"@) {
        KeyToken::Home
    } else if eq_ignore_case(key, "end"@) {
        KeyToken::End
    } else if eq_ignore_case(key, "pageup"@) {
        KeyToken::PageUp
    } else if eq_ignore_case(key, "pagedown"@) {
        KeyToken::PageDown
    } else if eq_ignore_case(key, "up"@) {
        KeyToken::Up
    } else if eq_ignore_case(key, "down"@) {
        KeyToken::Down
    } else if eq_ignore_case(key, "left"@) {
        KeyToken::Left
    } else if eq_ignore_case(key, "right"@) {
        KeyToken::Right
    } else if spec_function_number(key) is Some {
        KeyToken::Function(spec_function_number(key)->0)
    } else if key.len() == 1 && 0x21 <= spec_ascii_lower(key[0]) as u32 <= 0x7e {
        KeyToken::Char(spec_ascii_lower(key[0]) as u8)
    } else {
        KeyToken::Unknown
    }
}

/// `s` is the one byte `b`.
pub open spec fn single(s: Seq<u8>, b: u8) -> bool {
    s.len() == 1 && s[0] == b
}

/// `s` is the two bytes `ESC b`.
pub open spec fn esc_then(s: Seq<u8>, b: u8) -> bool {
    s.len() == 2 && s[0] == ESC && s[1] == b
}

/// `s` is the three bytes `ESC a b`.
pub open spec fn esc_then2(s: Seq<u8>, a: char, b: char) -> bool {
    s.len() == 3 && s[0] == ESC && s[1] == a as u8 && s[2] == b as u8
}

/// `s` is the six bytes `ESC [ 1 ; digit letter`.
pub open spec fn csi_1_form(s: Seq<u8>, digit: char, letter: char) -> bool {
    &&& s.len() == 6
    &&& s[0] == ESC
    &&& s[1] == '[' as u8
    &&& s[2] == '1' as u8
    &&& s[3] == ';' as u8
    &&& s[4] == digit as u8
    &&& s[5] == letter as u8
}

/// `s` decodes under the Kitty protocol to the key `codepoint` with the
/// mask `modifier`, lock bits aside.
pub open spec fn kitty_hit(s: Seq<u8>, codepoint: i32, modifier: u32) -> bool {
    spec_kitty_matches(spec_parse_kitty_sequence(s), codepoint, modifier)
}

/// `s` decodes as a modifyOtherKeys sequence to the key `codepoint` with the
/// mask `modifier`, lock bits aside.
pub open spec fn mok_hit(s: Seq<u8>, codepoint: i32, modifier: u32) -> bool {
    spec_mok_matches(spec_parse_modify_other_keys(s), codepoint, modifier)
}

/// `s` decodes, in either encoding, to the key `codepoint` with the mask
/// `modifier`, lock bits aside.
pub open spec fn encoded_hit(s: Seq<u8>, codepoint: i32, modifier: u32) -> bool {
    kitty_hit(s, codepoint, modifier) || mok_hit(s, codepoint, modifier)
}

/// Escape takes no modifier: the byte `ESC` or its Kitty encoding.
pub open spec fn spec_matches_escape(s: Seq<u8>, modifier: u32) -> bool {
    modifier == 0 && (single(s, ESC) || kitty_hit(s, CP_ESCAPE, 0))
}

/// Space. Ctrl+Space is also the NUL byte; Alt+Space is also `ESC` and a
/// space while the Kitty protocol is not active.
pub open spec fn spec_matches_space(
    s: Seq<u8>,
    ctrl: bool,
    shift: bool,
    alt: bool,
    active: bool,
) -> bool {
    let modifier = spec_modifier_bits(ctrl, shift, alt);
    ||| ctrl && !shift && !alt && single(s, 0x00)
    ||| alt && !ctrl && !shift && !active && esc_then(s, 0x20)
    ||| if modifier == 0 {
        single(s, 0x20) || kitty_hit(s, CP_SPACE, 0)
    } else {
        encoded_hit(s, CP_SPACE, modifier)
    }
}

/// Tab. Shift+Tab is also `ESC [ Z`; Alt+Tab is also `ESC` and a tab under
/// every protocol.
pub open spec fn spec_matches_tab(s: Seq<u8>, ctrl: bool, shift: bool, alt: bool) -> bool {
    let modifier = spec_modifier_bits(ctrl, shift, alt);
    if shift && !ctrl && !alt {
        esc_then2(s, '[', 'Z') || encoded_hit(s, CP_TAB, MOD_SHIFT)
    } else if alt && !ctrl && !shift && esc_then(s, 0x09) {
        true
    } else if modifier == 0 {
        single(s, 0x09) || kitty_hit(s, CP_TAB, 0)
    } else {
        encoded_hit(s, CP_TAB, modifier)
    }
}

/// Enter, the keypad's Enter included. Alt+Enter is also `ESC` and a
/// carriage return under every protocol.
pub open spec fn spec_matches_enter(s: Seq<u8>, ctrl: bool, shift: bool, alt: bool) -> bool {
    let modifier = spec_modifier_bits(ctrl, shift, alt);
    if alt && !ctrl && !shift && esc_then(s, 0x0d) {
        true
    } else if modifier == 0 {
        ||| single(s, 0x0d)
        ||| single(s, 0x0a)
        ||| esc_then2(s, 'O', 'M')
        ||| kitty_hit(s, CP_ENTER, 0)
        ||| kitty_hit(s, CP_KP_ENTER, 0)
    } else {
        encoded_hit(s, CP_ENTER, modifier) || encoded_hit(s, CP_KP_ENTER, modifier)
    }
}

/// Backspace, as DEL or BS. Alt+Backspace is also `ESC` and either byte
/// under every protocol.
pub open spec fn spec_matches_backspace(s: Seq<u8>, ctrl: bool, shift: bool, alt: bool) -> bool {
    let modifier = spec_modifier_bits(ctrl, shift, alt);
    if alt && !ctrl && !shift {
        esc_then(s, 0x7f) || esc_then(s, 0x08) || encoded_hit(s, CP_BACKSPACE, MOD_ALT)
    } else if modifier == 0 {
        single(s, 0x7f) || single(s, 0x08) || kitty_hit(s, CP_BACKSPACE, 0)
    } else {
        encoded_hit(s, CP_BACKSPACE, modifier)
    }
}

/// A key of the legacy table, by the table's name and by its code: without
/// a modifier its legacy sequences, with one the legacy forms that Shift
/// and Ctrl have; in both cases the Kitty encoding.
pub open spec fn spec_matches_table_key(
    s: Seq<u8>,
    name: Seq<char>,
    code: i32,
    modifier: u32,
) -> bool {
    if modifier == 0 {
        legacy_name(s) == Some(name) || kitty_hit(s, code, 0)
    } else {
        spec_matches_legacy_modifier_sequence(s, name, modifier) || kitty_hit(s, code, modifier)
    }
}

/// Up or Down. With Alt alone the two-byte form `ESC pair` replaces the
/// table.
pub open spec fn spec_matches_vertical(
    s: Seq<u8>,
    name: Seq<char>,
    code: i32,
    pair: char,
    ctrl: bool,
    shift: bool,
    alt: bool,
) -> bool {
    if alt && !ctrl && !shift {
        esc_then(s, pair as u8) || kitty_hit(s, code, MOD_ALT)
    } else {
        spec_matches_table_key(s, name, code, spec_modifier_bits(ctrl, shift, alt))
    }
}

/// Left or Right. With Alt alone: `ESC [ 1 ; 3 letter`, `ESC lower`, and
/// `ESC upper` while the Kitty protocol is not active. With Ctrl alone:
/// `ESC [ 1 ; 5 letter` beside the table's form.
pub open spec fn spec_matches_horizontal(
    s: Seq<u8>,
    name: Seq<char>,
    code: i32,
    letter: char,
    upper: char,
    lower: char,
    ctrl: bool,
    shift: bool,
    alt: bool,
    active: bool,
) -> bool {
    if alt && !ctrl && !shift {
        ||| csi_1_form(s, '3', letter)
        ||| !active && esc_then(s, upper as u8)
        ||| esc_then(s, lower as u8)
        ||| kitty_hit(s, code, MOD_ALT)
    } else if ctrl && !alt && !shift {
        ||| csi_1_form(s, '5', letter)
        ||| spec_matches_legacy_modifier_sequence(s, name, MOD_CTRL)
        ||| kitty_hit(s, code, MOD_CTRL)
    } else {
        spec_matches_table_key(s, name, code, spec_modifier_bits(ctrl, shift, alt))
    }
}

/// The name of the function key `n`.
pub open spec fn function_name(n: u8) -> Seq<char> {
    if n == 1 {
        "f1"@
    } else if n == 2 {
        "f2"@
    } else if n == 3 {
        "f3"@
    } else if n == 4 {
        "f4"@
    } else if n == 5 {
        "f5"@
    } else if n == 6 {
        "f6"@
    } else if n == 7 {
        "f7"@
    } else if n == 8 {
        "f8"@
    } else if n == 9 {
        "f9"@
    } else if n == 10 {
        "f10"@
    } else if n == 11 {
        "f11"@
    } else {
        "f12"@
    }
}

/// A function key: without a modifier its legacy sequences, with one its
/// Kitty encoding.
pub open spec fn spec_matches_function(s: Seq<u8>, n: u8, modifier: u32) -> bool {
    if modifier == 0 {
        legacy_name(s) == Some(function_name(n))
    } else {
        kitty_hit(s, (FUNC_F1 + 1 - n) as i32, modifier)
    }
}

/// The control byte that Ctrl makes of a letter: 1 for `a` to 26 for `z`.
pub open spec fn spec_raw_ctrl_char(letter: u8) -> u8 {
    let lower = if 'A' as u8 <= letter <= 'Z' as u8 {
        (letter + 32) as u8
    } else {
        letter
    };
    (lower - 'a' as u8 + 1) as u8
}

/// The byte that Ctrl makes of a symbol, for the few symbols that have one.
pub open spec fn spec_ctrl_symbol_to_byte(symbol: u8) -> Option<u8> {
    if symbol == '@' as u8 {
        Some(0x00u8)
    } else if symbol == '[' as u8 {
        Some(0x1bu8)
    } else if symbol == '\\' as u8 {
        Some(0x1cu8)
    } else if symbol == ']' as u8 {
        Some(0x1du8)
    } else if symbol == '^' as u8 {
        Some(0x1eu8)
    } else if symbol == '_' as u8 || symbol == '-' as u8 {
        Some(0x1fu8)
    } else {
        None
    }
}

/// Whether `ch` is a small ASCII letter.
pub open spec fn is_small_letter(ch: u8) -> bool {
    'a' as u8 <= ch <= 'z' as u8
}

/// A graphic character `ch`, letters in lower case.
///
/// While the Kitty protocol is not active, Ctrl+Alt with a letter is `ESC`
/// and the letter's control byte, and Alt with a letter is `ESC` and the
/// letter; nothing else meets those two. Ctrl alone is also the control
/// byte of a letter or of a symbol that has one. Shift alone with a letter
/// is also the capital letter. Without a modifier the key is also its own
/// byte. Beside these stand the two encodings, modifyOtherKeys only where a
/// modifier is held.
pub open spec fn spec_matches_char(
    s: Seq<u8>,
    ch: u8,
    ctrl: bool,
    shift: bool,
    alt: bool,
    active: bool,
) -> bool {
    let modifier = spec_modifier_bits(ctrl, shift, alt);
    let code = ch as i32;
    let letter = is_small_letter(ch);
    if ctrl && alt && !shift && !active && letter {
        esc_then(s, spec_raw_ctrl_char(ch))
    } else if alt && !ctrl && !shift && !active && letter {
        esc_then(s, ch)
    } else if ctrl && !shift && !alt {
        ||| letter && single(s, spec_raw_ctrl_char(ch))
        ||| !letter && spec_ctrl_symbol_to_byte(ch) is Some && single(
            s,
            spec_ctrl_symbol_to_byte(ch)->0,
        )
        ||| encoded_hit(s, code, MOD_CTRL)
    } else if shift && !ctrl && !alt {
        letter && single(s, (ch - 32) as u8) || encoded_hit(s, code, MOD_SHIFT)
    } else if modifier != 0 {
        encoded_hit(s, code, modifier)
    } else {
        single(s, ch) || kitty_hit(s, code, 0)
    }
}

/// Whether the bytes `s` are the key `token` with exactly the modifiers
/// given.
pub open spec fn spec_matches_token(
    s: Seq<u8>,
    token: KeyToken,
    ctrl: bool,
    shift: bool,
    alt: bool,
    active: bool,
) -> bool {
    let modifier = spec_modifier_bits(ctrl, shift, alt);
    match token {
        KeyToken::Escape => spec_matches_escape(s, modifier),
        KeyToken::Space => spec_matches_space(s, ctrl, shift, alt, active),
        KeyToken::Tab => spec_matches_tab(s, ctrl, shift, alt),
        KeyToken::Enter => spec_matches_enter(s, ctrl, shift, alt),
        KeyToken::Backspace => spec_matches_backspace(s, ctrl, shift, alt),
        KeyToken::Insert => spec_matches_table_key(s, "insert"@, FUNC_INSERT, modifier),
        KeyToken::Delete => spec_matches_table_key(s, "delete"@, FUNC_DELETE, modifier),
        KeyToken::Clear => spec_matches_table_key(s, "clear"@, FUNC_CLEAR, modifier),
        KeyToken::Home => spec_matches_table_key(s, "home"@, FUNC_HOME, modifier),
        KeyToken::End => spec_matches_table_key(s, "end"@, FUNC_END, modifier),
        KeyToken::PageUp => spec_matches_table_key(s, "pageup"@, FUNC_PAGE_UP, modifier),
        KeyToken::PageDown => spec_matches_table_key(s, "pagedown"@, FUNC_PAGE_DOWN, modifier),
        KeyToken::Up => spec_matches_vertical(s, "up"@, ARROW_UP, 'p', ctrl, shift, alt),
        KeyToken::Down => spec_matches_vertical(s, "down"@, ARROW_DOWN, 'n', ctrl, shift, alt),
        KeyToken::Left => spec_matches_horizontal(
            s,
            "left"@,
            ARROW_LEFT,
            'D',
            'B',
            'b',
            ctrl,
            shift,
            alt,
            active,
        ),
        KeyToken::Right => spec_matches_horizontal(
            s,
            "right"@,
            ARROW_RIGHT,
            'C',
            'F',
            'f',
            ctrl,
            shift,
            alt,
            active,
        ),
        KeyToken::Function(n) => 1 <= n <= 12 && spec_matches_function(s, n, modifier),
        KeyToken::Char(ch) => 0x21 <= ch <= 0x7e && spec_matches_char(
            s,
            ch,
            ctrl,
            shift,
            alt,
            active,
        ),
        KeyToken::Unknown => false,
    }
}

/// Whether the bytes `s` meet a parsed key specification.
pub open spec fn spec_matches_parsed(s: Seq<u8>, id: KeySpec, active: bool) -> bool {
    spec_matches_token(s, spec_classify_key(id.key), id.ctrl, id.shift, id.alt, active)
}

/// Whether the bytes `s` meet the key specification `key_id`. A
/// specification that names no key is met by nothing.
pub open spec fn spec_matches_key(s: Seq<u8>, key_id: Seq<char>, active: bool) -> bool {
    match spec_parse_key_id(key_id) {
        Some(id) => spec_matches_parsed(s, id, active),
        None => false,
    }
}

fn function_number(chars: &[char]) -> (r: Option<u8>)
    ensures
        r == spec_function_number(chars@),
{
    let n = chars.len();
    assert(chars@.subrange(0, n as int) =~= chars@);
    if window_is(chars, 0, n, "f1") {
        Some(1)
    } else if window_is(chars, 0, n, "f2") {
        Some(2)
    } else if window_is(chars, 0, n, "f3") {
        Some(3)
    } else if window_is(chars, 0, n, "f4") {
        Some(4)
    } else if window_is(chars, 0, n, "f5") {
        Some(5)
    } else if window_is(chars, 0, n, "f6") {
        Some(6)
    } else if window_is(chars, 0, n, "f7") {
        Some(7)
    } else if window_is(chars, 0, n, "f8") {
        Some(8)
    } else if window_is(chars, 0, n, "f9") {
        Some(9)
    } else if window_is(chars, 0, n, "f10") {
        Some(10)
    } else if window_is(chars, 0, n, "f11") {
        Some(11)
    } else if window_is(chars, 0, n, "f12") {
        Some(12)
    } else {
        None
    }
}

/// Finds the key that a specification's token names.
pub fn classify_key(key: &str) -> (r: KeyToken)
    ensures
        r == spec_classify_key(key@),
{
    let owned = chars_of(key);
    let chars = owned.as_slice();
    let n = chars.len();
    assert(chars@.subrange(0, n as int) =~= chars@);
    if window_is(chars, 0, n, "escape") || window_is(chars, 0, n, "esc") {
        KeyToken::Escape
    } else if window_is(chars, 0, n, "space") {
        KeyToken::Space
    } else if window_is(chars, 0, n, "tab") {
        KeyToken::Tab
    } else if window_is(chars, 0, n, "enter") || window_is(chars, 0, n, "return") {
        KeyToken::Enter
    } else if window_is(chars, 0, n, "backspace") {
        KeyToken::Backspace
    } else if window_is(chars, 0, n, "insert") {
        KeyToken::Insert
    } else if window_is(chars, 0, n, "delete") {
        KeyToken::Delete
    } else if window_is(chars, 0, n, "clear") {
        KeyToken::Clear
    } else if window_is(chars, 0, n, "home") {
        KeyToken::Home
    } else if window_is(chars, 0, n, "end") {
        KeyToken::End
    } else if window_is(chars, 0, n, "pageup") {
        KeyToken::PageUp
    } else if window_is(chars, 0, n, "pagedown") {
        KeyToken::PageDown
    } else if window_is(chars, 0, n, "up") {
        KeyToken::Up
    } else if window_is(chars, 0, n, "down") {
        KeyToken::Down
    } else if window_is(chars, 0, n, "left") {
        KeyToken::Left
    } else if window_is(chars, 0, n, "right") {
        KeyToken::Right
    } else {
        match function_number(chars) {
            Some(number) => KeyToken::Function(number),
            None => {
                if n == 1 {
                    let ch = ascii_lower(chars[0]) as u32;
                    if 0x21 <= ch && ch <= 0x7e {
                        return KeyToken::Char(ch as u8);
                    }
                }
                KeyToken::Unknown
            },
        }
    }
}

/// The control byte that Ctrl makes of the ASCII letter `letter`: 1 for `a`
/// or `A` to 26 for `z` or `Z`.
///
/// Bytes behind `z` continue the count; bytes before `a` that are no
/// capital letters have no control byte and are not accepted.
pub fn raw_ctrl_char(letter: u8) -> (r: u8)
    requires
        letter >= 'a' as u8 || 'A' as u8 <= letter <= 'Z' as u8,
    ensures
        r == spec_raw_ctrl_char(letter),
        ('a' as u8 <= letter <= 'z' as u8 || 'A' as u8 <= letter <= 'Z' as u8) ==> 1 <= r <= 26,
{
    let lower = if 'A' as u8 <= letter && letter <= 'Z' as u8 {
        letter + 32
    } else {
        letter
    };
    (lower - 'a' as u8) + 1
}

/// The byte that Ctrl makes of a symbol, for the symbols that have one.
pub fn ctrl_symbol_to_byte(symbol: u8) -> (r: Option<u8>)
    ensures
        r == spec_ctrl_symbol_to_byte(symbol),
{
    match symbol as char {
        '@' => Some(0x00),
        '[' => Some(0x1b),
        '\\' => Some(0x1c),
        ']' => Some(0x1d),
        '^' => Some(0x1e),
        '_' | '-' => Some(0x1f),
        _ => None,
    }
}

/// The input with both of its decodings, made once for all the rules.
struct Decoded<'a> {
    bytes: &'a [u8],
    kitty: Option<ParsedKittySequence>,
    mok: Option<(u32, i32)>,
}

impl<'a> Decoded<'a> {
    spec fn wf(&self) -> bool {
        &&& self.kitty == spec_parse_kitty_sequence(self.bytes@)
        &&& self.mok == spec_parse_modify_other_keys(self.bytes@)
    }

    fn new(bytes: &'a [u8]) -> (r: Self)
        ensures
            r.wf(),
            r.bytes@ == bytes@,
    {
        Decoded { bytes, kitty: parse_kitty_sequence(bytes), mok: parse_modify_other_keys(bytes) }
    }

    fn kitty(&self, codepoint: i32, modifier: u32) -> (r: bool)
        requires
            self.wf(),
        ensures
            r == kitty_hit(self.bytes@, codepoint, modifier),
    {
        kitty_matches(&self.kitty, codepoint, modifier)
    }

    fn encoded(&self, codepoint: i32, modifier: u32) -> (r: bool)
        requires
            self.wf(),
        ensures
            r == encoded_hit(self.bytes@, codepoint, modifier),
    {
        kitty_matches(&self.kitty, codepoint, modifier) || mok_matches(
            &self.mok,
            codepoint,
            modifier,
        )
    }

    fn single(&self, b: u8) -> (r: bool)
        ensures
            r == single(self.bytes@, b),
    {
        self.bytes.len() == 1 && self.bytes[0] == b
    }

    fn esc_then(&self, b: u8) -> (r: bool)
        ensures
            r == esc_then(self.bytes@, b),
    {
        self.bytes.len() == 2 && self.bytes[0] == ESC && self.bytes[1] == b
    }

    fn esc_then2(&self, a: char, b: char) -> (r: bool)
        requires
            a as u32 <= 255,
            b as u32 <= 255,
        ensures
            r == esc_then2(self.bytes@, a, b),
    {
        self.bytes.len() == 3 && self.bytes[0] == ESC && self.bytes[1] == a as u8 && self.bytes[2]
            == b as u8
    }

    fn csi_1_form(&self, digit: char, letter: char) -> (r: bool)
        requires
            digit as u32 <= 255,
            letter as u32 <= 255,
        ensures
            r == csi_1_form(self.bytes@, digit, letter),
    {
        self.bytes.len() == 6 && self.bytes[0] == ESC && self.bytes[1] == '[' as u8
            && self.bytes[2] == '1' as u8 && self.bytes[3] == ';' as u8 && self.bytes[4]
            == digit as u8 && self.bytes[5] == letter as u8
    }

    fn space(&self, ctrl: bool, shift: bool, alt: bool, active: bool) -> (r: bool)
        requires
            self.wf(),
        ensures
            r == spec_matches_space(self.bytes@, ctrl, shift, alt, active),
    {
        let modifier = modifier_bits(ctrl, shift, alt);
        if ctrl && !shift && !alt && self.single(0x00) {
            return true;
        }
        if alt && !ctrl && !shift && !active && self.esc_then(0x20) {
            return true;
        }
        if modifier == 0 {
            self.single(0x20) || self.kitty(CP_SPACE, 0)
        } else {
            self.encoded(CP_SPACE, modifier)
        }
    }

    fn tab(&self, ctrl: bool, shift: bool, alt: bool) -> (r: bool)
        requires
            self.wf(),
        ensures
            r == spec_matches_tab(self.bytes@, ctrl, shift, alt),
    {
        let modifier = modifier_bits(ctrl, shift, alt);
        if shift && !ctrl && !alt {
            return self.esc_then2('[', 'Z') || self.encoded(CP_TAB, MOD_SHIFT);
        }
        if alt && !ctrl && !shift && self.esc_then(0x09) {
            return true;
        }
        if modifier == 0 {
            self.single(0x09) || self.kitty(CP_TAB, 0)
        } else {
            self.encoded(CP_TAB, modifier)
        }
    }

    fn enter(&self, ctrl: bool, shift: bool, alt: bool) -> (r: bool)
        requires
            self.wf(),
        ensures
            r == spec_matches_enter(self.bytes@, ctrl, shift, alt),
    {
        let modifier = modifier_bits(ctrl, shift, alt);
        if alt && !ctrl && !shift && self.esc_then(0x0d) {
            return true;
        }
        if modifier == 0 {
            self.single(0x0d) || self.single(0x0a) || self.esc_then2('O', 'M') || self.kitty(
                CP_ENTER,
                0,
            ) || self.kitty(CP_KP_ENTER, 0)
        } else {
            self.encoded(CP_ENTER, modifier) || self.encoded(CP_KP_ENTER, modifier)
        }
    }

    fn backspace(&self, ctrl: bool, shift: bool, alt: bool) -> (r: bool)
        requires
            self.wf(),
        ensures
            r == spec_matches_backspace(self.bytes@, ctrl, shift, alt),
    {
        let modifier = modifier_bits(ctrl, shift, alt);
        if alt && !ctrl && !shift {
            return self.esc_then(0x7f) || self.esc_then(0x08) || self.encoded(
                CP_BACKSPACE,
                MOD_ALT,
            );
        }
        if modifier == 0 {
            self.single(0x7f) || self.single(0x08) || self.kitty(CP_BACKSPACE, 0)
        } else {
            self.encoded(CP_BACKSPACE, modifier)
        }
    }

    fn table_key(&self, name: &'static str, code: i32, modifier: u32) -> (r: bool)
        requires
            self.wf(),
        ensures
            r == spec_matches_table_key(self.bytes@, name@, code, modifier),
    {
        if modifier == 0 {
            matches_legacy_key(self.bytes, name) || self.kitty(code, 0)
        } else {
            matches_legacy_modifier_sequence(self.bytes, name, modifier) || self.kitty(
                code,
                modifier,
            )
        }
    }

    fn vertical(
        &self,
        name: &'static str,
        code: i32,
        pair: char,
        ctrl: bool,
        shift: bool,
        alt: bool,
    ) -> (r: bool)
        requires
            self.wf(),
            pair as u32 <= 255,
        ensures
            r == spec_matches_vertical(self.bytes@, name@, code, pair, ctrl, shift, alt),
    {
        if alt && !ctrl && !shift {
            self.esc_then(pair as u8) || self.kitty(code, MOD_ALT)
        } else {
            self.table_key(name, code, modifier_bits(ctrl, shift, alt))
        }
    }

    fn horizontal(
        &self,
        name: &'static str,
        code: i32,
        letter: char,
        upper: char,
        lower: char,
        ctrl: bool,
        shift: bool,
        alt: bool,
        active: bool,
    ) -> (r: bool)
        requires
            self.wf(),
            letter as u32 <= 255,
            upper as u32 <= 255,
            lower as u32 <= 255,
        ensures
            r == spec_matches_horizontal(
                self.bytes@,
                name@,
                code,
                letter,
                upper,
                lower,
                ctrl,
                shift,
                alt,
                active,
            ),
    {
        if alt && !ctrl && !shift {
            self.csi_1_form('3', letter) || (!active && self.esc_then(upper as u8))
                || self.esc_then(lower as u8) || self.kitty(code, MOD_ALT)
        } else if ctrl && !alt && !shift {
            self.csi_1_form('5', letter) || matches_legacy_modifier_sequence(
                self.bytes,
                name,
                MOD_CTRL,
            ) || self.kitty(code, MOD_CTRL)
        } else {
            self.table_key(name, code, modifier_bits(ctrl, shift, alt))
        }
    }

    fn function(&self, n: u8, modifier: u32) -> (r: bool)
        requires
            self.wf(),
            1 <= n <= 12,
        ensures
            r == spec_matches_function(self.bytes@, n, modifier),
    {
        if modifier == 0 {
            let name = match n {
                1 => "f1",
                2 => "f2",
                3 => "f3",
                4 => "f4",
                5 => "f5",
                6 => "f6",
                7 => "f7",
                8 => "f8",
                9 => "f9",
                10 => "f10",
                11 => "f11",
                _ => "f12",
            };
            matches_legacy_key(self.bytes, name)
        } else {
            self.kitty(FUNC_F1 + 1 - n as i32, modifier)
        }
    }

    fn character(&self, ch: u8, ctrl: bool, shift: bool, alt: bool, active: bool) -> (r: bool)
        requires
            self.wf(),
            0x21 <= ch <= 0x7e,
        ensures
            r == spec_matches_char(self.bytes@, ch, ctrl, shift, alt, active),
    {
        let modifier = modifier_bits(ctrl, shift, alt);
        let code = ch as i32;
        let letter = 'a' as u8 <= ch && ch <= 'z' as u8;
        if ctrl && alt && !shift && !active && letter {
            return self.esc_then(raw_ctrl_char(ch));
        }
        if alt && !ctrl && !shift && !active && letter {
            return self.esc_then(ch);
        }
        if ctrl && !shift && !alt {
            if letter {
                if self.single(raw_ctrl_char(ch)) {
                    return true;
                }
            } else {
                match ctrl_symbol_to_byte(ch) {
                    Some(legacy) => {
                        if self.single(legacy) {
                            return true;
                        }
                    },
                    None => {},
                }
            }
            return self.encoded(code, MOD_CTRL);
        }
        if shift && !ctrl && !alt {
            if letter && self.single(ch - 32) {
                return true;
            }
            return self.encoded(code, MOD_SHIFT);
        }
        if modifier != 0 {
            return self.encoded(code, modifier);
        }
        self.single(ch) || self.kitty(code, 0)
    }
}

/// Whether `bytes` are the key `token` with exactly the modifiers given.
///
/// `kitty_protocol_active` tells whether the terminal was asked to speak the
/// Kitty protocol: some two-byte forms with `ESC` are read as Alt only while
/// it is not.
pub fn matches_token(
    bytes: &[u8],
    token: KeyToken,
    ctrl: bool,
    shift: bool,
    alt: bool,
    kitty_protocol_active: bool,
) -> (r: bool)
    ensures
        r == spec_matches_token(bytes@, token, ctrl, shift, alt, kitty_protocol_active),
{
    let d = Decoded::new(bytes);
    let modifier = modifier_bits(ctrl, shift, alt);
    match token {
        KeyToken::Escape => modifier == 0 && (d.single(ESC) || d.kitty(CP_ESCAPE, 0)),
        KeyToken::Space => d.space(ctrl, shift, alt, kitty_protocol_active),
        KeyToken::Tab => d.tab(ctrl, shift, alt),
        KeyToken::Enter => d.enter(ctrl, shift, alt),
        KeyToken::Backspace => d.backspace(ctrl, shift, alt),
        KeyToken::Insert => d.table_key("insert", FUNC_INSERT, modifier),
        KeyToken::Delete => d.table_key("delete", FUNC_DELETE, modifier),
        KeyToken::Clear => d.table_key("clear", FUNC_CLEAR, modifier),
        KeyToken::Home => d.table_key("home", FUNC_HOME, modifier),
        KeyToken::End => d.table_key("end", FUNC_END, modifier),
        KeyToken::PageUp => d.table_key("pageup", FUNC_PAGE_UP, modifier),
        KeyToken::PageDown => d.table_key("pagedown", FUNC_PAGE_DOWN, modifier),
        KeyToken::Up => d.vertical("up", ARROW_UP, 'p', ctrl, shift, alt),
        KeyToken::Down => d.vertical("down", ARROW_DOWN, 'n', ctrl, shift, alt),
        KeyToken::Left => d.horizontal(
            "left",
            ARROW_LEFT,
            'D',
            'B',
            'b',
            ctrl,
            shift,
            alt,
            kitty_protocol_active,
        ),
        KeyToken::Right => d.horizontal(
            "right",
            ARROW_RIGHT,
            'C',
            'F',
            'f',
            ctrl,
            shift,
            alt,
            kitty_protocol_active,
        ),
        KeyToken::Function(n) => 1 <= n && n <= 12 && d.function(n, modifier),
        KeyToken::Char(ch) => 0x21 <= ch && ch <= 0x7e && d.character(
            ch,
            ctrl,
            shift,
            alt,
            kitty_protocol_active,
        ),
        KeyToken::Unknown => false,
    }
}

/// Whether `bytes` meet the key specification `key_id`.
///
/// Returns `false` for a specification that names no key or an unknown one.
pub fn matches_key_inner(bytes: &[u8], key_id: &str, kitty_protocol_active: bool) -> (r: bool)
    ensures
        r == spec_matches_key(bytes@, key_id@, kitty_protocol_active),
{
    match parse_key_id(key_id) {
        Some(id) => matches_token(
            bytes,
            classify_key(id.key),
            id.ctrl,
            id.shift,
            id.alt,
            kitty_protocol_active,
        ),
        None => false,
    }
}

/// Whether the input `data` meets the key specification `key_id`.
pub fn matches_key(data: String, key_id: String, kitty_protocol_active: bool) -> (r: bool)
    ensures
        r == spec_matches_key(encode_utf8(data@), key_id@, kitty_protocol_active),
{
    matches_key_inner(data.as_str().as_bytes(), key_id.as_str(), kitty_protocol_active)
}

} // verus!
