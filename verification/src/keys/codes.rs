//! Codepoints, sentinel codes and modifier bits shared by the decoders.
//!
//! Keys that carry text are identified by their Unicode codepoint. Keys that
//! carry none (arrows, editing keys, function keys) are identified by
//! negative sentinel codes, which no codepoint can equal.

use vstd::prelude::*;

verus! {

/// The Caps-Lock and Num-Lock bits of a modifier mask. They never take part
/// in a comparison.
pub const LOCK_MASK: u32 = 192;

/// The bit of Shift in a modifier mask.
pub const MOD_SHIFT: u32 = 1;

/// The bit of Alt in a modifier mask.
pub const MOD_ALT: u32 = 2;

/// The bit of Ctrl in a modifier mask.
pub const MOD_CTRL: u32 = 4;

/// The sentinel codes of the four arrow keys.
pub const ARROW_UP: i32 = -1;

pub const ARROW_DOWN: i32 = -2;

pub const ARROW_RIGHT: i32 = -3;

pub const ARROW_LEFT: i32 = -4;

/// The sentinel codes of the editing keys.
pub const FUNC_DELETE: i32 = -10;

pub const FUNC_INSERT: i32 = -11;

pub const FUNC_PAGE_UP: i32 = -12;

pub const FUNC_PAGE_DOWN: i32 = -13;

pub const FUNC_HOME: i32 = -14;

pub const FUNC_END: i32 = -15;

pub const FUNC_CLEAR: i32 = -16;

/// The sentinel codes of the function keys: each key's code is one less
/// than that of the key before it.
pub const FUNC_F1: i32 = -20;

pub const FUNC_F2: i32 = -21;

pub const FUNC_F3: i32 = -22;

pub const FUNC_F4: i32 = -23;

pub const FUNC_F5: i32 = -24;

pub const FUNC_F6: i32 = -25;

pub const FUNC_F7: i32 = -26;

pub const FUNC_F8: i32 = -27;

pub const FUNC_F9: i32 = -28;

pub const FUNC_F10: i32 = -29;

pub const FUNC_F11: i32 = -30;

pub const FUNC_F12: i32 = -31;

/// The codepoints of the named keys that carry text or a control code.
pub const CP_ESCAPE: i32 = 27;

pub const CP_TAB: i32 = 9;

pub const CP_ENTER: i32 = 13;

pub const CP_SPACE: i32 = 32;

pub const CP_BACKSPACE: i32 = 127;

/// The codepoint that the Kitty protocol gives the keypad's Enter.
pub const CP_KP_ENTER: i32 = 57414;

/// The escape byte that opens every multi-byte sequence.
pub const ESC: u8 = 0x1b;

/// A modifier mask without its lock bits.
pub open spec fn spec_strip_locks(m: u32) -> u32 {
    m & !LOCK_MASK
}

/// Clears the Caps-Lock and Num-Lock bits of a modifier mask.
pub fn strip_locks(m: u32) -> (r: u32)
    ensures
        r == spec_strip_locks(m),
{
    m & !LOCK_MASK
}

/// The modifier mask that the three flags of a key specification stand for.
pub open spec fn spec_modifier_bits(ctrl: bool, shift: bool, alt: bool) -> u32 {
    ((if shift {
        MOD_SHIFT
    } else {
        0
    }) + (if alt {
        MOD_ALT
    } else {
        0
    }) + (if ctrl {
        MOD_CTRL
    } else {
        0
    })) as u32
}

/// Builds the modifier mask of the three flags of a key specification.
pub fn modifier_bits(ctrl: bool, shift: bool, alt: bool) -> (r: u32)
    ensures
        r == spec_modifier_bits(ctrl, shift, alt),
{
    let mut modifier: u32 = 0;
    if shift {
        modifier = modifier + MOD_SHIFT;
    }
    if alt {
        modifier = modifier + MOD_ALT;
    }
    if ctrl {
        modifier = modifier + MOD_CTRL;
    }
    modifier
}

} // verus!
