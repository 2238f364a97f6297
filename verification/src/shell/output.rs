//! Decoding of a command's output as it arrives.
//!
//! Output comes in reads of bytes that may end in the middle of a
//! character. After each read the decoder hands out what can be decoded:
//! text, and one replacement character for each invalid sequence. An
//! incomplete character at the end is kept for the next read.

use vstd::prelude::*;
use vstd::slice::slice_subrange;
use vstd::utf8::{decode_utf8, encode_utf8, valid_utf8};

verus! {

/// Where bytes stop being UTF-8.
#[derive(Clone, Copy, Debug, PartialEq, Eq)]
pub struct Utf8Fault {
    /// The length of the prefix that is UTF-8.
    pub valid_up_to: usize,
    /// The length of the invalid sequence behind that prefix, or `None`
    /// where the bytes end in the middle of a character.
    pub error_len: Option<usize>,
}

/// What the standard library's `str::from_utf8` finds wrong with `bytes`:
/// nothing, or the values that `Utf8Error::valid_up_to` and
/// `Utf8Error::error_len` give for its error.
pub uninterp spec fn utf8_fault(bytes: Seq<u8>) -> Option<(nat, Option<nat>)>;

/// The values of a fault.
pub open spec fn fault_view(fault: Utf8Fault) -> (nat, Option<nat>) {
    (
        fault.valid_up_to as nat,
        match fault.error_len {
            Some(n) => Some(n as nat),
            None => None,
        },
    )
}

/// The values of an optional fault.
pub open spec fn fault_views(fault: Option<Utf8Fault>) -> Option<(nat, Option<nat>)> {
    match fault {
        Some(f) => Some(fault_view(f)),
        None => None,
    }
}

/// `std::str::from_utf8`, with `Utf8Error::valid_up_to` and
/// `Utf8Error::error_len` read off its error.
///
/// The contract restates the documentation. Bytes that are UTF-8 come back
/// as the text that they encode. Of other bytes the prefix up to
/// `valid_up_to` is UTF-8 and ends before the end of the bytes. An error
/// with a length is an invalid sequence of at least one byte inside the
/// bytes; an error without one lies one to three bytes before their end.
#[verifier::external_body]
fn read_utf8<'a>(bytes: &'a [u8]) -> (r: Result<&'a str, Utf8Fault>)
    ensures
        match r {
            Ok(text) => {
                &&& utf8_fault(bytes@) is None
                &&& valid_utf8(bytes@)
                &&& encode_utf8(text@) == bytes@
            },
            Err(fault) => {
                &&& utf8_fault(bytes@) == Some(fault_view(fault))
                &&& !valid_utf8(bytes@)
                &&& fault.valid_up_to < bytes@.len()
                &&& valid_utf8(bytes@.subrange(0, fault.valid_up_to as int))
                &&& match fault.error_len {
                    Some(n) => 1 <= n && fault.valid_up_to + n <= bytes@.len(),
                    None => bytes@.len() - fault.valid_up_to <= 3,
                }
            },
        },
{
    match std::str::from_utf8(bytes) {
        Ok(text) => Ok(text),
        Err(e) => Err(Utf8Fault { valid_up_to: e.valid_up_to(), error_len: e.error_len() }),
    }
}

/// What one reading of the pending bytes lets the decoder do.
#[derive(Clone, Copy, Debug, PartialEq, Eq)]
pub struct Step {
    /// The bytes at the front that are handed out as text.
    pub text_len: usize,
    /// Whether a replacement character follows the text.
    pub replace: bool,
    /// The bytes that are done with, text and invalid sequence together.
    pub consumed: usize,
    /// Whether the rest is to be read again at once.
    pub again: bool,
}

/// Whether a fault lies inside `len` bytes.
pub open spec fn fault_fits(len: usize, fault: Option<Utf8Fault>) -> bool {
    match fault {
        Some(f) => match f.error_len {
            Some(n) => f.valid_up_to + n <= len,
            None => f.valid_up_to <= len,
        },
        None => true,
    }
}

/// The step that a reading of `len` pending bytes allows.
///
/// Valid bytes are all text. Before an invalid sequence stands text, the
/// sequence is replaced, and the rest is read again. Before an incomplete
/// character stands text, and the character waits for more bytes.
pub open spec fn spec_decode_step(len: usize, fault: Option<Utf8Fault>) -> Step {
    match fault {
        None => Step { text_len: len, replace: false, consumed: len, again: false },
        Some(f) => match f.error_len {
            Some(n) => Step {
                text_len: f.valid_up_to,
                replace: true,
                consumed: (f.valid_up_to + n) as usize,
                again: true,
            },
            None => Step {
                text_len: f.valid_up_to,
                replace: false,
                consumed: f.valid_up_to,
                again: false,
            },
        },
    }
}

/// Decides what to do with `len` pending bytes of which a reading found
/// `fault`.
pub fn decode_step(len: usize, fault: Option<Utf8Fault>) -> (r: Step)
    requires
        fault_fits(len, fault),
    ensures
        r == spec_decode_step(len, fault),
        r.text_len <= r.consumed <= len,
{
    match fault {
        None => Step { text_len: len, replace: false, consumed: len, again: false },
        Some(f) => match f.error_len {
            Some(n) => Step {
                text_len: f.valid_up_to,
                replace: true,
                consumed: f.valid_up_to + n,
                again: true,
            },
            None => Step {
                text_len: f.valid_up_to,
                replace: false,
                consumed: f.valid_up_to,
                again: false,
            },
        },
    }
}

/// The pieces that the bytes from `at` on decode to, and the index of the
/// first byte that is kept.
///
/// Each piece is a stretch of text or one replacement character. The
/// stretches are as long as the readings of the standard library make
/// them: text ends where a reading finds a fault.
pub open spec fn spec_decode_from(bytes: Seq<u8>, at: int) -> (Seq<Seq<char>>, int)
    decreases bytes.len() - at,
{
    if at < 0 || at >= bytes.len() {
        (Seq::empty(), at)
    } else {
        let rest = bytes.subrange(at, bytes.len() as int);
        match utf8_fault(rest) {
            None => (seq![decode_utf8(rest)], bytes.len() as int),
            Some((up_to, error_len)) => {
                let text = if up_to > 0 {
                    seq![decode_utf8(rest.subrange(0, up_to as int))]
                } else {
                    Seq::empty()
                };
                match error_len {
                    Some(n) => if n >= 1 && at + up_to + n <= bytes.len() {
                        let (more, end) = spec_decode_from(bytes, at + up_to + n);
                        (text.push("\u{FFFD}"@) + more, end)
                    } else {
                        (text, at + up_to)
                    },
                    None => (text, at + up_to),
                }
            },
        }
    }
}

/// The views of a list of pieces.
pub open spec fn piece_views(pieces: Seq<&str>) -> Seq<Seq<char>> {
    pieces.map_values(|t: &str| t@)
}

/// Decodes as much of `pending` as can be decoded now.
///
/// Returns the pieces to hand out, in order, and the number of bytes that
/// are done with. The bytes behind them, three at most, are an incomplete
/// character: the caller keeps them in front of the next read.
pub fn decode_available<'a>(pending: &'a [u8]) -> (r: (Vec<&'a str>, usize))
    ensures
        piece_views(r.0@) == spec_decode_from(pending@, 0).0,
        r.1 == spec_decode_from(pending@, 0).1,
        r.1 <= pending.len(),
        pending.len() - r.1 <= 3,
{
    let ghost bytes = pending@;
    let len = pending.len();
    let mut pieces: Vec<&'a str> = Vec::new();
    let mut at: usize = 0;
    let mut again = true;
    assert(piece_views(pieces@) =~= Seq::<Seq<char>>::empty());
    while again && at < len
        invariant
            bytes == pending@,
            len == pending.len(),
            at <= len,
            again ==> spec_decode_from(bytes, 0) == (
                piece_views(pieces@) + spec_decode_from(bytes, at as int).0,
                spec_decode_from(bytes, at as int).1,
            ),
            !again ==> spec_decode_from(bytes, 0) == (piece_views(pieces@), at as int),
            !again ==> len - at <= 3,
        decreases len - at, again as int,
    {
        let ghost before = piece_views(pieces@);
        let rest = slice_subrange(pending, at, len);
        let reading = read_utf8(rest);
        let fault = match reading {
            Ok(_) => None,
            Err(f) => Some(f),
        };
        let step = decode_step(len - at, fault);
        if step.text_len > 0 {
            let text = match reading {
                Ok(text) => text,
                Err(_) => match read_utf8(slice_subrange(rest, 0, step.text_len)) {
                    Ok(text) => text,
                    Err(_) => "",
                },
            };
            proof {
                vstd::utf8::encode_utf8_decode_utf8(text@);
            }
            let ghost mid = piece_views(pieces@);
            pieces.push(text);
            assert(piece_views(pieces@) =~= mid.push(text@));
        }
        if step.replace {
            let ghost mid = piece_views(pieces@);
            pieces.push("\u{FFFD}");
            assert(piece_views(pieces@) =~= mid.push("\u{FFFD}"@));
        }
        proof {
            let next = spec_decode_from(bytes, at as int + step.consumed as int);
            if step.again {
                assert(piece_views(pieces@) + next.0 =~= before + spec_decode_from(
                    bytes,
                    at as int,
                ).0);
            } else {
                assert(piece_views(pieces@) =~= before + spec_decode_from(bytes, at as int).0);
            }
        }
        at = at + step.consumed;
        again = step.again;
    }
    proof {
        if again {
            assert(piece_views(pieces@) + Seq::<Seq<char>>::empty() =~= piece_views(pieces@));
        }
    }
    (pieces, at)
}

} // verus!
