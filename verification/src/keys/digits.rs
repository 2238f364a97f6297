//! Overflow-safe scanning of ASCII digit runs.

use vstd::prelude::*;

verus! {

/// Whether `b` is one of the ASCII digits `0` to `9`.
pub open spec fn is_digit(b: u8) -> bool {
    0x30 <= b <= 0x39
}

/// The index just past the longest run of digits that starts at `start`
/// and stays inside both the window `[start, end)` and the sequence.
pub open spec fn digit_run_end(s: Seq<u8>, start: int, end: int) -> int
    decreases end - start,
{
    if 0 <= start < end && start < s.len() && is_digit(s[start]) {
        digit_run_end(s, start + 1, end)
    } else {
        start
    }
}

/// The number that the digits `s[start..stop)` spell in base ten.
pub open spec fn decimal_value(s: Seq<u8>, start: int, stop: int) -> nat
    decreases stop - start,
{
    if start >= stop {
        0
    } else {
        decimal_value(s, start, stop - 1) * 10 + (s[stop - 1] - 0x30) as nat
    }
}

/// A digit run read at `start`: its value and the index after it. Nothing
/// where the window does not begin with a digit or the value exceeds `u32`.
pub open spec fn spec_parse_digits(s: Seq<u8>, start: int, end: int) -> Option<(u32, int)> {
    let stop = digit_run_end(s, start, end);
    let value = decimal_value(s, start, stop);
    if stop > start && value <= u32::MAX {
        Some((value as u32, stop))
    } else {
        None
    }
}

/// As `spec_parse_digits`, but an absent or overflowing run yields no value
/// and leaves the cursor at `start`.
pub open spec fn spec_parse_optional_digits(s: Seq<u8>, start: int, end: int) -> (Option<u32>, int) {
    match spec_parse_digits(s, start, end) {
        Some((v, next)) => (Some(v), next),
        None => (None, start),
    }
}

/// A digit run never ends before its start nor after its window.
pub proof fn lemma_digit_run_bounds(s: Seq<u8>, start: int, end: int)
    requires
        0 <= start <= end,
    ensures
        start <= digit_run_end(s, start, end) <= end,
        digit_run_end(s, start, end) <= s.len() || digit_run_end(s, start, end) == start,
    decreases end - start,
{
    if start < end && start < s.len() && is_digit(s[start]) {
        lemma_digit_run_bounds(s, start + 1, end);
    }
}

/// A run that reaches `mid` over digits alone ends where the run from `mid` ends.
pub proof fn lemma_digit_run_continues(s: Seq<u8>, start: int, mid: int, end: int)
    requires
        0 <= start <= mid <= end,
        mid <= s.len(),
        forall|k: int| start <= k < mid ==> is_digit(#[trigger] s[k]),
    ensures
        digit_run_end(s, start, end) == digit_run_end(s, mid, end),
    decreases mid - start,
{
    if start < mid {
        lemma_digit_run_continues(s, start + 1, mid, end);
    }
}

/// Reading more digits never lowers the value.
pub proof fn lemma_decimal_value_monotone(s: Seq<u8>, start: int, mid: int, stop: int)
    requires
        start <= mid <= stop,
        forall|k: int| start <= k < stop ==> is_digit(#[trigger] s[k]),
    ensures
        decimal_value(s, start, mid) <= decimal_value(s, start, stop),
    decreases stop - mid,
{
    if mid < stop {
        lemma_decimal_value_monotone(s, start, mid, stop - 1);
    }
}

/// Every byte of a digit run is a digit.
pub proof fn lemma_digit_run_all_digits(s: Seq<u8>, start: int, end: int)
    requires
        0 <= start <= end,
    ensures
        forall|k: int| start <= k < digit_run_end(s, start, end) ==> is_digit(#[trigger] s[k]),
    decreases end - start,
{
    if start < end && start < s.len() && is_digit(s[start]) {
        lemma_digit_run_all_digits(s, start + 1, end);
    }
}

/// A digit run ends at its window's end or before a byte that is no digit.
pub proof fn lemma_digit_run_stops(s: Seq<u8>, start: int, end: int)
    requires
        0 <= start <= end <= s.len(),
    ensures
        digit_run_end(s, start, end) == end || !is_digit(s[digit_run_end(s, start, end)]),
    decreases end - start,
{
    if start < end && is_digit(s[start]) {
        lemma_digit_run_stops(s, start + 1, end);
    }
}

/// What a successful read tells about the bytes: the run is not empty, lies
/// in the window, holds digits only, and cannot be extended.
pub proof fn lemma_parse_digits_some(s: Seq<u8>, start: int, end: int)
    requires
        0 <= start,
        end <= s.len(),
        spec_parse_digits(s, start, end) is Some,
    ensures
        ({
            let stop = digit_run_end(s, start, end);
            &&& spec_parse_digits(s, start, end) == Some(
                (decimal_value(s, start, stop) as u32, stop),
            )
            &&& start < stop <= end
            &&& forall|k: int| start <= k < stop ==> is_digit(#[trigger] s[k])
            &&& stop == end || !is_digit(s[stop])
        }),
{
    lemma_digit_run_bounds(s, start, end);
    lemma_digit_run_all_digits(s, start, end);
    lemma_digit_run_stops(s, start, end);
}

/// Reads the longest run of ASCII digits in `bytes[idx..end)`.
///
/// Returns the value and the index after the run. Returns `None` when the
/// window is empty or starts with another byte, and when the value does not
/// fit in 32 bits: overflow is detected, never wrapped.
pub fn parse_digits(bytes: &[u8], idx: usize, end: usize) -> (r: Option<(u32, usize)>)
    ensures
        match r {
            Some((v, next)) => spec_parse_digits(bytes@, idx as int, end as int) == Some(
                (v, next as int),
            ),
            None => spec_parse_digits(bytes@, idx as int, end as int) is None,
        },
{
    let ghost s = bytes@;
    let limit: usize = if end < bytes.len() { end } else { bytes.len() };
    if idx >= limit || !(bytes[idx] >= 0x30 && bytes[idx] <= 0x39) {
        return None;
    }
    let mut value: u32 = 0;
    let mut i: usize = idx;
    while i < limit && bytes[i] >= 0x30 && bytes[i] <= 0x39
        invariant
            s == bytes@,
            idx <= i <= limit,
            limit <= end,
            limit <= bytes.len(),
            limit == end || limit == bytes.len(),
            forall|k: int| idx <= k < i ==> is_digit(#[trigger] s[k]),
            value == decimal_value(s, idx as int, i as int),
        decreases limit - i,
    {
        let digit: u32 = (bytes[i] - 0x30) as u32;
        let next = match value.checked_mul(10) {
            Some(scaled) => scaled.checked_add(digit),
            None => None,
        };
        match next {
            Some(v) => {
                value = v;
            },
            None => {
                proof {
                    let stop = digit_run_end(s, idx as int, end as int);
                    lemma_digit_run_continues(s, idx as int, i as int, end as int);
                    lemma_digit_run_bounds(s, i as int + 1, end as int);
                    lemma_digit_run_all_digits(s, idx as int, end as int);
                    lemma_decimal_value_monotone(s, idx as int, i as int + 1, stop);
                }
                return None;
            },
        }
        i += 1;
    }
    proof {
        lemma_digit_run_continues(s, idx as int, i as int, end as int);
    }
    Some((value, i))
}

/// Reads a digit run that may be absent: without a value the cursor stays
/// where it was.
pub fn parse_optional_digits(bytes: &[u8], idx: usize, end: usize) -> (r: (Option<u32>, usize))
    ensures
        r.0 == spec_parse_optional_digits(bytes@, idx as int, end as int).0,
        r.1 as int == spec_parse_optional_digits(bytes@, idx as int, end as int).1,
{
    match parse_digits(bytes, idx, end) {
        Some((v, next)) => (Some(v), next),
        None => (None, idx),
    }
}

/// The digits that spell `n` in base ten, without leading zeros.
pub open spec fn decimal_digits(n: nat) -> Seq<u8>
    decreases n,
{
    if n < 10 {
        seq![(0x30 + n) as u8]
    } else {
        decimal_digits(n / 10).push((0x30 + n % 10) as u8)
    }
}

/// The spelling of a number is not empty and holds digits only.
pub proof fn lemma_decimal_digits_are_digits(n: nat)
    ensures
        decimal_digits(n).len() > 0,
        forall|i: int| 0 <= i < decimal_digits(n).len() ==> is_digit(#[trigger] decimal_digits(n)[i]),
    decreases n,
{
    if n >= 10 {
        lemma_decimal_digits_are_digits(n / 10);
    }
}

/// Where `s` holds the spelling of `n` at `start`, these digits have the
/// value `n`.
pub proof fn lemma_decimal_value_of_digits(s: Seq<u8>, start: int, n: nat)
    requires
        0 <= start,
        start + decimal_digits(n).len() <= s.len(),
        s.subrange(start, start + decimal_digits(n).len()) == decimal_digits(n),
    ensures
        decimal_value(s, start, start + decimal_digits(n).len()) == n,
    decreases n,
{
    let d = decimal_digits(n);
    let stop = start + d.len();
    if n < 10 {
        assert(s[start] == d[0]);
        assert(decimal_value(s, start, start) == 0);
    } else {
        let front = decimal_digits(n / 10);
        assert(s.subrange(start, start + front.len()) =~= front) by {
            assert forall|k: int| 0 <= k < front.len() implies s.subrange(
                start,
                start + front.len(),
            )[k] == front[k] by {
                assert(s.subrange(start, stop)[k] == d[k]);
            }
        }
        lemma_decimal_value_of_digits(s, start, n / 10);
        assert(s[stop - 1] == d[d.len() - 1]) by {
            assert(s.subrange(start, stop)[d.len() - 1] == d[d.len() - 1]);
        }
    }
}

/// Reading the spelling of a number gives the number back: where `s` holds
/// the spelling of `n` at `start` and no digit follows it inside the
/// window, the read yields `n` and stops behind the spelling.
pub proof fn lemma_parse_decimal_digits(s: Seq<u8>, start: int, end: int, n: nat)
    requires
        0 <= start,
        start + decimal_digits(n).len() <= end <= s.len(),
        s.subrange(start, start + decimal_digits(n).len()) == decimal_digits(n),
        start + decimal_digits(n).len() == end || !is_digit(s[start + decimal_digits(n).len()]),
        n <= u32::MAX,
    ensures
        spec_parse_digits(s, start, end) == Some((n as u32, start + decimal_digits(n).len())),
{
    let d = decimal_digits(n);
    let stop = start + d.len();
    lemma_decimal_digits_are_digits(n);
    assert forall|k: int| start <= k < stop implies is_digit(#[trigger] s[k]) by {
        assert(s.subrange(start, stop)[k - start] == d[k - start]);
    }
    lemma_digit_run_continues(s, start, stop, end);
    lemma_decimal_value_of_digits(s, start, n);
}

/// A digit run that starts at or before a byte that is no digit ends at or
/// before that byte.
pub proof fn lemma_digit_run_stays_before(s: Seq<u8>, start: int, end: int, p: int)
    requires
        0 <= start <= p < s.len(),
        !is_digit(s[p]),
    ensures
        digit_run_end(s, start, end) <= p,
    decreases p - start,
{
    if start < p && start < end && is_digit(s[start]) {
        lemma_digit_run_stays_before(s, start + 1, end, p);
    }
}

/// A run of zeros spells zero.
pub proof fn lemma_zeros_have_value_zero(s: Seq<u8>, start: int, stop: int)
    requires
        0 <= start <= stop <= s.len(),
        forall|k: int| start <= k < stop ==> #[trigger] s[k] == '0' as u8,
    ensures
        decimal_value(s, start, stop) == 0,
    decreases stop - start,
{
    if start < stop {
        lemma_zeros_have_value_zero(s, start, stop - 1);
    }
}

/// A run of zeros that no digit follows reads as the number zero.
pub proof fn lemma_parse_zeros(s: Seq<u8>, start: int, stop: int, end: int)
    requires
        0 <= start < stop <= end <= s.len(),
        forall|k: int| start <= k < stop ==> #[trigger] s[k] == '0' as u8,
        stop == end || !is_digit(s[stop]),
    ensures
        spec_parse_digits(s, start, end) == Some((0u32, stop)),
{
    lemma_digit_run_continues(s, start, stop, end);
    lemma_zeros_have_value_zero(s, start, stop);
}

} // verus!
