//! Comparison, case folding and trimming of strings, character by
//! character.

use vstd::prelude::*;
use vstd::string::*;
use vstd::utf8::encode_utf8_decode_utf8;

verus! {

/// The characters of `s`, in order.
pub fn chars_of(s: &str) -> (v: Vec<char>)
    ensures
        v@ == s@,
{
    let mut v: Vec<char> = Vec::new();
    for c in it: s.chars()
        invariant
            v@ == it.seq().take(it.index() as int),
            it.seq() == s@,
    {
        v.push(c);
    }
    v
}

/// Whether two slices hold the same bytes.
pub fn bytes_eq(a: &[u8], b: &[u8]) -> (r: bool)
    ensures
        r == (a@ == b@),
{
    if a.len() != b.len() {
        return false;
    }
    let mut i: usize = 0;
    while i < a.len()
        invariant
            a.len() == b.len(),
            i <= a.len(),
            forall|k: int| 0 <= k < i ==> a@[k] == b@[k],
        decreases a.len() - i,
    {
        if a[i] != b[i] {
            return false;
        }
        i += 1;
    }
    assert(a@ =~= b@);
    true
}

/// Whether two strings hold the same characters.
pub fn str_eq(a: &str, b: &str) -> (r: bool)
    ensures
        r == (a@ == b@),
{
    proof {
        encode_utf8_decode_utf8(a@);
        encode_utf8_decode_utf8(b@);
    }
    bytes_eq(a.as_bytes(), b.as_bytes())
}

/// An ASCII capital letter as its small letter; any other character unchanged.
pub open spec fn spec_ascii_lower(c: char) -> char {
    if 'A' <= c && c <= 'Z' {
        ((c as u8) + 32) as char
    } else {
        c
    }
}

/// Folds an ASCII capital letter to its small letter.
pub fn ascii_lower(c: char) -> (r: char)
    ensures
        r == spec_ascii_lower(c),
{
    if 'A' <= c && c <= 'Z' {
        ((c as u8) + 32) as char
    } else {
        c
    }
}

/// Equality of two character sequences up to the case of ASCII letters.
pub open spec fn eq_ignore_case(a: Seq<char>, b: Seq<char>) -> bool {
    &&& a.len() == b.len()
    &&& forall|i: int| 0 <= i < a.len() ==> spec_ascii_lower(#[trigger] a[i]) == spec_ascii_lower(b[i])
}

/// Whether the characters `chars[lo..hi)` spell `name` up to the case of
/// ASCII letters.
pub fn window_is(chars: &[char], lo: usize, hi: usize, name: &str) -> (r: bool)
    requires
        lo <= hi <= chars.len(),
    ensures
        r == eq_ignore_case(chars@.subrange(lo as int, hi as int), name@),
{
    let ghost w = chars@.subrange(lo as int, hi as int);
    let mut i: usize = lo;
    let mut same = true;
    for c in it: name.chars()
        invariant
            it.seq() == name@,
            w == chars@.subrange(lo as int, hi as int),
            lo <= hi <= chars.len(),
            same ==> i == lo + it.index() && i <= hi,
            same ==> forall|k: int| 0 <= k < it.index() ==> spec_ascii_lower(#[trigger] w[k]) == spec_ascii_lower(name@[k]),
            !same ==> !eq_ignore_case(w, name@),
    {
        if same {
            if i >= hi {
                same = false;
            } else if ascii_lower(chars[i]) != ascii_lower(c) {
                assert(w[i - lo] == chars@[i as int]);
                same = false;
            } else {
                assert(w[i - lo] == chars@[i as int]);
                i += 1;
            }
        }
    }
    same && i == hi
}

/// Whether the characters `chars[lo..hi)` spell `name` exactly.
pub fn window_eq(chars: &[char], lo: usize, hi: usize, name: &str) -> (r: bool)
    requires
        lo <= hi <= chars.len(),
    ensures
        r == (chars@.subrange(lo as int, hi as int) == name@),
{
    let ghost w = chars@.subrange(lo as int, hi as int);
    let mut i: usize = lo;
    let mut same = true;
    for c in it: name.chars()
        invariant
            it.seq() == name@,
            w == chars@.subrange(lo as int, hi as int),
            lo <= hi <= chars.len(),
            same ==> i == lo + it.index() && i <= hi,
            same ==> forall|k: int| 0 <= k < it.index() ==> #[trigger] w[k] == name@[k],
            !same ==> w != name@,
    {
        if same {
            if i >= hi {
                same = false;
            } else if chars[i] != c {
                assert(w[i - lo] == chars@[i as int]);
                same = false;
            } else {
                assert(w[i - lo] == chars@[i as int]);
                i += 1;
            }
        }
    }
    if same && i == hi {
        assert(w =~= name@);
        true
    } else {
        false
    }
}

/// `s` begins with `prefix`.
pub open spec fn has_prefix(s: Seq<char>, prefix: Seq<char>) -> bool {
    prefix.len() <= s.len() && s.subrange(0, prefix.len() as int) == prefix
}

/// `s` ends with `suffix`.
pub open spec fn has_suffix(s: Seq<char>, suffix: Seq<char>) -> bool {
    suffix.len() <= s.len() && s.subrange(s.len() - suffix.len(), s.len() as int) == suffix
}

/// Whether `chars` begin with `prefix`.
pub fn starts_with(chars: &[char], prefix: &str) -> (r: bool)
    ensures
        r == has_prefix(chars@, prefix@),
{
    let n = prefix.unicode_len();
    n <= chars.len() && window_eq(chars, 0, n, prefix)
}

/// Whether `chars` end with `suffix`.
pub fn ends_with(chars: &[char], suffix: &str) -> (r: bool)
    ensures
        r == has_suffix(chars@, suffix@),
{
    let n = suffix.unicode_len();
    n <= chars.len() && window_eq(chars, chars.len() - n, chars.len(), suffix)
}

/// Whether `c` is white space: a character with Unicode's `White_Space`
/// property.
pub open spec fn is_space(c: char) -> bool {
    let v = c as u32;
    ||| 0x09 <= v <= 0x0d
    ||| v == 0x20
    ||| v == 0x85
    ||| v == 0xa0
    ||| v == 0x1680
    ||| 0x2000 <= v <= 0x200a
    ||| v == 0x2028
    ||| v == 0x2029
    ||| v == 0x202f
    ||| v == 0x205f
    ||| v == 0x3000
}

/// The first index in `[lo, hi]` that does not hold white space, or `hi`.
pub open spec fn skip_spaces(s: Seq<char>, lo: int, hi: int) -> int
    decreases hi - lo,
{
    if 0 <= lo < hi && lo < s.len() && is_space(s[lo]) {
        skip_spaces(s, lo + 1, hi)
    } else {
        lo
    }
}

/// The end of `s[lo..hi)` once its trailing white space is dropped.
pub open spec fn skip_spaces_back(s: Seq<char>, lo: int, hi: int) -> int
    decreases hi - lo,
{
    if 0 <= lo < hi && hi <= s.len() && is_space(s[hi - 1]) {
        skip_spaces_back(s, lo, hi - 1)
    } else {
        hi
    }
}

/// The segment `s[lo..hi)` without the white space around it.
pub open spec fn trimmed(s: Seq<char>, lo: int, hi: int) -> Seq<char> {
    let a = skip_spaces(s, lo, hi);
    s.subrange(a, skip_spaces_back(s, a, hi))
}

/// What trimming leaves: the characters dropped at either end are white
/// space, and what is left is empty or begins and ends with a character
/// that is none.
pub proof fn law_trimming_drops_white_space_only(s: Seq<char>, lo: int, hi: int)
    requires
        0 <= lo <= hi <= s.len(),
    ensures
        ({
            let a = skip_spaces(s, lo, hi);
            let b = skip_spaces_back(s, a, hi);
            &&& lo <= a <= b <= hi
            &&& trimmed(s, lo, hi) == s.subrange(a, b)
            &&& forall|k: int| lo <= k < a ==> is_space(#[trigger] s[k])
            &&& forall|k: int| b <= k < hi ==> is_space(#[trigger] s[k])
            &&& a < b ==> !is_space(s[a]) && !is_space(s[b - 1])
        }),
{
    lemma_skip_spaces(s, lo, hi);
    lemma_skip_spaces_back(s, skip_spaces(s, lo, hi), hi);
}

/// Where the leading white space of a window ends.
pub proof fn lemma_skip_spaces(s: Seq<char>, lo: int, hi: int)
    requires
        0 <= lo <= hi <= s.len(),
    ensures
        lo <= skip_spaces(s, lo, hi) <= hi,
        forall|k: int| lo <= k < skip_spaces(s, lo, hi) ==> is_space(#[trigger] s[k]),
        skip_spaces(s, lo, hi) < hi ==> !is_space(s[skip_spaces(s, lo, hi)]),
    decreases hi - lo,
{
    if lo < hi && is_space(s[lo]) {
        lemma_skip_spaces(s, lo + 1, hi);
    }
}

/// Where the trailing white space of a window begins.
pub proof fn lemma_skip_spaces_back(s: Seq<char>, lo: int, hi: int)
    requires
        0 <= lo <= hi <= s.len(),
    ensures
        lo <= skip_spaces_back(s, lo, hi) <= hi,
        forall|k: int| skip_spaces_back(s, lo, hi) <= k < hi ==> is_space(#[trigger] s[k]),
        lo < skip_spaces_back(s, lo, hi) ==> !is_space(s[skip_spaces_back(s, lo, hi) - 1]),
    decreases hi - lo,
{
    if lo < hi && is_space(s[hi - 1]) {
        lemma_skip_spaces_back(s, lo, hi - 1);
    }
}

/// Whether `c` is white space.
pub fn is_whitespace(c: char) -> (r: bool)
    ensures
        r == is_space(c),
{
    let v = c as u32;
    (0x09 <= v && v <= 0x0d) || v == 0x20 || v == 0x85 || v == 0xa0 || v == 0x1680 || (0x2000 <= v
        && v <= 0x200a) || v == 0x2028 || v == 0x2029 || v == 0x202f || v == 0x205f || v == 0x3000
}

/// The window `chars[lo..hi)` without the white space around it.
pub fn trim_window(chars: &[char], lo: usize, hi: usize) -> (r: (usize, usize))
    requires
        lo <= hi <= chars.len(),
    ensures
        r.0 == skip_spaces(chars@, lo as int, hi as int),
        r.1 == skip_spaces_back(chars@, r.0 as int, hi as int),
        lo <= r.0 <= r.1 <= hi,
{
    let mut a = lo;
    while a < hi && is_whitespace(chars[a])
        invariant
            lo <= a <= hi <= chars.len(),
            skip_spaces(chars@, lo as int, hi as int) == skip_spaces(chars@, a as int, hi as int),
        decreases hi - a,
    {
        a += 1;
    }
    let mut b = hi;
    while a < b && is_whitespace(chars[b - 1])
        invariant
            a <= b <= hi <= chars.len(),
            skip_spaces_back(chars@, a as int, hi as int) == skip_spaces_back(
                chars@,
                a as int,
                b as int,
            ),
        decreases b - a,
    {
        b -= 1;
    }
    (a, b)
}

} // verus!
