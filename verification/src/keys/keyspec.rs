//! Parsing of key specifications such as `ctrl+shift+a`.
//!
//! A specification is a list of segments separated by `+`. Segments that
//! name a modifier set its flag, wherever they stand; of the others the last
//! one is the key. White space around the whole and around each segment is
//! dropped, and the case of ASCII letters does not matter.

use vstd::prelude::*;
use vstd::string::*;
use crate::text::{
    chars_of, eq_ignore_case, lemma_skip_spaces, lemma_skip_spaces_back, skip_spaces,
    skip_spaces_back, trim_window, trimmed, window_is,
};

verus! {

/// A parsed key specification: the key token and the modifiers asked for.
#[derive(Clone, Copy, Debug, PartialEq, Eq)]
pub struct ParsedKeyId<'a> {
    pub key: &'a str,
    pub ctrl: bool,
    pub shift: bool,
    pub alt: bool,
}

/// The mathematical value of a parsed key specification.
pub struct KeySpec {
    pub key: Seq<char>,
    pub ctrl: bool,
    pub shift: bool,
    pub alt: bool,
}

impl<'a> View for ParsedKeyId<'a> {
    type V = KeySpec;

    open spec fn view(&self) -> KeySpec {
        KeySpec { key: self.key@, ctrl: self.ctrl, shift: self.shift, alt: self.alt }
    }
}

/// What has been read of a specification so far.
pub struct KeyAcc {
    pub key: Option<Seq<char>>,
    pub ctrl: bool,
    pub shift: bool,
    pub alt: bool,
}

/// Whether a segment names the modifier Ctrl.
pub open spec fn names_ctrl(p: Seq<char>) -> bool {
    p.len() > 0 && (eq_ignore_case(p, "ctrl"@) || eq_ignore_case(p, "control"@))
}

/// Whether a segment names the modifier Shift.
pub open spec fn names_shift(p: Seq<char>) -> bool {
    p.len() > 0 && eq_ignore_case(p, "shift"@)
}

/// Whether a segment names the modifier Alt.
pub open spec fn names_alt(p: Seq<char>) -> bool {
    p.len() > 0 && (eq_ignore_case(p, "alt"@) || eq_ignore_case(p, "option"@))
}

/// Whether a segment names a key: it is not empty and names no modifier.
pub open spec fn names_key(p: Seq<char>) -> bool {
    p.len() > 0 && !names_ctrl(p) && !names_shift(p) && !names_alt(p)
}

/// The effect of one segment: an empty one changes nothing, a modifier's
/// name sets its flag, anything else becomes the key.
pub open spec fn apply_segment(acc: KeyAcc, p: Seq<char>) -> KeyAcc {
    if p.len() == 0 {
        acc
    } else if names_ctrl(p) {
        KeyAcc { ctrl: true, ..acc }
    } else if names_shift(p) {
        KeyAcc { shift: true, ..acc }
    } else if names_alt(p) {
        KeyAcc { alt: true, ..acc }
    } else {
        KeyAcc { key: Some(p), ..acc }
    }
}

/// The effect of the segments of `s[seg_start..hi)`, read from `i` on; the
/// segment that is open at `i` began at `seg_start`.
pub open spec fn scan_segments(s: Seq<char>, seg_start: int, i: int, hi: int, acc: KeyAcc) -> KeyAcc
    decreases hi - i,
{
    if i >= hi {
        apply_segment(acc, trimmed(s, seg_start, hi))
    } else if s[i] == '+' {
        scan_segments(s, i + 1, i + 1, hi, apply_segment(acc, trimmed(s, seg_start, i)))
    } else {
        scan_segments(s, seg_start, i + 1, hi, acc)
    }
}

/// The key token under its aliases: `plus` stands for `+`, and `esc` is
/// written in small letters.
pub open spec fn alias_of(key: Seq<char>) -> Seq<char> {
    if eq_ignore_case(key, "plus"@) {
        "+"@
    } else if eq_ignore_case(key, "esc"@) {
        "esc"@
    } else {
        key
    }
}

/// The part of a specification that holds its segments, as a window
/// `[lo, hi)`, and whether the specification forces the key `+`.
///
/// White space around the specification is dropped. A specification that
/// is `+` alone has no segments and forces `+`; one that ends in `++`
/// forces `+` too, and its segments end before the doubled sign.
pub open spec fn segment_window(s: Seq<char>) -> (int, int, bool) {
    let a = skip_spaces(s, 0, s.len() as int);
    let b = skip_spaces_back(s, a, s.len() as int);
    let plus_only = b - a == 1 && s[a] == '+';
    let doubled = b - a >= 2 && s[b - 1] == '+' && s[b - 2] == '+';
    let hi = if plus_only {
        a
    } else if doubled {
        b - 2
    } else {
        b
    };
    (a, hi, plus_only || doubled)
}

/// Whether a specification is empty once the white space around it is
/// dropped.
pub open spec fn is_blank(s: Seq<char>) -> bool {
    let a = skip_spaces(s, 0, s.len() as int);
    a >= skip_spaces_back(s, a, s.len() as int)
}

/// The value of a key specification, or nothing where it names no key.
///
/// A specification that is `+` alone, or that ends in `++`, has `+` as its
/// key unless one of its segments names another.
pub open spec fn spec_parse_key_id(s: Seq<char>) -> Option<KeySpec> {
    if is_blank(s) {
        None
    } else {
        let (lo, hi, forced) = segment_window(s);
        let start = KeyAcc {
            key: if forced {
                Some("+"@)
            } else {
                None
            },
            ctrl: false,
            shift: false,
            alt: false,
        };
        let acc = scan_segments(s, lo, lo, hi, start);
        match acc.key {
            Some(key) => Some(
                KeySpec { key: alias_of(key), ctrl: acc.ctrl, shift: acc.shift, alt: acc.alt },
            ),
            None => None,
        }
    }
}

/// The scanner's state: the window of the key token read last, if any, and
/// the flags.
struct Scan {
    key: Option<(usize, usize)>,
    ctrl: bool,
    shift: bool,
    alt: bool,
}

impl Scan {
    spec fn wf(&self, len: nat) -> bool {
        match self.key {
            Some((x, y)) => x < y <= len,
            None => true,
        }
    }

    spec fn acc(&self, s: Seq<char>, forced: bool) -> KeyAcc {
        KeyAcc {
            key: match self.key {
                Some((x, y)) => Some(s.subrange(x as int, y as int)),
                None => if forced {
                    Some("+"@)
                } else {
                    None
                },
            },
            ctrl: self.ctrl,
            shift: self.shift,
            alt: self.alt,
        }
    }
}

fn read_segment(chars: &[char], lo: usize, hi: usize, st: Scan, forced: Ghost<bool>) -> (r: Scan)
    requires
        lo <= hi <= chars.len(),
        st.wf(chars@.len()),
    ensures
        r.wf(chars@.len()),
        r.acc(chars@, forced@) == apply_segment(
            st.acc(chars@, forced@),
            trimmed(chars@, lo as int, hi as int),
        ),
{
    let (a, b) = trim_window(chars, lo, hi);
    if a == b {
        st
    } else if window_is(chars, a, b, "ctrl") || window_is(chars, a, b, "control") {
        Scan { ctrl: true, ..st }
    } else if window_is(chars, a, b, "shift") {
        Scan { shift: true, ..st }
    } else if window_is(chars, a, b, "alt") || window_is(chars, a, b, "option") {
        Scan { alt: true, ..st }
    } else {
        Scan { key: Some((a, b)), ..st }
    }
}

/// Parses a key specification.
///
/// Returns `None` where the specification is empty or names modifiers only.
pub fn parse_key_id<'a>(key_id: &'a str) -> (r: Option<ParsedKeyId<'a>>)
    ensures
        match r {
            Some(p) => spec_parse_key_id(key_id@) == Some(p@),
            None => spec_parse_key_id(key_id@) is None,
        },
{
    let chars = chars_of(key_id);
    let ghost s = chars@;
    let (a, b) = trim_window(chars.as_slice(), 0, chars.len());
    if a >= b {
        return None;
    }
    let plus_only = b - a == 1 && chars[a] == '+';
    let doubled = b - a >= 2 && chars[b - 1] == '+' && chars[b - 2] == '+';
    let forced = plus_only || doubled;
    let hi = if plus_only {
        a
    } else if doubled {
        b - 2
    } else {
        b
    };
    let mut st = Scan { key: None, ctrl: false, shift: false, alt: false };
    let ghost start = st.acc(s, forced);
    let mut seg_start = a;
    let mut i = a;
    while i < hi
        invariant
            s == chars@,
            a <= seg_start <= i <= hi <= chars.len(),
            st.wf(s.len()),
            scan_segments(s, a as int, a as int, hi as int, start) == scan_segments(
                s,
                seg_start as int,
                i as int,
                hi as int,
                st.acc(s, forced),
            ),
        decreases hi - i,
    {
        if chars[i] == '+' {
            st = read_segment(chars.as_slice(), seg_start, i, st, Ghost(forced));
            seg_start = i + 1;
        }
        i += 1;
    }
    st = read_segment(chars.as_slice(), seg_start, hi, st, Ghost(forced));
    let key: &'a str = match st.key {
        Some((x, y)) => {
            if window_is(chars.as_slice(), x, y, "plus") {
                "+"
            } else if window_is(chars.as_slice(), x, y, "esc") {
                "esc"
            } else {
                key_id.substring_char(x, y)
            }
        },
        None => {
            if !forced {
                return None;
            }
            proof {
                reveal_strlit("+");
                reveal_strlit("plus");
                reveal_strlit("esc");
            }
            "+"
        },
    };
    Some(ParsedKeyId { key, ctrl: st.ctrl, shift: st.shift, alt: st.alt })
}

/// `[i, j)` is one of the segments of `s[lo..hi)`: a stretch without `+`
/// that begins at `lo` or behind a `+` and ends at `hi` or before a `+`.
pub open spec fn is_segment(s: Seq<char>, lo: int, hi: int, i: int, j: int) -> bool {
    &&& lo <= i <= j <= hi
    &&& (i == lo || s[i - 1] == '+')
    &&& (j == hi || s[j] == '+')
    &&& forall|k: int| i <= k < j ==> s[k] != '+'
}

/// What a segment can name.
pub enum Role {
    Ctrl,
    Shift,
    Alt,
    Key,
}

/// Whether the segment `p` names `role`.
pub open spec fn names(role: Role, p: Seq<char>) -> bool {
    match role {
        Role::Ctrl => names_ctrl(p),
        Role::Shift => names_shift(p),
        Role::Alt => names_alt(p),
        Role::Key => names_key(p),
    }
}

/// Whether some segment of `s[lo..hi)` that begins at `from` or later
/// names `role`.
pub open spec fn some_segment(s: Seq<char>, lo: int, hi: int, from: int, role: Role) -> bool {
    exists|i: int, j: int| #[trigger]
        is_segment(s, lo, hi, i, j) && from <= i && names(role, trimmed(s, i, j))
}

/// Whether `[i, j)` is the last segment of `s[lo..hi)` that names a key.
pub open spec fn is_last_key_segment(s: Seq<char>, lo: int, hi: int, i: int, j: int) -> bool {
    &&& is_segment(s, lo, hi, i, j)
    &&& names_key(trimmed(s, i, j))
    &&& forall|i2: int, j2: int| #[trigger]
        is_segment(s, lo, hi, i2, j2) && i < i2 ==> !names_key(trimmed(s, i2, j2))
}

/// What reading the segments comes to, stated without the order of
/// reading.
///
/// A flag is set where it was set before or some segment names its
/// modifier, wherever that segment stands. The key is the text of the last
/// segment that names one; where none does, the key is what it was before.
pub proof fn law_segments(s: Seq<char>, lo: int, hi: int, acc: KeyAcc)
    requires
        0 <= lo <= hi <= s.len(),
    ensures
        ({
            let r = scan_segments(s, lo, lo, hi, acc);
            &&& r.ctrl == (acc.ctrl || some_segment(s, lo, hi, lo, Role::Ctrl))
            &&& r.shift == (acc.shift || some_segment(s, lo, hi, lo, Role::Shift))
            &&& r.alt == (acc.alt || some_segment(s, lo, hi, lo, Role::Alt))
            &&& !some_segment(s, lo, hi, lo, Role::Key) ==> r.key == acc.key
            &&& forall|i: int, j: int| #[trigger]
                is_last_key_segment(s, lo, hi, i, j) ==> r.key == Some(trimmed(s, i, j))
        }),
{
    lemma_segments_from(s, lo, hi, lo, lo, acc);
}

/// The segments of `s[lo..hi)` that begin at `seg_start` or later, where
/// no `+` stands in `s[seg_start..i)`: the one that begins at `seg_start`,
/// and those that begin behind the next `+`.
proof fn lemma_segments_split(s: Seq<char>, lo: int, hi: int, seg_start: int, i: int)
    requires
        0 <= lo <= seg_start <= i <= hi <= s.len(),
        seg_start == lo || s[seg_start - 1] == '+',
        forall|k: int| seg_start <= k < i ==> s[k] != '+',
        i == hi || s[i] == '+',
    ensures
        is_segment(s, lo, hi, seg_start, i),
        forall|a: int, b: int| #[trigger]
            is_segment(s, lo, hi, a, b) && seg_start <= a ==> (a == seg_start && b == i) || i < a,
{
    assert forall|a: int, b: int| #[trigger]
        is_segment(s, lo, hi, a, b) && seg_start <= a implies (a == seg_start && b == i) || i
        < a by {
        if a > seg_start {
            // A segment that begins later begins behind a `+`.
            assert(s[a - 1] == '+');
        } else {
            if b < i {
                assert(s[b] == '+');
            } else if b > i {
                assert(s[i] != '+');
            }
        }
    }
}

/// A segment names one thing at most: the names of the modifiers differ in
/// length.
pub proof fn lemma_names_one_role(p: Seq<char>)
    ensures
        !(names_ctrl(p) && names_shift(p)),
        !(names_ctrl(p) && names_alt(p)),
        !(names_shift(p) && names_alt(p)),
{
    reveal_strlit("ctrl");
    reveal_strlit("control");
    reveal_strlit("shift");
    reveal_strlit("alt");
    reveal_strlit("option");
}

/// Whether a segment names `role` at `seg_start` or later: the segment at
/// `seg_start` does, or one behind it.
proof fn lemma_some_segment_split(
    s: Seq<char>,
    lo: int,
    hi: int,
    seg_start: int,
    i: int,
    role: Role,
)
    requires
        0 <= lo <= seg_start <= i <= hi <= s.len(),
        seg_start == lo || s[seg_start - 1] == '+',
        forall|k: int| seg_start <= k < i ==> s[k] != '+',
        i == hi || s[i] == '+',
    ensures
        some_segment(s, lo, hi, seg_start, role) == (names(role, trimmed(s, seg_start, i))
            || some_segment(s, lo, hi, i + 1, role)),
{
    let p = trimmed(s, seg_start, i);
    lemma_segments_split(s, lo, hi, seg_start, i);
    if names(role, p) {
        assert(is_segment(s, lo, hi, seg_start, i) && seg_start <= seg_start && names(
            role,
            trimmed(s, seg_start, i),
        ));
    }
    if some_segment(s, lo, hi, i + 1, role) {
        let (a, b) = choose|a: int, b: int| #[trigger]
            is_segment(s, lo, hi, a, b) && i + 1 <= a && names(role, trimmed(s, a, b));
        assert(is_segment(s, lo, hi, a, b) && seg_start <= a && names(role, trimmed(s, a, b)));
    }
    if some_segment(s, lo, hi, seg_start, role) {
        let (a, b) = choose|a: int, b: int| #[trigger]
            is_segment(s, lo, hi, a, b) && seg_start <= a && names(role, trimmed(s, a, b));
        if !(a == seg_start && b == i) {
            assert(is_segment(s, lo, hi, a, b) && i + 1 <= a && names(role, trimmed(s, a, b)));
        }
    }
}

proof fn lemma_segments_from(s: Seq<char>, lo: int, hi: int, seg_start: int, i: int, acc: KeyAcc)
    requires
        0 <= lo <= seg_start <= i <= hi <= s.len(),
        seg_start == lo || s[seg_start - 1] == '+',
        forall|k: int| seg_start <= k < i ==> s[k] != '+',
    ensures
        ({
            let r = scan_segments(s, seg_start, i, hi, acc);
            &&& r.ctrl == (acc.ctrl || some_segment(s, lo, hi, seg_start, Role::Ctrl))
            &&& r.shift == (acc.shift || some_segment(s, lo, hi, seg_start, Role::Shift))
            &&& r.alt == (acc.alt || some_segment(s, lo, hi, seg_start, Role::Alt))
            &&& !some_segment(s, lo, hi, seg_start, Role::Key) ==> r.key == acc.key
            &&& forall|a: int, b: int| #[trigger]
                is_last_key_segment(s, lo, hi, a, b) && seg_start <= a ==> r.key == Some(
                    trimmed(s, a, b),
                )
        }),
    decreases hi - i,
{
    if i < hi && s[i] != '+' {
        lemma_segments_from(s, lo, hi, seg_start, i + 1, acc);
    } else {
        // The segment `[seg_start, i)` is complete.
        let p = trimmed(s, seg_start, i);
        let next = apply_segment(acc, p);
        let r = scan_segments(s, seg_start, i, hi, acc);
        lemma_names_one_role(p);
        lemma_segments_split(s, lo, hi, seg_start, i);
        lemma_some_segment_split(s, lo, hi, seg_start, i, Role::Ctrl);
        lemma_some_segment_split(s, lo, hi, seg_start, i, Role::Shift);
        lemma_some_segment_split(s, lo, hi, seg_start, i, Role::Alt);
        lemma_some_segment_split(s, lo, hi, seg_start, i, Role::Key);
        if i < hi {
            lemma_segments_from(s, lo, hi, i + 1, i + 1, next);
            assert(r == scan_segments(s, i + 1, i + 1, hi, next));
        } else {
            assert(r == next);
            // Behind `hi` no segment begins.
            assert(!some_segment(s, lo, hi, i + 1, Role::Ctrl));
            assert(!some_segment(s, lo, hi, i + 1, Role::Shift));
            assert(!some_segment(s, lo, hi, i + 1, Role::Alt));
            assert(!some_segment(s, lo, hi, i + 1, Role::Key));
        }
        assert forall|a: int, b: int| #[trigger]
            is_last_key_segment(s, lo, hi, a, b) && seg_start <= a implies r.key == Some(
            trimmed(s, a, b),
        ) by {
            if a == seg_start && b == i {
                // No later segment names a key, so this one's key stays.
                if some_segment(s, lo, hi, i + 1, Role::Key) {
                    let (a2, b2) = choose|a2: int, b2: int| #[trigger]
                        is_segment(s, lo, hi, a2, b2) && i + 1 <= a2 && names(
                            Role::Key,
                            trimmed(s, a2, b2),
                        );
                    assert(is_segment(s, lo, hi, a2, b2) && a < a2);
                }
                assert(!some_segment(s, lo, hi, i + 1, Role::Key));
                assert(next.key == Some(p));
            } else {
                assert(i + 1 <= a);
            }
        }
    }
}

/// What a key specification means, stated without the order of reading.
///
/// A modifier is asked for exactly where some segment names it. The key is
/// the last segment that names one, under its aliases; without such a
/// segment the key is `+` where the specification forces it, and the
/// specification names no key otherwise.
pub proof fn law_key_specification(s: Seq<char>)
    requires
        !is_blank(s),
    ensures
        ({
            let (lo, hi, forced) = segment_window(s);
            match spec_parse_key_id(s) {
                Some(id) => {
                    &&& id.ctrl == some_segment(s, lo, hi, lo, Role::Ctrl)
                    &&& id.shift == some_segment(s, lo, hi, lo, Role::Shift)
                    &&& id.alt == some_segment(s, lo, hi, lo, Role::Alt)
                    &&& forall|i: int, j: int| #[trigger]
                        is_last_key_segment(s, lo, hi, i, j) ==> id.key == alias_of(
                            trimmed(s, i, j),
                        )
                    &&& !some_segment(s, lo, hi, lo, Role::Key) ==> forced && id.key == "+"@
                },
                None => !forced && !some_segment(s, lo, hi, lo, Role::Key),
            }
        }),
{
    let (lo, hi, forced) = segment_window(s);
    let start = KeyAcc {
        key: if forced {
            Some("+"@)
        } else {
            None
        },
        ctrl: false,
        shift: false,
        alt: false,
    };
    let acc = scan_segments(s, lo, lo, hi, start);
    assert(0 <= lo <= hi <= s.len()) by {
        lemma_skip_spaces(s, 0, s.len() as int);
        lemma_skip_spaces_back(s, skip_spaces(s, 0, s.len() as int), s.len() as int);
    }
    law_segments(s, lo, hi, start);
    lemma_plus_has_no_alias();
    lemma_some_key_segment_has_last(s, lo, hi);
    if some_segment(s, lo, hi, lo, Role::Key) {
        let (a, b) = choose|a: int, b: int| is_last_key_segment(s, lo, hi, a, b);
        assert(acc.key == Some(trimmed(s, a, b)));
    } else {
        assert(acc.key == start.key);
    }
}

/// The key `+` stands for itself.
proof fn lemma_plus_has_no_alias()
    ensures
        alias_of("+"@) == "+"@,
{
    reveal_strlit("+");
    reveal_strlit("plus");
    reveal_strlit("esc");
}

/// Where some segment names a key, one of them is the last to do so.
proof fn lemma_some_key_segment_has_last(s: Seq<char>, lo: int, hi: int)
    requires
        0 <= lo <= hi <= s.len(),
    ensures
        some_segment(s, lo, hi, lo, Role::Key) ==> exists|a: int, b: int|
            is_last_key_segment(s, lo, hi, a, b),
{
    lemma_last_key_segment(s, lo, hi, hi);
    if some_segment(s, lo, hi, lo, Role::Key) {
        let (i, j) = choose|i: int, j: int| #[trigger]
            is_segment(s, lo, hi, i, j) && lo <= i && names(Role::Key, trimmed(s, i, j));
        assert(is_segment(s, lo, hi, i, j) && i <= hi && names_key(trimmed(s, i, j)));
        let (a, b) = choose|a: int, b: int| #[trigger]
            is_segment(s, lo, hi, a, b) && a <= hi && names_key(trimmed(s, a, b)) && forall|
                i2: int,
                j2: int,
            | #[trigger]
                is_segment(s, lo, hi, i2, j2) && a < i2 <= hi ==> !names_key(trimmed(s, i2, j2));
        assert(is_last_key_segment(s, lo, hi, a, b));
    }
}

/// Where some segment names a key, one of them is the last to do so.
proof fn lemma_last_key_segment(s: Seq<char>, lo: int, hi: int, bound: int)
    requires
        0 <= lo <= hi <= s.len(),
        lo - 1 <= bound <= hi,
    ensures
        (exists|i: int, j: int| #[trigger]
            is_segment(s, lo, hi, i, j) && i <= bound && names_key(trimmed(s, i, j)))
            ==> exists|i: int, j: int| #[trigger]
            is_segment(s, lo, hi, i, j) && i <= bound && names_key(trimmed(s, i, j)) && forall|
                i2: int,
                j2: int,
            | #[trigger]
                is_segment(s, lo, hi, i2, j2) && i < i2 <= bound ==> !names_key(
                    trimmed(s, i2, j2),
                ),
    decreases bound - lo + 1,
{
    if bound >= lo {
        lemma_last_key_segment(s, lo, hi, bound - 1);
        if exists|j: int| #[trigger] is_segment(s, lo, hi, bound, j) && names_key(trimmed(s, bound, j)) {
            let j = choose|j: int| #[trigger]
                is_segment(s, lo, hi, bound, j) && names_key(trimmed(s, bound, j));
            assert(is_segment(s, lo, hi, bound, j) && bound <= bound && names_key(
                trimmed(s, bound, j),
            ));
        } else if exists|i: int, j: int| #[trigger]
            is_segment(s, lo, hi, i, j) && i <= bound && names_key(trimmed(s, i, j)) {
            let (i, j) = choose|i: int, j: int| #[trigger]
                is_segment(s, lo, hi, i, j) && i <= bound && names_key(trimmed(s, i, j));
            assert(i <= bound - 1);
            assert(is_segment(s, lo, hi, i, j) && i <= bound - 1 && names_key(trimmed(s, i, j)));
            let (a, b) = choose|a: int, b: int| #[trigger]
                is_segment(s, lo, hi, a, b) && a <= bound - 1 && names_key(trimmed(s, a, b))
                    && forall|i2: int, j2: int| #[trigger]
                    is_segment(s, lo, hi, i2, j2) && a < i2 <= bound - 1 ==> !names_key(
                        trimmed(s, i2, j2),
                    );
            assert(is_segment(s, lo, hi, a, b) && a <= bound && names_key(trimmed(s, a, b)));
        }
    }
}

} // verus!
