//! Character-level text utilities: whitespace and digit classes, trimming,
//! visible length under ANSI color escapes, and space padding.

use vstd::prelude::*;
use vstd::string::StrSliceExecFns;
use vstd::string::StringExecFns;

verus! {

// ── character classes ───────────────────────────────────────────────────────

/// ASCII whitespace, the separator class used by the tabular diagnostic output.
pub open spec fn is_ws_char(c: char) -> bool {
    c == ' ' || c == '\t' || c == '\n' || c == '\r' || c == '\u{b}' || c == '\u{c}'
}

pub open spec fn is_digit_char(c: char) -> bool {
    ('0' as u32) <= (c as u32) && (c as u32) <= ('9' as u32)
}

/// Characters allowed between the `ESC [` introducer and the final `m` of a
/// color escape sequence.
pub open spec fn is_csi_body_char(c: char) -> bool {
    is_digit_char(c) || c == ';'
}

pub fn ws_char(c: char) -> (r: bool)
    ensures
        r == is_ws_char(c),
{
    c == ' ' || c == '\t' || c == '\n' || c == '\r' || c == '\u{b}' || c == '\u{c}'
}

pub fn digit_char(c: char) -> (r: bool)
    ensures
        r == is_digit_char(c),
{
    ('0' as u32) <= (c as u32) && (c as u32) <= ('9' as u32)
}

pub fn csi_body_char(c: char) -> (r: bool)
    ensures
        r == is_csi_body_char(c),
{
    digit_char(c) || c == ';'
}

// ── chars of a string ───────────────────────────────────────────────────────

/// The characters of `s`, in order, as a vector.
pub fn to_chars(s: &str) -> (v: Vec<char>)
    ensures
        v@ == s@,
{
    let n: usize = s.unicode_len();
    let mut v: Vec<char> = Vec::new();
    let mut i: usize = 0;
    while i < n
        invariant
            n == s@.len(),
            i <= n,
            v@ == s@.subrange(0, i as int),
        decreases n - i,
    {
        let c = s.get_char(i);
        v.push(c);
        i = i + 1;
        proof {
            assert(v@ =~= s@.subrange(0, i as int));
        }
    }
    proof {
        assert(v@ =~= s@);
    }
    v
}

// ── visible length ──────────────────────────────────────────────────────────

/// First position at or after `j` whose character is not a digit or `;`.
pub open spec fn csi_body_end(s: Seq<char>, j: int) -> int
    decreases s.len() - j when 0 <= j <= s.len()
{
    if j < s.len() && is_csi_body_char(s[j]) {
        csi_body_end(s, j + 1)
    } else {
        j
    }
}

pub proof fn lemma_csi_body_end_bounds(s: Seq<char>, j: int)
    requires
        0 <= j <= s.len(),
    ensures
        j <= csi_body_end(s, j) <= s.len(),
    decreases s.len() - j,
{
    if j < s.len() && is_csi_body_char(s[j]) {
        lemma_csi_body_end_bounds(s, j + 1);
    }
}

/// A color escape sequence (`ESC [`, digits and `;`, then `m`) starts at `i`.
pub open spec fn esc_at(s: Seq<char>, i: int) -> bool {
    &&& 0 <= i
    &&& i + 1 < s.len()
    &&& s[i] == '\u{1b}'
    &&& s[i + 1] == '['
    &&& csi_body_end(s, i + 2) < s.len()
    &&& s[csi_body_end(s, i + 2)] == 'm'
}

/// One past the final `m` of the escape sequence starting at `i`.
pub open spec fn esc_end(s: Seq<char>, i: int) -> int {
    csi_body_end(s, i + 2) + 1
}

/// Number of characters of `s` from position `i` on that are not part of a
/// color escape sequence.
pub open spec fn vlen_from(s: Seq<char>, i: int) -> int
    decreases s.len() - i when 0 <= i <= s.len()
{
    if i >= s.len() {
        0
    } else if esc_at(s, i) {
        proof {
            lemma_csi_body_end_bounds(s, i + 2);
        }
        vlen_from(s, esc_end(s, i))
    } else {
        1 + vlen_from(s, i + 1)
    }
}

/// Visible length: the number of characters left after removing every color
/// escape sequence.
pub open spec fn spec_vlen(s: Seq<char>) -> int {
    vlen_from(s, 0)
}

pub proof fn lemma_vlen_from_bounds(s: Seq<char>, i: int)
    requires
        0 <= i <= s.len(),
    ensures
        0 <= vlen_from(s, i) <= s.len() - i,
    decreases s.len() - i,
{
    if i >= s.len() {
    } else if esc_at(s, i) {
        lemma_csi_body_end_bounds(s, i + 2);
        assert(esc_end(s, i) >= i + 3);
        lemma_vlen_from_bounds(s, esc_end(s, i));
    } else {
        lemma_vlen_from_bounds(s, i + 1);
    }
}

/// Visible length of a string: its character count, not counting color
/// escape sequences.
pub fn vlen(s: &str) -> (r: usize)
    ensures
        r == spec_vlen(s@),
{
    let v = to_chars(s);
    let n: usize = v.len();
    let mut i: usize = 0;
    let mut cnt: usize = 0;
    proof {
        lemma_vlen_from_bounds(s@, 0);
    }
    while i < n
        invariant
            n == s@.len(),
            v@ == s@,
            i <= n,
            cnt <= i,
            spec_vlen(s@) == cnt + vlen_from(s@, i as int),
        decreases n - i,
    {
        proof {
            lemma_vlen_from_bounds(s@, i as int);
        }
        // does an escape sequence start at i?
        let mut is_esc = false;
        let mut nexti: usize = i + 1;
        if i + 1 < n && v[i] == '\u{1b}' && v[i + 1] == '[' {
            let mut j: usize = i + 2;
            while j < n && csi_body_char(v[j])
                invariant
                    n == s@.len(),
                    v@ == s@,
                    i + 2 <= j <= n,
                    csi_body_end(s@, i + 2) == csi_body_end(s@, j as int),
                decreases n - j,
            {
                j = j + 1;
            }
            proof {
                assert(csi_body_end(s@, j as int) == j);
            }
            if j < n && v[j] == 'm' {
                is_esc = true;
                nexti = j + 1;
                proof {
                    assert(esc_at(s@, i as int));
                    assert(nexti == esc_end(s@, i as int));
                }
            }
        }
        if is_esc {
            i = nexti;
        } else {
            proof {
                assert(!esc_at(s@, i as int));
            }
            cnt = cnt + 1;
            i = i + 1;
        }
    }
    cnt
}

// ── properties of the visible length ────────────────────────────────────────

/// A text with no escape character has visible length equal to its character
/// count.
pub proof fn lemma_vlen_plain(s: Seq<char>)
    requires
        forall|k: int| 0 <= k < s.len() ==> s[k] != '\u{1b}',
    ensures
        spec_vlen(s) == s.len(),
{
    lemma_vlen_from_plain_suffix(s, 0);
}

/// A text made of nothing but color escape sequences, one after another,
/// starting at position `i`.
pub open spec fn only_escapes_from(s: Seq<char>, i: int) -> bool
    decreases s.len() - i when 0 <= i <= s.len()
{
    if i >= s.len() {
        true
    } else if esc_at(s, i) {
        proof {
            lemma_csi_body_end_bounds(s, i + 2);
        }
        only_escapes_from(s, esc_end(s, i))
    } else {
        false
    }
}

/// A text containing only color escape sequences has visible length zero.
pub proof fn lemma_vlen_escapes_only(s: Seq<char>)
    requires
        only_escapes_from(s, 0),
    ensures
        spec_vlen(s) == 0,
{
    lemma_vlen_from_escapes_only(s, 0);
}

proof fn lemma_vlen_from_escapes_only(s: Seq<char>, i: int)
    requires
        0 <= i <= s.len(),
        only_escapes_from(s, i),
    ensures
        vlen_from(s, i) == 0,
    decreases s.len() - i,
{
    if i < s.len() {
        lemma_csi_body_end_bounds(s, i + 2);
        lemma_vlen_from_escapes_only(s, esc_end(s, i));
    }
}

// ── spaces and padding ──────────────────────────────────────────────────────

/// `n` space characters.
pub open spec fn spaces(n: int) -> Seq<char> {
    Seq::new(if n >= 0 { n as nat } else { 0 }, |i: int| ' ')
}

pub fn make_spaces(n: usize) -> (r: String)
    ensures
        r@ == spaces(n as int),
{
    let mut r = String::new();
    let mut i: usize = 0;
    while i < n
        invariant
            i <= n,
            r@ == spaces(i as int),
        decreases n - i,
    {
        r.append(" ");
        i = i + 1;
        proof {
            reveal_strlit(" ");
            assert(r@ =~= spaces(i as int));
        }
    }
    r
}

/// Appending spaces adds exactly their count to the visible length.
pub proof fn lemma_vlen_append_spaces(s: Seq<char>, n: int)
    requires
        n >= 0,
    ensures
        spec_vlen(s + spaces(n)) == spec_vlen(s) + n,
{
    lemma_vlen_from_pad(s, n, 0);
}

/// No space is part of an escape body, so appending spaces never completes a
/// dangling escape introducer: the body scan ends at the same position.
proof fn lemma_csi_body_end_pad(s: Seq<char>, n: int, j: int)
    requires
        n >= 0,
        0 <= j <= s.len(),
    ensures
        csi_body_end(s + spaces(n), j) == csi_body_end(s, j),
    decreases s.len() - j,
{
    let t = s + spaces(n);
    if j < s.len() && is_csi_body_char(s[j]) {
        lemma_csi_body_end_pad(s, n, j + 1);
    } else if j == s.len() && n > 0 {
        assert(t[j] == ' ');
        assert(!is_csi_body_char(t[j]));
    }
}

proof fn lemma_vlen_from_pad(s: Seq<char>, n: int, i: int)
    requires
        n >= 0,
        0 <= i <= s.len(),
    ensures
        vlen_from(s + spaces(n), i) == vlen_from(s, i) + n,
    decreases s.len() - i,
{
    let t = s + spaces(n);
    if i == s.len() {
        assert(forall|k: int| i <= k < t.len() ==> t[k] == ' ');
        lemma_vlen_from_plain_suffix(t, i);
    } else if i + 2 <= s.len() {
        lemma_csi_body_end_pad(s, n, i + 2);
        lemma_csi_body_end_bounds(s, i + 2);
        if esc_at(s, i) {
            assert(esc_at(t, i));
            assert(esc_end(t, i) == esc_end(s, i));
            lemma_vlen_from_pad(s, n, esc_end(s, i));
        } else {
            assert(!esc_at(t, i));
            lemma_vlen_from_pad(s, n, i + 1);
        }
    } else {
        // i + 1 == s.len(): an escape at i would need t[i + 1] to be '[',
        // but that position, if it exists at all, holds a space
        assert(!esc_at(s, i));
        if i + 1 < t.len() {
            assert(t[i + 1] == ' ');
        }
        assert(!esc_at(t, i));
        lemma_vlen_from_pad(s, n, i + 1);
    }
}

/// From a position after which every character is plain (no escape
/// introducer), the remaining visible length is the remaining count.
proof fn lemma_vlen_from_plain_suffix(s: Seq<char>, i: int)
    requires
        0 <= i <= s.len(),
        forall|k: int| i <= k < s.len() ==> s[k] != '\u{1b}',
    ensures
        vlen_from(s, i) == s.len() - i,
    decreases s.len() - i,
{
    if i < s.len() {
        assert(!esc_at(s, i));
        lemma_vlen_from_plain_suffix(s, i + 1);
    }
}

/// Prepending spaces adds exactly their count to the visible length.
pub proof fn lemma_vlen_prepend_spaces(s: Seq<char>, n: int)
    requires
        n >= 0,
    ensures
        spec_vlen(spaces(n) + s) == n + spec_vlen(s),
    decreases n,
{
    if n == 0 {
        assert(spaces(0) + s =~= s);
    } else {
        let t = spaces(n) + s;
        assert(t[0] == ' ');
        assert(!esc_at(t, 0));
        assert(vlen_from(t, 0) == 1 + vlen_from(t, 1));
        lemma_vlen_from_shift(t, 1);
        assert(t.subrange(1, t.len() as int) =~= spaces(n - 1) + s);
        lemma_vlen_prepend_spaces(s, n - 1);
    }
}

/// `vlen_from` of a suffix equals `spec_vlen` of that suffix as its own text.
proof fn lemma_vlen_from_shift(s: Seq<char>, i: int)
    requires
        0 <= i <= s.len(),
    ensures
        vlen_from(s, i) == spec_vlen(s.subrange(i, s.len() as int)),
{
    lemma_vlen_from_split(s, i);
}

/// Splitting at a position where no escape sequence straddles the border:
/// here used only for suffixes, with the generic form proved by induction.
proof fn lemma_vlen_from_split(s: Seq<char>, i: int)
    requires
        0 <= i <= s.len(),
    ensures
        vlen_from(s, i) == vlen_from(s.subrange(i, s.len() as int), 0),
    decreases s.len() - i,
{
    let t = s.subrange(i, s.len() as int);
    if i >= s.len() {
    } else {
        if i + 2 <= s.len() {
            lemma_csi_body_end_shift(s, i, i + 2);
            lemma_csi_body_end_bounds(s, i + 2);
            lemma_csi_body_end_bounds(t, 2);
        }
        assert(esc_at(s, i) == esc_at(t, 0));
        if esc_at(s, i) {
            lemma_csi_body_end_bounds(s, i + 2);
            lemma_vlen_from_split(s, esc_end(s, i));
            assert(s.subrange(esc_end(s, i), s.len() as int) =~= t.subrange(
                esc_end(t, 0),
                t.len() as int,
            ));
            lemma_vlen_from_split(t, esc_end(t, 0));
        } else {
            lemma_vlen_from_split(s, i + 1);
            assert(s.subrange(i + 1, s.len() as int) =~= t.subrange(1, t.len() as int));
            lemma_vlen_from_split(t, 1);
        }
    }
}

/// `csi_body_end` looks only at positions at or after its start, so it
/// commutes with dropping the prefix before `i`.
proof fn lemma_csi_body_end_shift(s: Seq<char>, i: int, j: int)
    requires
        0 <= i <= j <= s.len(),
    ensures
        csi_body_end(s, j) - i == csi_body_end(s.subrange(i, s.len() as int), j - i),
    decreases s.len() - j,
{
    let t = s.subrange(i, s.len() as int);
    if j < s.len() && is_csi_body_char(s[j]) {
        lemma_csi_body_end_shift(s, i, j + 1);
    }
}

// ── trimming ────────────────────────────────────────────────────────────────

/// First position at or after `j` holding a non-whitespace character.
pub open spec fn skip_ws(s: Seq<char>, j: int) -> int
    decreases s.len() - j when 0 <= j <= s.len()
{
    if j < s.len() && is_ws_char(s[j]) {
        skip_ws(s, j + 1)
    } else {
        j
    }
}

pub proof fn lemma_skip_ws_bounds(s: Seq<char>, j: int)
    requires
        0 <= j <= s.len(),
    ensures
        j <= skip_ws(s, j) <= s.len(),
    decreases s.len() - j,
{
    if j < s.len() && is_ws_char(s[j]) {
        lemma_skip_ws_bounds(s, j + 1);
    }
}

/// The whitespace skip stops at the end or on a non-whitespace character.
pub proof fn lemma_skip_ws_stops(s: Seq<char>, j: int)
    requires
        0 <= j <= s.len(),
    ensures
        skip_ws(s, j) < s.len() ==> !is_ws_char(s[skip_ws(s, j)]),
    decreases s.len() - j,
{
    if j < s.len() && is_ws_char(s[j]) {
        lemma_skip_ws_stops(s, j + 1);
    }
}

/// One past the last non-whitespace character strictly before `j`; 0 if all
/// of the text before `j` is whitespace.
pub open spec fn trim_end_from(s: Seq<char>, j: int) -> int
    decreases j when 0 <= j <= s.len()
{
    if j > 0 && is_ws_char(s[j - 1]) {
        trim_end_from(s, j - 1)
    } else {
        j
    }
}

pub proof fn lemma_trim_end_bounds(s: Seq<char>, j: int)
    requires
        0 <= j <= s.len(),
    ensures
        0 <= trim_end_from(s, j) <= j,
    decreases j,
{
    if j > 0 && is_ws_char(s[j - 1]) {
        lemma_trim_end_bounds(s, j - 1);
    }
}

/// The text with leading and trailing whitespace removed.
pub open spec fn spec_trim(s: Seq<char>) -> Seq<char> {
    let lo = skip_ws(s, 0);
    let hi = trim_end_from(s, s.len() as int);
    if lo <= hi {
        s.subrange(lo, hi)
    } else {
        Seq::empty()
    }
}

/// Trim bounds of the characters in `v`: the pair `(lo, hi)` such that
/// `v@.subrange(lo, hi)` is the trimmed text (with `lo == hi` when all
/// whitespace).
pub fn trim_bounds(v: &Vec<char>) -> (r: (usize, usize))
    ensures
        0 <= r.0 <= r.1 <= v@.len(),
        spec_trim(v@) == v@.subrange(r.0 as int, r.1 as int),
{
    let n: usize = v.len();
    let mut lo: usize = 0;
    while lo < n && ws_char(v[lo])
        invariant
            n == v@.len(),
            lo <= n,
            skip_ws(v@, 0) == skip_ws(v@, lo as int),
        decreases n - lo,
    {
        lo = lo + 1;
    }
    proof {
        assert(skip_ws(v@, lo as int) == lo);
    }
    let mut hi: usize = n;
    while hi > lo && ws_char(v[hi - 1])
        invariant
            n == v@.len(),
            lo <= hi <= n,
            lo == skip_ws(v@, 0),
            trim_end_from(v@, n as int) == trim_end_from(v@, hi as int),
        decreases hi,
    {
        hi = hi - 1;
    }
    proof {
        lemma_trim_end_bounds(v@, hi as int);
        if hi > lo {
            assert(trim_end_from(v@, hi as int) == hi);
        } else {
            // hi == lo: everything before lo is whitespace by definition of
            // skip_ws, so the trimmed end scan runs all the way down to 0
            lemma_skip_ws_all(v@, 0);
            lemma_trim_end_all_ws(v@, hi as int);
            assert(v@.subrange(lo as int, hi as int) =~= Seq::<char>::empty());
            if skip_ws(v@, 0) <= 0 {
                assert(spec_trim(v@) =~= Seq::<char>::empty());
            }
        }
    }
    (lo, hi)
}

/// Every position at or after `j` and before `skip_ws(s, j)` is whitespace.
proof fn lemma_skip_ws_all(s: Seq<char>, j: int)
    requires
        0 <= j <= s.len(),
    ensures
        forall|k: int| j <= k < skip_ws(s, j) ==> is_ws_char(s[k]),
    decreases s.len() - j,
{
    lemma_skip_ws_bounds(s, j);
    if j < s.len() && is_ws_char(s[j]) {
        lemma_skip_ws_all(s, j + 1);
    }
}

/// If every character before `j` is whitespace, the trimmed end is 0.
proof fn lemma_trim_end_all_ws(s: Seq<char>, j: int)
    requires
        0 <= j <= s.len(),
        forall|k: int| 0 <= k < j ==> is_ws_char(s[k]),
    ensures
        trim_end_from(s, j) == 0,
    decreases j,
{
    if j > 0 {
        lemma_trim_end_all_ws(s, j - 1);
    }
}

// ── padding ─────────────────────────────────────────────────────────────────

/// The text followed by however many spaces bring its visible length up to
/// `w`; unchanged when already wide enough.
pub open spec fn spec_rpad(s: Seq<char>, w: int) -> Seq<char> {
    if spec_vlen(s) >= w {
        s
    } else {
        s + spaces(w - spec_vlen(s))
    }
}

/// Spaces, then the text: the left-padded counterpart of `spec_rpad`.
pub open spec fn spec_lpad(s: Seq<char>, w: int) -> Seq<char> {
    if spec_vlen(s) >= w {
        s
    } else {
        spaces(w - spec_vlen(s)) + s
    }
}

/// Append spaces until the visible length reaches `w`; never truncates.
pub fn rpad(s: &str, w: usize) -> (r: String)
    ensures
        r@ == spec_rpad(s@, w as int),
        spec_vlen(s@) >= w ==> r@ == s@,
        spec_vlen(r@) == if spec_vlen(s@) >= w {
            spec_vlen(s@)
        } else {
            w as int
        },
{
    let vis = vlen(s);
    proof {
        lemma_vlen_from_bounds(s@, 0);
    }
    if vis < w {
        let pad = make_spaces(w - vis);
        let r = String::from_str(s).concat(pad.as_str());
        proof {
            lemma_vlen_append_spaces(s@, w - vis);
        }
        r
    } else {
        let r = String::from_str(s);
        r
    }
}

/// Prepend spaces until the visible length reaches `w`; never truncates.
pub fn lpad(s: &str, w: usize) -> (r: String)
    ensures
        r@ == spec_lpad(s@, w as int),
        spec_vlen(s@) >= w ==> r@ == s@,
        spec_vlen(r@) == if spec_vlen(s@) >= w {
            spec_vlen(s@)
        } else {
            w as int
        },
{
    let vis = vlen(s);
    proof {
        lemma_vlen_from_bounds(s@, 0);
    }
    if vis < w {
        let r = make_spaces(w - vis).concat(s);
        proof {
            lemma_vlen_prepend_spaces(s@, w - vis);
        }
        r
    } else {
        let r = String::from_str(s);
        r
    }
}

} // verus!
