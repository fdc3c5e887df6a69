//! Decimal numbers: parsing digit strings, printing integers, and the
//! tolerant numeric extractor.
//!
//! The diagnostic tool reports fractional quantities ("45.2C", "120.0W").
//! The library carries every such quantity as a fixed-point integer count of
//! thousandths (milli-units), which keeps the arithmetic exact.

use vstd::prelude::*;
use vstd::string::StringExecFns;
use crate::text::is_digit_char;
use crate::text::digit_char;
use crate::text::to_chars;

verus! {

// ── decimal digit strings ───────────────────────────────────────────────────

pub open spec fn digit_val(c: char) -> int {
    (c as u32) as int - 48
}

pub open spec fn all_digits_in(s: Seq<char>, lo: int, hi: int) -> bool {
    forall|k: int| lo <= k < hi ==> is_digit_char(s[k])
}

pub open spec fn all_digits(s: Seq<char>) -> bool {
    all_digits_in(s, 0, s.len() as int)
}

/// The value of a digit string read as a decimal number.
pub open spec fn dec_val(s: Seq<char>) -> int
    decreases s.len(),
{
    if s.len() == 0 {
        0
    } else {
        dec_val(s.drop_last()) * 10 + digit_val(s.last())
    }
}

pub proof fn lemma_dec_val_snoc(s: Seq<char>, b: int, i: int)
    requires
        0 <= b <= i < s.len(),
    ensures
        dec_val(s.subrange(b, i + 1)) == dec_val(s.subrange(b, i)) * 10 + digit_val(s[i]),
{
    assert(s.subrange(b, i + 1).drop_last() =~= s.subrange(b, i));
    assert(s.subrange(b, i + 1).last() == s[i]);
}

pub proof fn lemma_dec_val_nonneg(s: Seq<char>, b: int, i: int)
    requires
        0 <= b <= i <= s.len(),
        all_digits_in(s, b, i),
    ensures
        dec_val(s.subrange(b, i)) >= 0,
    decreases i - b,
{
    if i > b {
        lemma_dec_val_snoc(s, b, i - 1);
        lemma_dec_val_nonneg(s, b, i - 1);
    } else {
        assert(s.subrange(b, i) =~= Seq::<char>::empty());
    }
}

pub proof fn lemma_dec_val_nonneg_all(s: Seq<char>)
    requires
        all_digits(s),
    ensures
        dec_val(s) >= 0,
{
    lemma_dec_val_nonneg(s, 0, s.len() as int);
    assert(s.subrange(0, s.len() as int) =~= s);
}

/// Reading more digits never shrinks the value.
pub proof fn lemma_dec_val_grow(s: Seq<char>, b: int, i: int, j: int)
    requires
        0 <= b <= i <= j <= s.len(),
        all_digits_in(s, b, j),
    ensures
        dec_val(s.subrange(b, j)) >= dec_val(s.subrange(b, i)),
    decreases j - i,
{
    if j > i {
        lemma_dec_val_snoc(s, b, j - 1);
        lemma_dec_val_nonneg(s, b, j - 1);
        lemma_dec_val_grow(s, b, i, j - 1);
    }
}

// ── parsing an unsigned decimal ─────────────────────────────────────────────

/// A text parses as a u64 when it is a nonempty run of digits whose value
/// fits.
pub open spec fn spec_parse_u64_ok(s: Seq<char>) -> bool {
    s.len() > 0 && all_digits(s) && dec_val(s) <= u64::MAX
}

/// Parse a nonempty all-digit text as a u64; anything else is rejected.
pub fn parse_u64(s: &str) -> (r: Option<u64>)
    ensures
        spec_parse_u64_ok(s@) ==> r == Some((dec_val(s@) as u64)),
        !spec_parse_u64_ok(s@) ==> r is None,
{
    let v = to_chars(s);
    let n: usize = v.len();
    if n == 0 {
        return None;
    }
    let mut acc: u128 = 0;
    let mut i: usize = 0;
    proof {
        assert(s@.subrange(0, 0) =~= Seq::<char>::empty());
    }
    while i < n
        invariant
            n == s@.len(),
            v@ == s@,
            i <= n,
            all_digits_in(s@, 0, i as int),
            acc == dec_val(s@.subrange(0, i as int)),
            acc <= u64::MAX,
        decreases n - i,
    {
        let c = v[i];
        if !digit_char(c) {
            return None;
        }
        let d: u128 = ((c as u32) - 48) as u128;
        proof {
            lemma_dec_val_snoc(s@, 0, i as int);
        }
        acc = acc * 10 + d;
        i = i + 1;
        if acc > u64::MAX as u128 {
            proof {
                if spec_parse_u64_ok(s@) {
                    lemma_dec_val_grow(s@, 0, i as int, n as int);
                    assert(s@.subrange(0, n as int) =~= s@);
                }
            }
            return None;
        }
    }
    proof {
        assert(s@.subrange(0, n as int) =~= s@);
    }
    Some(acc as u64)
}

// ── printing an unsigned decimal ────────────────────────────────────────────

pub open spec fn digit_char_of(d: int) -> char {
    if d == 0 {
        '0'
    } else if d == 1 {
        '1'
    } else if d == 2 {
        '2'
    } else if d == 3 {
        '3'
    } else if d == 4 {
        '4'
    } else if d == 5 {
        '5'
    } else if d == 6 {
        '6'
    } else if d == 7 {
        '7'
    } else if d == 8 {
        '8'
    } else {
        '9'
    }
}

/// The usual decimal rendering of a non-negative number, without sign or
/// leading zeros (a single zero for 0).
pub open spec fn dec_str(n: int) -> Seq<char>
    decreases n when n >= 0
{
    if n < 10 {
        seq![digit_char_of(n)]
    } else {
        dec_str(n / 10) + seq![digit_char_of(n % 10)]
    }
}

fn digit_string(d: u128) -> (r: String)
    requires
        d < 10,
    ensures
        r@ == seq![digit_char_of(d as int)],
{
    proof {
        reveal_strlit("0");
        reveal_strlit("1");
        reveal_strlit("2");
        reveal_strlit("3");
        reveal_strlit("4");
        reveal_strlit("5");
        reveal_strlit("6");
        reveal_strlit("7");
        reveal_strlit("8");
        reveal_strlit("9");
    }
    let r = if d == 0 {
        String::from_str("0")
    } else if d == 1 {
        String::from_str("1")
    } else if d == 2 {
        String::from_str("2")
    } else if d == 3 {
        String::from_str("3")
    } else if d == 4 {
        String::from_str("4")
    } else if d == 5 {
        String::from_str("5")
    } else if d == 6 {
        String::from_str("6")
    } else if d == 7 {
        String::from_str("7")
    } else if d == 8 {
        String::from_str("8")
    } else {
        String::from_str("9")
    };
    proof {
        assert(r@ =~= seq![digit_char_of(d as int)]);
    }
    r
}

/// Render a number in decimal.
pub fn to_dec(n: u128) -> (r: String)
    ensures
        r@ == dec_str(n as int),
    decreases n,
{
    if n < 10 {
        digit_string(n)
    } else {
        let mut r = to_dec(n / 10);
        let d = digit_string(n % 10);
        r.append(d.as_str());
        proof {
            assert(r@ =~= dec_str(n as int));
        }
        r
    }
}

pub fn to_dec_u64(n: u64) -> (r: String)
    ensures
        r@ == dec_str(n as int),
{
    to_dec(n as u128)
}

// ── the numeric extractor ───────────────────────────────────────────────────

/// A character that can be part of a numeric run: a digit or a dot.
pub open spec fn is_numlike(c: char) -> bool {
    is_digit_char(c) || c == '.'
}

pub fn numlike_char(c: char) -> (r: bool)
    ensures
        r == is_numlike(c),
{
    digit_char(c) || c == '.'
}

/// First numeric-run character at or after `j`.
pub open spec fn numrun_start(s: Seq<char>, j: int) -> int
    decreases s.len() - j when 0 <= j <= s.len()
{
    if j < s.len() && !is_numlike(s[j]) {
        numrun_start(s, j + 1)
    } else {
        j
    }
}

/// End of the numeric run starting at `j`.
pub open spec fn numrun_end(s: Seq<char>, j: int) -> int
    decreases s.len() - j when 0 <= j <= s.len()
{
    if j < s.len() && is_numlike(s[j]) {
        numrun_end(s, j + 1)
    } else {
        j
    }
}

pub open spec fn has_digit_in(s: Seq<char>, lo: int, hi: int) -> bool {
    exists|k: int| lo <= k < hi && is_digit_char(s[k])
}

/// At most one dot in the range.
pub open spec fn single_dot_in(s: Seq<char>, lo: int, hi: int) -> bool {
    forall|p: int, q: int| lo <= p < hi && lo <= q < hi && s[p] == '.' && s[q] == '.' ==> p == q
}

/// First dot at or after `j` and before `hi`; `hi` if none.
pub open spec fn dot_pos(s: Seq<char>, j: int, hi: int) -> int
    decreases hi - j when 0 <= j <= hi <= s.len()
{
    if j < hi && s[j] != '.' {
        dot_pos(s, j + 1, hi)
    } else {
        j
    }
}

/// The `k`-th character of the range read as a fractional digit; 0 beyond
/// the end.
pub open spec fn frac_digit(s: Seq<char>, k: int, hi: int) -> int {
    if k < hi {
        digit_val(s[k])
    } else {
        0
    }
}

/// The value of a valid numeric run in milli-units, truncating any digits
/// beyond the third fractional place.
pub open spec fn milli_of_run(s: Seq<char>, lo: int, hi: int) -> int {
    let dp = dot_pos(s, lo, hi);
    dec_val(s.subrange(lo, dp)) * 1000 + 100 * frac_digit(s, dp + 1, hi) + 10 * frac_digit(
        s,
        dp + 2,
        hi,
    ) + frac_digit(s, dp + 3, hi)
}

/// What the numeric extractor returns, in milli-units: the value of the
/// first maximal run of digits and dots, if it holds at least one digit and
/// at most one dot; otherwise 0.  Values beyond `u64::MAX` milli-units
/// saturate.
pub open spec fn spec_extract_milli(s: Seq<char>) -> int {
    let b = numrun_start(s, 0);
    let e = numrun_end(s, b);
    if b < s.len() && has_digit_in(s, b, e) && single_dot_in(s, b, e) {
        if milli_of_run(s, b, e) <= u64::MAX {
            milli_of_run(s, b, e)
        } else {
            u64::MAX as int
        }
    } else {
        0
    }
}

pub proof fn lemma_numrun_start_bounds(s: Seq<char>, j: int)
    requires
        0 <= j <= s.len(),
    ensures
        j <= numrun_start(s, j) <= s.len(),
    decreases s.len() - j,
{
    if j < s.len() && !is_numlike(s[j]) {
        lemma_numrun_start_bounds(s, j + 1);
    }
}

pub proof fn lemma_numrun_end_bounds(s: Seq<char>, j: int)
    requires
        0 <= j <= s.len(),
    ensures
        j <= numrun_end(s, j) <= s.len(),
    decreases s.len() - j,
{
    if j < s.len() && is_numlike(s[j]) {
        lemma_numrun_end_bounds(s, j + 1);
    }
}

/// Everything inside the run is numeric-run material.
proof fn lemma_numrun_all(s: Seq<char>, j: int)
    requires
        0 <= j <= s.len(),
    ensures
        forall|k: int| j <= k < numrun_end(s, j) ==> is_numlike(s[k]),
    decreases s.len() - j,
{
    lemma_numrun_end_bounds(s, j);
    if j < s.len() && is_numlike(s[j]) {
        lemma_numrun_all(s, j + 1);
    }
}

/// Everything before the first dot is not a dot.
proof fn lemma_dot_pos_all(s: Seq<char>, j: int, hi: int)
    requires
        0 <= j <= hi <= s.len(),
    ensures
        j <= dot_pos(s, j, hi) <= hi,
        forall|k: int| j <= k < dot_pos(s, j, hi) ==> s[k] != '.',
        dot_pos(s, j, hi) < hi ==> s[dot_pos(s, j, hi)] == '.',
    decreases hi - j,
{
    if j < hi && s[j] != '.' {
        lemma_dot_pos_all(s, j + 1, hi);
    }
}

/// A text with no digit at all yields exactly 0 from the extractor.
pub proof fn lemma_extract_no_digit_zero(s: Seq<char>)
    requires
        forall|k: int| 0 <= k < s.len() ==> !is_digit_char(s[k]),
    ensures
        spec_extract_milli(s) == 0,
{
    let b = numrun_start(s, 0);
    lemma_numrun_start_bounds(s, 0);
    if b < s.len() {
        let e = numrun_end(s, b);
        lemma_numrun_end_bounds(s, b);
        assert(!has_digit_in(s, b, e));
    }
}

/// Extract the first number out of noisy text, in milli-units; 0 when no
/// well-formed numeric run is present.
pub fn extract_number(s: &str) -> (r: u64)
    ensures
        r == spec_extract_milli(s@),
{
    let v = to_chars(s);
    let n: usize = v.len();

    // find the start of the first numeric run
    let mut b: usize = 0;
    while b < n && !numlike_char(v[b])
        invariant
            n == s@.len(),
            v@ == s@,
            b <= n,
            numrun_start(s@, 0) == numrun_start(s@, b as int),
        decreases n - b,
    {
        b = b + 1;
    }
    proof {
        assert(numrun_start(s@, 0) == b);
    }
    if b == n {
        return 0;
    }
    // find its end
    let mut e: usize = b;
    while e < n && numlike_char(v[e])
        invariant
            n == s@.len(),
            v@ == s@,
            b <= e <= n,
            numrun_end(s@, b as int) == numrun_end(s@, e as int),
        decreases n - e,
    {
        e = e + 1;
    }
    proof {
        assert(numrun_end(s@, b as int) == e);
    }

    // check the run: at least one digit, at most one dot
    let mut has_digit = false;
    let mut two_dots = false;
    let mut k: usize = b;
    while k < e
        invariant
            n == s@.len(),
            v@ == s@,
            b <= k <= e <= n,
            has_digit == has_digit_in(s@, b as int, k as int),
            two_dots == !single_dot_in(s@, b as int, k as int),
        decreases e - k,
    {
        let c = v[k];
        if digit_char(c) {
            has_digit = true;
        }
        if c == '.' {
            // a second dot anywhere before k makes the run invalid
            let mut p: usize = b;
            let mut earlier = false;
            while p < k
                invariant
                    n == s@.len(),
                    v@ == s@,
                    b <= p <= k < n,
                    earlier == (exists|q: int| b <= q < p && s@[q] == '.'),
                decreases k - p,
            {
                if v[p] == '.' {
                    earlier = true;
                }
                p = p + 1;
            }
            if earlier {
                two_dots = true;
            }
        }
        k = k + 1;
        proof {
            assert(has_digit == has_digit_in(s@, b as int, k as int));
            assert(two_dots == !single_dot_in(s@, b as int, k as int));
        }
    }
    if !has_digit || two_dots {
        return 0;
    }

    // locate the dot
    let mut dp: usize = b;
    while dp < e && v[dp] != '.'
        invariant
            n == s@.len(),
            v@ == s@,
            b <= dp <= e <= n,
            dot_pos(s@, b as int, e as int) == dot_pos(s@, dp as int, e as int),
        decreases e - dp,
    {
        dp = dp + 1;
    }
    proof {
        assert(dot_pos(s@, b as int, e as int) == dp);
        lemma_numrun_all(s@, b as int);
        lemma_dot_pos_all(s@, b as int, e as int);
        assert(all_digits_in(s@, b as int, dp as int));
        assert(s@.subrange(b as int, b as int) =~= Seq::<char>::empty());
    }

    // integer part
    let mut acc: u128 = 0;
    let mut i: usize = b;
    let mut sat = false;
    while i < dp
        invariant
            n == s@.len(),
            v@ == s@,
            b <= i <= dp <= e <= n,
            all_digits_in(s@, b as int, dp as int),
            !sat ==> acc == dec_val(s@.subrange(b as int, i as int)),
            !sat ==> acc <= u64::MAX,
            sat ==> dec_val(s@.subrange(b as int, dp as int)) > u64::MAX,
        decreases dp - i,
    {
        if !sat {
            let c = v[i];
            let d: u128 = ((c as u32) - 48) as u128;
            proof {
                lemma_dec_val_snoc(s@, b as int, i as int);
            }
            acc = acc * 10 + d;
            if acc > u64::MAX as u128 {
                sat = true;
                proof {
                    lemma_dec_val_grow(s@, b as int, i as int + 1, dp as int);
                }
            }
        }
        i = i + 1;
    }

    proof {
        lemma_dec_val_nonneg(s@, b as int, dp as int);
        lemma_numrun_all(s@, b as int);
        lemma_dot_pos_all(s@, b as int, e as int);
        assert forall|q: int| dp < q < e as int implies s@[q] != '.' by {
            if s@[q] == '.' {
                assert(s@[dp as int] == '.');
            }
        }
        assert(frac_digit(s@, dp as int + 1, e as int) >= 0);
        assert(frac_digit(s@, dp as int + 2, e as int) >= 0);
        assert(frac_digit(s@, dp as int + 3, e as int) >= 0);
    }
    if sat {
        // the integer part alone already exceeds the cap
        return u64::MAX;
    }

    // up to three fractional digits
    let f0: u128 = frac_digit_at(&v, dp, 1, e);
    let f1: u128 = frac_digit_at(&v, dp, 2, e);
    let f2: u128 = frac_digit_at(&v, dp, 3, e);
    let milli: u128 = acc * 1000 + 100 * f0 + 10 * f1 + f2;
    if milli > u64::MAX as u128 {
        u64::MAX
    } else {
        milli as u64
    }
}

/// The fractional digit `off` places after the dot position `dp` (0 beyond
/// `hi`), for a run known to hold only digits after `dp`.
fn frac_digit_at(v: &Vec<char>, dp: usize, off: usize, hi: usize) -> (r: u128)
    requires
        hi <= v@.len(),
        dp <= hi,
        1 <= off <= 3,
        forall|q: int| dp < q < hi ==> #[trigger] is_numlike(v@[q]),
        forall|q: int| dp < q < hi ==> v@[q] != '.',
    ensures
        r == frac_digit(v@, dp as int + off as int, hi as int),
        r <= 9,
{
    if off < hi - dp {
        let c = v[dp + off];
        proof {
            assert(is_numlike(v@[dp as int + off as int]));
            assert(is_digit_char(c));
        }
        ((c as u32) - 48) as u128
    } else {
        0
    }
}

} // verus!
