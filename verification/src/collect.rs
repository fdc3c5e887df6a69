//! The telemetry collector: turns the diagnostic tool's four raw outputs
//! (concise table, VRAM JSON, product names, hardware listing) into the
//! ordered set of per-device records.
//!
//! Each stage is tolerant by design: a malformed line, key or field leaves
//! the affected value at its default instead of failing.

use vstd::prelude::*;
use vstd::string::StrSliceExecFns;
use vstd::string::StringExecFns;
use crate::text::is_ws_char;
use crate::text::is_digit_char;
use crate::text::ws_char;
use crate::text::digit_char;
use crate::text::to_chars;
use crate::text::skip_ws;
use crate::text::lemma_skip_ws_bounds;
use crate::text::spec_trim;
use crate::text::trim_bounds;
use crate::num::dec_val;
use crate::num::dec_str;
use crate::num::all_digits;
use crate::num::all_digits_in;
use crate::num::spec_parse_u64_ok;
use crate::num::parse_u64;
use crate::num::spec_extract_milli;
use crate::num::extract_number;
use crate::num::lemma_dec_val_snoc;
use crate::num::lemma_dec_val_nonneg;
use crate::num::lemma_dec_val_nonneg_all;
use crate::num::lemma_dec_val_grow;
use crate::snapshot::GpuSnapshot;
use crate::json::json_field_lookup;
use crate::json::json_has_field;
use crate::json::json_str_field;
use crate::json::json_u64_field;

verus! {

// ── splitting into lines ────────────────────────────────────────────────────

/// Position of the next newline at or after `i`, or the end of the text.
pub open spec fn line_end(s: Seq<char>, i: int) -> int
    decreases s.len() - i when 0 <= i <= s.len()
{
    if i < s.len() && s[i] != '\n' {
        line_end(s, i + 1)
    } else {
        i
    }
}

pub proof fn lemma_line_end_bounds(s: Seq<char>, i: int)
    requires
        0 <= i <= s.len(),
    ensures
        i <= line_end(s, i) <= s.len(),
    decreases s.len() - i,
{
    if i < s.len() && s[i] != '\n' {
        lemma_line_end_bounds(s, i + 1);
    }
}

/// The lines of the text from position `i` on, split at newlines (each
/// newline ends a line; the text after the last newline is a final line,
/// empty when the text ends with a newline).
pub open spec fn lines_from(s: Seq<char>, i: int) -> Seq<Seq<char>>
    decreases s.len() - i when 0 <= i <= s.len()
{
    let e = line_end(s, i);
    if e < s.len() {
        proof {
            lemma_line_end_bounds(s, i);
        }
        seq![s.subrange(i, e)] + lines_from(s, e + 1)
    } else {
        seq![s.subrange(i, if i <= e <= s.len() { e } else { i })]
    }
}

/// Split a text into its lines.
#[verifier::loop_isolation(false)]
pub fn split_lines(text: &str) -> (r: Vec<String>)
    ensures
        r.deep_view() == lines_from(text@, 0),
{
    let v = to_chars(text);
    let n: usize = v.len();
    let mut r: Vec<String> = Vec::new();
    let mut i: usize = 0;
    let mut done = false;
    proof {
        assert(r.deep_view() =~~= Seq::<Seq<char>>::empty());
    }
    while !done
        invariant
            i <= n,
            !done ==> lines_from(text@, 0) == r.deep_view() + lines_from(text@, i as int),
            done ==> lines_from(text@, 0) == r.deep_view(),
        decreases n - i + (if done {
            0int
        } else {
            1int
        }),
    {
        let mut e: usize = i;
        while e < n && v[e] != '\n'
            invariant
                i <= e <= n,
                line_end(text@, i as int) == line_end(text@, e as int),
            decreases n - e,
        {
            e = e + 1;
        }
        proof {
            assert(line_end(text@, i as int) == e);
        }
        let ghost rd = r.deep_view();
        let piece = text.substring_char(i, e);
        r.push(String::from_str(piece));
        proof {
            assert(r.deep_view() =~~= rd + seq![text@.subrange(i as int, e as int)]);
        }
        if e < n {
            proof {
                assert(lines_from(text@, i as int) == seq![text@.subrange(i as int, e as int)]
                    + lines_from(text@, e as int + 1));
                assert(r.deep_view() + lines_from(text@, e as int + 1) =~~= lines_from(text@, 0));
            }
            i = e + 1;
        } else {
            proof {
                assert(lines_from(text@, i as int) == seq![text@.subrange(i as int, e as int)]);
                assert(r.deep_view() =~~= lines_from(text@, 0));
            }
            done = true;
        }
    }
    r
}

// ── whitespace tokens ───────────────────────────────────────────────────────

/// End of the non-whitespace run starting at `j`.
pub open spec fn nonws_end(s: Seq<char>, j: int) -> int
    decreases s.len() - j when 0 <= j <= s.len()
{
    if j < s.len() && !is_ws_char(s[j]) {
        nonws_end(s, j + 1)
    } else {
        j
    }
}

pub proof fn lemma_nonws_end_bounds(s: Seq<char>, j: int)
    requires
        0 <= j <= s.len(),
    ensures
        j <= nonws_end(s, j) <= s.len(),
    decreases s.len() - j,
{
    if j < s.len() && !is_ws_char(s[j]) {
        lemma_nonws_end_bounds(s, j + 1);
    }
}

/// The whitespace-separated tokens of the text from position `i` on.
pub open spec fn toks_from(s: Seq<char>, i: int) -> Seq<Seq<char>>
    decreases s.len() - i when 0 <= i <= s.len()
{
    let j = skip_ws(s, i);
    if 0 <= j < s.len() {
        proof {
            crate::text::lemma_skip_ws_bounds(s, i);
            crate::text::lemma_skip_ws_stops(s, i);
            lemma_nonws_end_bounds(s, j + 1);
            assert(nonws_end(s, j) == nonws_end(s, j + 1));
        }
        seq![s.subrange(j, nonws_end(s, j))] + toks_from(s, nonws_end(s, j))
    } else {
        Seq::empty()
    }
}

pub open spec fn tokens_of(s: Seq<char>) -> Seq<Seq<char>> {
    toks_from(s, 0)
}

/// Split a text on runs of whitespace.
#[verifier::loop_isolation(false)]
pub fn tokenize(s: &str) -> (r: Vec<String>)
    ensures
        r.deep_view() == tokens_of(s@),
{
    let v = to_chars(s);
    let n: usize = v.len();
    let mut r: Vec<String> = Vec::new();
    let mut i: usize = 0;
    proof {
        assert(r.deep_view() =~= Seq::<Seq<char>>::empty());
    }
    while i < n
        invariant
            i <= n,
            tokens_of(s@) == r.deep_view() + toks_from(s@, i as int),
        decreases n - i,
    {
        let mut j: usize = i;
        while j < n && ws_char(v[j])
            invariant
                i <= j <= n,
                skip_ws(s@, i as int) == skip_ws(s@, j as int),
            decreases n - j,
        {
            j = j + 1;
        }
        proof {
            assert(skip_ws(s@, i as int) == j);
        }
        if j == n {
            proof {
                assert(toks_from(s@, i as int) =~= Seq::<Seq<char>>::empty());
                assert(r.deep_view() + toks_from(s@, i as int) =~= r.deep_view());
            }
            i = n;
        } else {
            let mut k: usize = j;
            while k < n && !ws_char(v[k])
                invariant
                    j <= k <= n,
                    nonws_end(s@, j as int) == nonws_end(s@, k as int),
                decreases n - k,
            {
                k = k + 1;
            }
            proof {
                assert(nonws_end(s@, j as int) == k);
                assert(k > j);
            }
            let ghost rd = r.deep_view();
            let piece = s.substring_char(j, k);
            r.push(String::from_str(piece));
            proof {
                assert(r.deep_view() =~= rd + seq![s@.subrange(j as int, k as int)]);
                assert(toks_from(s@, i as int) == seq![s@.subrange(j as int, k as int)]
                    + toks_from(s@, k as int));
                assert(r.deep_view() + toks_from(s@, k as int) =~= tokens_of(s@));
            }
            i = k;
        }
    }
    proof {
        assert(toks_from(s@, n as int) =~= Seq::<Seq<char>>::empty());
        assert(r.deep_view() =~= tokens_of(s@));
    }
    r
}

// ── the concise table (primary enumeration) ─────────────────────────────────

/// A primary-listing line is accepted when, after trimming, it starts with a
/// digit, splits into at least 15 tokens, and its first token is a decimal
/// device id that fits u32.
pub open spec fn concise_accept(line: Seq<char>) -> bool {
    let t = spec_trim(line);
    &&& t.len() > 0
    &&& is_digit_char(t[0])
    &&& tokens_of(t).len() >= 15
    &&& spec_parse_u64_ok(tokens_of(t)[0])
    &&& dec_val(tokens_of(t)[0]) <= u32::MAX
}

/// The fresh record built from an accepted primary-listing line: id from
/// token 0, temperature from token 4, power from token 5, power cap from
/// token 13, utilization from token 15 when present; everything else at its
/// default.
pub open spec fn snapshot_of_line(g: GpuSnapshot, line: Seq<char>) -> bool {
    let t = spec_trim(line);
    let toks = tokens_of(t);
    &&& g.id == dec_val(toks[0])
    &&& g.temp_milli == spec_extract_milli(toks[4])
    &&& g.power_milli == spec_extract_milli(toks[5])
    &&& g.power_cap_milli == spec_extract_milli(toks[13])
    &&& g.gpu_pct_milli == (if toks.len() > 15 {
        spec_extract_milli(toks[15])
    } else {
        0
    })
    &&& g.name@ == Seq::<char>::empty()
    &&& g.gfx_ver@ == Seq::<char>::empty()
    &&& g.vram_total == 0
    &&& g.vram_used == 0
}

/// Parse one primary-listing line; `None` for a line the tolerance policy
/// skips.
pub fn parse_concise_line(line: &str) -> (r: Option<GpuSnapshot>)
    ensures
        (r is Some) <==> concise_accept(line@),
        r matches Some(g) ==> snapshot_of_line(g, line@),
{
    let v = to_chars(line);
    let (lo, hi) = trim_bounds(&v);
    if lo == hi {
        return None;
    }
    if !digit_char(v[lo]) {
        return None;
    }
    let t = line.substring_char(lo, hi);
    let toks = tokenize(t);
    proof {
        assert(toks@.len() == toks.deep_view().len());
    }
    if toks.len() < 15 {
        return None;
    }
    proof {
        assert(toks@[0]@ == tokens_of(t@)[0]);
        assert(toks@[4]@ == tokens_of(t@)[4]);
        assert(toks@[5]@ == tokens_of(t@)[5]);
        assert(toks@[13]@ == tokens_of(t@)[13]);
        if toks@.len() > 15 {
            assert(toks@[15]@ == tokens_of(t@)[15]);
        }
    }
    let id64 = match parse_u64(toks[0].as_str()) {
        Some(x) => x,
        None => {
            return None;
        },
    };
    proof {
        lemma_dec_val_nonneg_all(toks@[0]@);
    }
    if id64 > 0xffff_ffff {
        return None;
    }
    let temp = extract_number(toks[4].as_str());
    let power = extract_number(toks[5].as_str());
    let cap = extract_number(toks[13].as_str());
    let pct = if toks.len() > 15 {
        extract_number(toks[15].as_str())
    } else {
        0
    };
    Some(
        GpuSnapshot {
            id: id64 as u32,
            name: String::new(),
            gfx_ver: String::new(),
            temp_milli: temp,
            power_milli: power,
            power_cap_milli: cap,
            gpu_pct_milli: pct,
            vram_total: 0,
            vram_used: 0,
        },
    )
}

/// The accepted lines among the first `i` of `lines`, in order.
pub open spec fn accepted_upto(lines: Seq<Seq<char>>, i: int) -> Seq<Seq<char>>
    decreases i when 0 <= i <= lines.len()
{
    if i <= 0 {
        Seq::empty()
    } else {
        accepted_upto(lines, i - 1) + (if concise_accept(lines[i - 1]) {
            seq![lines[i - 1]]
        } else {
            Seq::empty()
        })
    }
}

/// The accepted primary-listing lines of the whole text.
pub open spec fn accepted_concise(s: Seq<char>) -> Seq<Seq<char>> {
    accepted_upto(lines_from(s, 0), lines_from(s, 0).len() as int)
}

/// Primary enumeration: one fresh record per accepted line, in encounter
/// order.
#[verifier::loop_isolation(false)]
pub fn parse_concise(text: &str) -> (r: Vec<GpuSnapshot>)
    ensures
        r@.len() == accepted_concise(text@).len(),
        forall|k: int|
            0 <= k < r@.len() ==> snapshot_of_line(#[trigger] r@[k], accepted_concise(text@)[k]),
{
    let lines = split_lines(text);
    let m = lines.len();
    let ghost lv = lines.deep_view();
    let mut r: Vec<GpuSnapshot> = Vec::new();
    let mut li: usize = 0;
    while li < m
        invariant
            m == lines@.len(),
            li <= m,
            lv == lines.deep_view(),
            r@.len() == accepted_upto(lv, li as int).len(),
            forall|k: int|
                0 <= k < r@.len() ==> snapshot_of_line(
                    #[trigger] r@[k],
                    accepted_upto(lv, li as int)[k],
                ),
        decreases m - li,
    {
        proof {
            assert(lines.deep_view()[li as int] == lines@[li as int]@);
        }
        match parse_concise_line(lines[li].as_str()) {
            Some(g) => {
                r.push(g);
            },
            None => {
                proof {
                    assert(accepted_upto(lv, li as int + 1) =~= accepted_upto(lv, li as int));
                }
            },
        }
        li = li + 1;
    }
    proof {
        assert(accepted_upto(lv, m as int) == accepted_concise(text@));
    }
    r
}

// ── memory enrichment ───────────────────────────────────────────────────────

/// The record keeps everything but its VRAM figures.
pub open spec fn same_but_vram(a: GpuSnapshot, b: GpuSnapshot) -> bool {
    &&& b.id == a.id
    &&& b.name@ == a.name@
    &&& b.gfx_ver@ == a.gfx_ver@
    &&& b.temp_milli == a.temp_milli
    &&& b.power_milli == a.power_milli
    &&& b.power_cap_milli == a.power_cap_milli
    &&& b.gpu_pct_milli == a.gpu_pct_milli
}

/// The fallible-parse-with-default rule for a byte-count field: a numeric
/// text wins when it parses; otherwise the numeric reading, if any;
/// otherwise 0.
pub open spec fn spec_byte_count(text: Option<Seq<char>>, number: Option<u64>) -> int {
    match text {
        Some(t) => {
            if spec_parse_u64_ok(t) {
                dec_val(t)
            } else {
                match number {
                    Some(y) => y as int,
                    None => 0,
                }
            }
        },
        None => match number {
            Some(y) => y as int,
            None => 0,
        },
    }
}

/// Apply the byte-count rule to a field read both ways.
pub fn u64_from_text_or_number(text: Option<&str>, number: Option<u64>) -> (r: u64)
    ensures
        r == spec_byte_count(
            (match text {
                Some(t) => Some(t@),
                None => None,
            }),
            number,
        ),
{
    match text {
        Some(t) => match parse_u64(t) {
            Some(x) => {
                proof {
                    lemma_dec_val_nonneg_all(t@);
                }
                x
            },
            None => match number {
                Some(y) => y,
                None => 0,
            },
        },
        None => match number {
            Some(y) => y,
            None => 0,
        },
    }
}

/// What a VRAM byte field of the record at positional index `i` becomes:
/// the byte-count rule applied to the field under key `card<i>` of the JSON
/// document when the document holds it, else the previous value.
pub open spec fn spec_vram_field(doc: Seq<char>, i: int, field: Seq<char>, prev: int) -> int {
    let card = "card"@ + dec_str(i);
    if json_has_field(doc, card, field) {
        spec_byte_count(json_str_field(doc, card, field), json_u64_field(doc, card, field))
    } else {
        prev
    }
}

/// Memory enrichment: look each record's positional index up as
/// `card<index>` in the JSON mapping and fill the VRAM fields from the
/// total/used byte counts found there, each of which may be a number or a
/// numeric string.  Only the VRAM fields change; a missing key or field
/// leaves its previous value, a present but unusable value yields 0.
#[verifier::loop_isolation(false)]
pub fn apply_vram(gpus: &mut Vec<GpuSnapshot>, json: &str)
    ensures
        final(gpus)@.len() == old(gpus)@.len(),
        forall|i: int|
            0 <= i < old(gpus)@.len() ==> same_but_vram(old(gpus)@[i], #[trigger] final(gpus)@[i]),
        forall|i: int|
            0 <= i < old(gpus)@.len() ==> (#[trigger] final(gpus)@[i]).vram_total
                == spec_vram_field(
                json@,
                i,
                "VRAM Total Memory (B)"@,
                old(gpus)@[i].vram_total as int,
            ),
        forall|i: int|
            0 <= i < old(gpus)@.len() ==> (#[trigger] final(gpus)@[i]).vram_used == spec_vram_field(
                json@,
                i,
                "VRAM Total Used Memory (B)"@,
                old(gpus)@[i].vram_used as int,
            ),
        json@.len() == 0 ==> forall|i: int|
            0 <= i < old(gpus)@.len() ==> (#[trigger] final(gpus)@[i]).vram_total == old(
                gpus,
            )@[i].vram_total && final(gpus)@[i].vram_used == old(gpus)@[i].vram_used,
{
    let n = gpus.len();
    let mut i: usize = 0;
    while i < n
        invariant
            n == gpus@.len(),
            gpus@.len() == old(gpus)@.len(),
            i <= n,
            forall|k: int|
                0 <= k < old(gpus)@.len() ==> same_but_vram(old(gpus)@[k], #[trigger] gpus@[k]),
            forall|k: int|
                0 <= k < i ==> (#[trigger] gpus@[k]).vram_total == spec_vram_field(
                    json@,
                    k,
                    "VRAM Total Memory (B)"@,
                    old(gpus)@[k].vram_total as int,
                ),
            forall|k: int|
                0 <= k < i ==> (#[trigger] gpus@[k]).vram_used == spec_vram_field(
                    json@,
                    k,
                    "VRAM Total Used Memory (B)"@,
                    old(gpus)@[k].vram_used as int,
                ),
            forall|k: int|
                i <= k < n ==> (#[trigger] gpus@[k]).vram_total == old(gpus)@[k].vram_total
                    && gpus@[k].vram_used == old(gpus)@[k].vram_used,
            json@.len() == 0 ==> forall|k: int|
                0 <= k < n ==> (#[trigger] gpus@[k]).vram_total == old(gpus)@[k].vram_total
                    && gpus@[k].vram_used == old(gpus)@[k].vram_used,
        decreases n - i,
    {
        let mut key = String::from_str("card");
        let num = crate::num::to_dec(i as u128);
        key.append(num.as_str());
        proof {
            assert(key@ == "card"@ + dec_str(i as int));
        }
        let rt = json_field_lookup(json, key.as_str(), "VRAM Total Memory (B)");
        if rt.0 {
            let x = u64_from_text_or_number(
                (match &rt.1 {
                    Some(s) => Some(s.as_str()),
                    None => None,
                }),
                rt.2,
            );
            gpus[i].vram_total = x;
        }
        let ru = json_field_lookup(json, key.as_str(), "VRAM Total Used Memory (B)");
        if ru.0 {
            let y = u64_from_text_or_number(
                (match &ru.1 {
                    Some(s) => Some(s.as_str()),
                    None => None,
                }),
                ru.2,
            );
            gpus[i].vram_used = y;
        }
        i = i + 1;
    }
}

// ── name enrichment ─────────────────────────────────────────────────────────

/// `pat` occurs at position `j` of `s`.
pub open spec fn matches_at(s: Seq<char>, j: int, pat: Seq<char>) -> bool {
    0 <= j && j + pat.len() <= s.len() && s.subrange(j, j + pat.len()) == pat
}

/// Compare a pattern against position `j`.
#[verifier::loop_isolation(false)]
fn has_at(v: &Vec<char>, j: usize, pat: &Vec<char>) -> (r: bool)
    ensures
        r == matches_at(v@, j as int, pat@),
{
    let n = v.len();
    let m = pat.len();
    if j > n || m > n - j {
        return false;
    }
    let mut k: usize = 0;
    while k < m
        invariant
            k <= m,
            j + m <= n,
            forall|q: int| 0 <= q < k ==> v@[j + q] == pat@[q],
        decreases m - k,
    {
        if v[j + k] != pat[k] {
            proof {
                assert(v@.subrange(j as int, j as int + m as int)[k as int] == v@[j as int + k]);
            }
            return false;
        }
        k = k + 1;
    }
    proof {
        assert(v@.subrange(j as int, j as int + m as int) =~= pat@);
    }
    true
}

/// End of the digit run starting at `j`.
pub open spec fn digits_end(s: Seq<char>, j: int) -> int
    decreases s.len() - j when 0 <= j <= s.len()
{
    if j < s.len() && is_digit_char(s[j]) {
        digits_end(s, j + 1)
    } else {
        j
    }
}

pub proof fn lemma_digits_end_bounds(s: Seq<char>, j: int)
    requires
        0 <= j <= s.len(),
    ensures
        j <= digits_end(s, j) <= s.len(),
        all_digits_in(s, j, digits_end(s, j)),
    decreases s.len() - j,
{
    if j < s.len() && is_digit_char(s[j]) {
        lemma_digits_end_bounds(s, j + 1);
    }
}

/// End of the digit run of a product-name match starting at `j`.
pub open spec fn series_d1(s: Seq<char>, j: int) -> int {
    digits_end(s, j + 4)
}

/// Position of the colon of a product-name match starting at `j`.
pub open spec fn series_colon(s: Seq<char>, j: int) -> int {
    skip_ws(s, series_d1(s, j) + 1)
}

/// Position of the "Card Series:" literal of a match starting at `j`.
pub open spec fn series_lit(s: Seq<char>, j: int) -> int {
    skip_ws(s, series_colon(s, j) + 1)
}

/// Start of the name text of a match starting at `j`.
pub open spec fn series_rest(s: Seq<char>, j: int) -> int {
    skip_ws(s, series_lit(s, j) + 12)
}

/// A product-name pattern ("GPU[<digits>] : Card Series: <rest>") matches at
/// position `j`.
pub open spec fn series_at(s: Seq<char>, j: int) -> bool {
    &&& matches_at(s, j, "GPU["@)
    &&& series_d1(s, j) > j + 4
    &&& series_d1(s, j) < s.len()
    &&& s[series_d1(s, j)] == ']'
    &&& series_colon(s, j) < s.len()
    &&& s[series_colon(s, j)] == ':'
    &&& matches_at(s, series_lit(s, j), "Card Series:"@)
}

/// The device index named by the match.
pub open spec fn series_idx(s: Seq<char>, j: int) -> int {
    dec_val(s.subrange(j + 4, series_d1(s, j)))
}

/// The (trimmed) product name of the match: the rest of the line.
pub open spec fn series_name(s: Seq<char>, j: int) -> Seq<char> {
    spec_trim(s.subrange(series_rest(s, j), s.len() as int))
}

/// Position of the first product-name match at or after `j`, if any.
pub open spec fn first_series(s: Seq<char>, j: int) -> Option<int>
    decreases s.len() - j when 0 <= j <= s.len()
{
    if j >= s.len() {
        None
    } else if series_at(s, j) {
        Some(j)
    } else {
        first_series(s, j + 1)
    }
}

/// How one product-name line updates the name column: the first match names
/// a positional index and, when in range, replaces that name.
pub open spec fn name_update(names: Seq<Seq<char>>, line: Seq<char>) -> Seq<Seq<char>> {
    match first_series(line, 0) {
        Some(j) => {
            if 0 <= series_idx(line, j) < names.len() {
                names.update(series_idx(line, j), series_name(line, j))
            } else {
                names
            }
        },
        None => names,
    }
}

/// The name column after the first `i` lines have been applied in order.
pub open spec fn names_after(names: Seq<Seq<char>>, lines: Seq<Seq<char>>, i: int) -> Seq<
    Seq<char>,
>
    decreases i when 0 <= i <= lines.len()
{
    if i <= 0 {
        names
    } else {
        name_update(names_after(names, lines, i - 1), lines[i - 1])
    }
}

pub open spec fn names_of(s: Seq<GpuSnapshot>) -> Seq<Seq<char>> {
    s.map_values(|g: GpuSnapshot| g.name@)
}

/// The record keeps everything but its name.
pub open spec fn same_but_name(a: GpuSnapshot, b: GpuSnapshot) -> bool {
    &&& b.id == a.id
    &&& b.gfx_ver@ == a.gfx_ver@
    &&& b.temp_milli == a.temp_milli
    &&& b.power_milli == a.power_milli
    &&& b.power_cap_milli == a.power_cap_milli
    &&& b.gpu_pct_milli == a.gpu_pct_milli
    &&& b.vram_total == a.vram_total
    &&& b.vram_used == a.vram_used
}

/// Check a product-name match at position `j`; on success hand back the end
/// of the digit run and the start of the name text.
#[verifier::loop_isolation(false)]
fn series_check(v: &Vec<char>, j: usize) -> (r: Option<(usize, usize)>)
    ensures
        (r is Some) <==> series_at(v@, j as int),
        r matches Some(p) ==> p.0 == series_d1(v@, j as int) && p.1 == series_rest(
            v@,
            j as int,
        ) && p.1 <= v@.len(),
{
    let n = v.len();
    let gpu_pat = to_chars("GPU[");
    proof {
        reveal_strlit("GPU[");
    }
    if !has_at(v, j, &gpu_pat) {
        return None;
    }
    let mut d1: usize = j + 4;
    while d1 < n && digit_char(v[d1])
        invariant
            j + 4 <= d1 <= n,
            digits_end(v@, j as int + 4) == digits_end(v@, d1 as int),
        decreases n - d1,
    {
        d1 = d1 + 1;
    }
    proof {
        assert(digits_end(v@, j as int + 4) == d1);
    }
    if d1 == j + 4 {
        return None;
    }
    if d1 == n || v[d1] != ']' {
        return None;
    }
    let mut c: usize = d1 + 1;
    while c < n && ws_char(v[c])
        invariant
            d1 + 1 <= c <= n,
            skip_ws(v@, d1 as int + 1) == skip_ws(v@, c as int),
        decreases n - c,
    {
        c = c + 1;
    }
    proof {
        assert(skip_ws(v@, d1 as int + 1) == c);
    }
    if c == n || v[c] != ':' {
        return None;
    }
    let mut t: usize = c + 1;
    while t < n && ws_char(v[t])
        invariant
            c + 1 <= t <= n,
            skip_ws(v@, c as int + 1) == skip_ws(v@, t as int),
        decreases n - t,
    {
        t = t + 1;
    }
    proof {
        assert(skip_ws(v@, c as int + 1) == t);
    }
    let cs_pat = to_chars("Card Series:");
    proof {
        reveal_strlit("Card Series:");
    }
    if !has_at(v, t, &cs_pat) {
        return None;
    }
    let mut r0: usize = t + 12;
    while r0 < n && ws_char(v[r0])
        invariant
            t + 12 <= r0 <= n,
            skip_ws(v@, t as int + 12) == skip_ws(v@, r0 as int),
        decreases n - r0,
    {
        r0 = r0 + 1;
    }
    proof {
        assert(skip_ws(v@, t as int + 12) == r0);
    }
    Some((d1, r0))
}

/// Find the first product-name match in a line.
#[verifier::loop_isolation(false)]
fn find_series(v: &Vec<char>) -> (r: Option<(usize, usize, usize)>)
    ensures
        (r is None) <==> (first_series(v@, 0) is None),
        r matches Some(p) ==> first_series(v@, 0) == Some(p.0 as int) && p.1 == series_d1(
            v@,
            p.0 as int,
        ) && p.2 == series_rest(v@, p.0 as int) && p.2 <= v@.len() && series_at(v@, p.0 as int),
{
    let n = v.len();
    let mut j: usize = 0;
    while j < n
        invariant
            j <= n,
            first_series(v@, 0) == first_series(v@, j as int),
        decreases n - j,
    {
        match series_check(v, j) {
            Some(p) => {
                return Some((j, p.0, p.1));
            },
            None => {
                j = j + 1;
            },
        }
    }
    None
}

/// Parse the digit run `[lo, hi)` of `v` as a u64; `None` when the value
/// does not fit.
#[verifier::loop_isolation(false)]
fn parse_u64_range(v: &Vec<char>, lo: usize, hi: usize) -> (r: Option<u64>)
    requires
        lo <= hi <= v@.len(),
        all_digits_in(v@, lo as int, hi as int),
    ensures
        dec_val(v@.subrange(lo as int, hi as int)) <= u64::MAX ==> r == Some(
            (dec_val(v@.subrange(lo as int, hi as int)) as u64),
        ),
        dec_val(v@.subrange(lo as int, hi as int)) > u64::MAX ==> r is None,
{
    let mut acc: u128 = 0;
    let mut i: usize = lo;
    proof {
        assert(v@.subrange(lo as int, lo as int) =~= Seq::<char>::empty());
    }
    while i < hi
        invariant
            lo <= i <= hi,
            acc == dec_val(v@.subrange(lo as int, i as int)),
            acc <= u64::MAX,
        decreases hi - i,
    {
        let c = v[i];
        proof {
            assert(is_digit_char(v@[i as int]));
            lemma_dec_val_snoc(v@, lo as int, i as int);
        }
        let d: u128 = ((c as u32) - 48) as u128;
        acc = acc * 10 + d;
        i = i + 1;
        if acc > u64::MAX as u128 {
            proof {
                lemma_dec_val_grow(v@, lo as int, i as int, hi as int);
            }
            return None;
        }
    }
    Some(acc as u64)
}

/// Name enrichment: each product-name line may set the name of the record
/// at the positional index it names; later lines win, out-of-range indices
/// are ignored, and nothing else changes.
#[verifier::loop_isolation(false)]
pub fn apply_names(gpus: &mut Vec<GpuSnapshot>, text: &str)
    ensures
        final(gpus)@.len() == old(gpus)@.len(),
        forall|i: int|
            0 <= i < old(gpus)@.len() ==> same_but_name(old(gpus)@[i], #[trigger] final(gpus)@[i]),
        names_of(final(gpus)@) == names_after(
            names_of(old(gpus)@),
            lines_from(text@, 0),
            lines_from(text@, 0).len() as int,
        ),
{
    let lines = split_lines(text);
    let m = lines.len();
    let ghost lv = lines.deep_view();
    let mut li: usize = 0;
    while li < m
        invariant
            m == lines@.len(),
            li <= m,
            lv == lines.deep_view(),
            gpus@.len() == old(gpus)@.len(),
            forall|k: int|
                0 <= k < old(gpus)@.len() ==> same_but_name(old(gpus)@[k], #[trigger] gpus@[k]),
            names_of(gpus@) == names_after(names_of(old(gpus)@), lv, li as int),
        decreases m - li,
    {
        proof {
            assert(lines.deep_view()[li as int] == lines@[li as int]@);
        }
        let line = &lines[li];
        let v = to_chars(line.as_str());
        let ghost names_before = names_of(gpus@);
        let glen = gpus.len();
        proof {
            assert(names_before.len() == glen);
            assert(glen <= usize::MAX);
        }
        match find_series(&v) {
            None => {},
            Some((j, d1, r0)) => {
                proof {
                    reveal_strlit("GPU[");
                    lemma_digits_end_bounds(v@, j as int + 4);
                }
                let idx_opt = parse_u64_range(&v, j + 4, d1);
                // extract and trim the rest of the line
                let n = v.len();
                let rest = line.as_str().substring_char(r0, n);
                let rv = to_chars(rest);
                let (tlo, thi) = trim_bounds(&rv);
                let name = String::from_str(rest.substring_char(tlo, thi));
                proof {
                    assert(name@ == series_name(v@, j as int));
                }
                match idx_opt {
                    Some(ix) => {
                        if ix < gpus.len() as u64 {
                            let ixu = ix as usize;
                            proof {
                                lemma_dec_val_nonneg(v@, j as int + 4, d1 as int);
                            }
                            gpus[ixu].name = name;
                            proof {
                                assert(names_of(gpus@) =~~= names_before.update(
                                    ix as int,
                                    series_name(v@, j as int),
                                ));
                            }
                        } else {
                            proof {
                                lemma_dec_val_nonneg(v@, j as int + 4, d1 as int);
                                assert(series_idx(v@, j as int) >= glen);
                            }
                        }
                    },
                    None => {
                        proof {
                            lemma_dec_val_nonneg(v@, j as int + 4, d1 as int);
                            assert(series_idx(v@, j as int) > u64::MAX);
                            assert(series_idx(v@, j as int) >= glen);
                        }
                    },
                }
            },
        }
        proof {
            assert(names_of(gpus@) =~~= name_update(names_before, lv[li as int]));
        }
        li = li + 1;
    }
}

// ── architecture enrichment ─────────────────────────────────────────────────

/// What one hardware-listing line contributes: for a trimmed line starting
/// with a digit with at least 10 tokens whose first token is all digits, the
/// positional index it names and the architecture text (token 4).
pub open spec fn hw_match(line: Seq<char>) -> Option<(int, Seq<char>)> {
    let t = spec_trim(line);
    let toks = tokens_of(t);
    if t.len() > 0 && is_digit_char(t[0]) && toks.len() >= 10 && toks[0].len() > 0 && all_digits(
        toks[0],
    ) {
        Some((dec_val(toks[0]), toks[4]))
    } else {
        None
    }
}

/// How one hardware-listing line updates the architecture column.
pub open spec fn gfx_update(gfxs: Seq<Seq<char>>, line: Seq<char>) -> Seq<Seq<char>> {
    match hw_match(line) {
        Some(p) => {
            if 0 <= p.0 < gfxs.len() {
                gfxs.update(p.0, p.1)
            } else {
                gfxs
            }
        },
        None => gfxs,
    }
}

/// The architecture column after the first `i` lines.
pub open spec fn gfxs_after(gfxs: Seq<Seq<char>>, lines: Seq<Seq<char>>, i: int) -> Seq<Seq<char>>
    decreases i when 0 <= i <= lines.len()
{
    if i <= 0 {
        gfxs
    } else {
        gfx_update(gfxs_after(gfxs, lines, i - 1), lines[i - 1])
    }
}

pub open spec fn gfxs_of(s: Seq<GpuSnapshot>) -> Seq<Seq<char>> {
    s.map_values(|g: GpuSnapshot| g.gfx_ver@)
}

/// The record keeps everything but its architecture text.
pub open spec fn same_but_gfx(a: GpuSnapshot, b: GpuSnapshot) -> bool {
    &&& b.id == a.id
    &&& b.name@ == a.name@
    &&& b.temp_milli == a.temp_milli
    &&& b.power_milli == a.power_milli
    &&& b.power_cap_milli == a.power_cap_milli
    &&& b.gpu_pct_milli == a.gpu_pct_milli
    &&& b.vram_total == a.vram_total
    &&& b.vram_used == a.vram_used
}

/// Architecture enrichment: digit-led lines of at least 10 tokens set the
/// architecture text of the record at the positional index in token 0 from
/// token 4; nothing else changes.
#[verifier::loop_isolation(false)]
pub fn apply_hw(gpus: &mut Vec<GpuSnapshot>, text: &str)
    ensures
        final(gpus)@.len() == old(gpus)@.len(),
        forall|i: int|
            0 <= i < old(gpus)@.len() ==> same_but_gfx(old(gpus)@[i], #[trigger] final(gpus)@[i]),
        gfxs_of(final(gpus)@) == gfxs_after(
            gfxs_of(old(gpus)@),
            lines_from(text@, 0),
            lines_from(text@, 0).len() as int,
        ),
{
    let lines = split_lines(text);
    let m = lines.len();
    let ghost lv = lines.deep_view();
    let mut li: usize = 0;
    while li < m
        invariant
            m == lines@.len(),
            li <= m,
            lv == lines.deep_view(),
            gpus@.len() == old(gpus)@.len(),
            forall|k: int|
                0 <= k < old(gpus)@.len() ==> same_but_gfx(old(gpus)@[k], #[trigger] gpus@[k]),
            gfxs_of(gpus@) == gfxs_after(gfxs_of(old(gpus)@), lv, li as int),
        decreases m - li,
    {
        proof {
            assert(lines.deep_view()[li as int] == lines@[li as int]@);
        }
        let line = &lines[li];
        let ghost gfxs_before = gfxs_of(gpus@);
        let glen = gpus.len();
        proof {
            assert(gfxs_before.len() == glen);
            assert(glen <= usize::MAX);
        }
        let v = to_chars(line.as_str());
        let (lo, hi) = trim_bounds(&v);
        if lo < hi && digit_char(v[lo]) {
            let t = line.as_str().substring_char(lo, hi);
            let toks = tokenize(t);
            proof {
                assert(toks@.len() == toks.deep_view().len());
            }
            if toks.len() >= 10 {
                proof {
                    assert(toks@[0]@ == tokens_of(t@)[0]);
                    assert(toks@[4]@ == tokens_of(t@)[4]);
                }
                match parse_u64(toks[0].as_str()) {
                    Some(ix) => {
                        if ix < gpus.len() as u64 {
                            let ixu = ix as usize;
                            proof {
                                lemma_dec_val_nonneg_all(toks@[0]@);
                            }
                            let gv = toks[4].clone();
                            gpus[ixu].gfx_ver = gv;
                            proof {
                                assert(gfxs_of(gpus@) =~~= gfxs_before.update(
                                    ix as int,
                                    tokens_of(spec_trim(lv[li as int]))[4],
                                ));
                            }
                        }
                    },
                    None => {
                        proof {
                            if toks@[0]@.len() > 0 && all_digits(toks@[0]@) {
                                assert(dec_val(toks@[0]@) > u64::MAX);
                                assert(dec_val(toks@[0]@) >= glen);
                            }
                        }
                    },
                }
            }
        }
        proof {
            assert(gfxs_of(gpus@) =~~= gfx_update(gfxs_before, lv[li as int]));
        }
        li = li + 1;
    }
}

// ── versions ────────────────────────────────────────────────────────────────

/// The driver-version token following the first "Driver version:" label that
/// has one, if any.
pub open spec fn first_driver_token(s: Seq<char>, j: int) -> Option<Seq<char>>
    decreases s.len() - j when 0 <= j <= s.len()
{
    let lab = "Driver version:"@;
    if j >= s.len() {
        None
    } else if matches_at(s, j, lab) && skip_ws(s, j + lab.len()) < s.len() {
        proof {
            lemma_skip_ws_bounds(s, j + lab.len() as int);
            lemma_nonws_end_bounds(s, skip_ws(s, j + lab.len()));
        }
        Some(s.subrange(skip_ws(s, j + lab.len()), nonws_end(s, skip_ws(s, j + lab.len()))))
    } else {
        first_driver_token(s, j + 1)
    }
}

/// What the driver-version scan reports: the captured token, or "N/A".
pub open spec fn spec_driver_version(s: Seq<char>) -> Seq<char> {
    match first_driver_token(s, 0) {
        Some(t) => t,
        None => "N/A"@,
    }
}

/// Find the driver version in the diagnostic output: the first
/// whitespace-separated token after a "Driver version:" label, or "N/A".
#[verifier::loop_isolation(false)]
pub fn parse_driver_version(text: &str) -> (r: String)
    ensures
        r@ == spec_driver_version(text@),
{
    let v = to_chars(text);
    let n = v.len();
    let pat = to_chars("Driver version:");
    proof {
        reveal_strlit("Driver version:");
    }
    let mut j: usize = 0;
    while j < n
        invariant
            j <= n,
            first_driver_token(text@, 0) == first_driver_token(text@, j as int),
        decreases n - j,
    {
        if has_at(&v, j, &pat) {
            let mut w: usize = j + 15;
            while w < n && ws_char(v[w])
                invariant
                    j + 15 <= w <= n,
                    skip_ws(text@, j as int + 15) == skip_ws(text@, w as int),
                decreases n - w,
            {
                w = w + 1;
            }
            proof {
                assert(skip_ws(text@, j as int + 15) == w);
            }
            if w < n {
                let mut e: usize = w;
                while e < n && !ws_char(v[e])
                    invariant
                        w <= e <= n,
                        nonws_end(text@, w as int) == nonws_end(text@, e as int),
                    decreases n - e,
                {
                    e = e + 1;
                }
                proof {
                    assert(nonws_end(text@, w as int) == e);
                }
                return String::from_str(text.substring_char(w, e));
            }
        }
        j = j + 1;
    }
    let r = String::from_str("N/A");
    r
}

/// Position of the first '-' at or after `j`.
pub open spec fn dash_pos(s: Seq<char>, j: int) -> int
    decreases s.len() - j when 0 <= j <= s.len()
{
    if j < s.len() && s[j] != '-' {
        dash_pos(s, j + 1)
    } else {
        j
    }
}

/// What the runtime-version file yields: the trimmed text up to the first
/// '-', when it starts with a digit; otherwise "N/A".
pub open spec fn spec_rocm_version(content: Seq<char>) -> Seq<char> {
    let t = spec_trim(content);
    let p = t.take(dash_pos(t, 0));
    if p.len() > 0 && is_digit_char(p[0]) {
        p
    } else {
        "N/A"@
    }
}

/// Reduce the runtime-version file's text to the version it names, or
/// "N/A".
#[verifier::loop_isolation(false)]
pub fn parse_rocm_version(content: &str) -> (r: String)
    ensures
        r@ == spec_rocm_version(content@),
{
    let v = to_chars(content);
    let (lo, hi) = trim_bounds(&v);
    let ghost t = spec_trim(content@);
    let mut p: usize = lo;
    while p < hi && v[p] != '-'
        invariant
            lo <= p <= hi <= v@.len(),
            t == v@.subrange(lo as int, hi as int),
            forall|q: int| 0 <= q < p - lo ==> t[q] != '-',
        decreases hi - p,
    {
        p = p + 1;
    }
    proof {
        lemma_dash_shift(t, 0, p as int - lo as int);
        assert(dash_pos(t, 0) == p - lo);
        assert(t.take(p as int - lo as int) =~= v@.subrange(lo as int, p as int));
    }
    if p > lo && digit_char(v[lo]) {
        String::from_str(content.substring_char(lo, p))
    } else {
        let r = String::from_str("N/A");
        r
    }
}

/// `dash_pos` stays put once every earlier character is known not to be a
/// dash.
proof fn lemma_dash_shift(t: Seq<char>, j: int, p: int)
    requires
        0 <= j <= p <= t.len(),
        forall|q: int| j <= q < p ==> t[q] != '-',
        p == t.len() || t[p] == '-',
    ensures
        dash_pos(t, j) == p,
    decreases p - j,
{
    if j < p {
        lemma_dash_shift(t, j + 1, p);
    }
}

// ── the collector ───────────────────────────────────────────────────────────

/// A record carries the base fields parsed from its primary-listing line.
pub open spec fn base_of_line(g: GpuSnapshot, line: Seq<char>) -> bool {
    let t = spec_trim(line);
    let toks = tokens_of(t);
    &&& g.id == dec_val(toks[0])
    &&& g.temp_milli == spec_extract_milli(toks[4])
    &&& g.power_milli == spec_extract_milli(toks[5])
    &&& g.power_cap_milli == spec_extract_milli(toks[13])
    &&& g.gpu_pct_milli == (if toks.len() > 15 {
        spec_extract_milli(toks[15])
    } else {
        0
    })
}

/// A name column of `n` empty names.
pub open spec fn blank_column(n: int) -> Seq<Seq<char>> {
    Seq::new(if n >= 0 {
        n as nat
    } else {
        0
    }, |i: int| Seq::<char>::empty())
}

/// One full collection run over the four raw outputs: one record per
/// accepted primary line, VRAM filled from the JSON mapping, names and
/// architecture texts applied by positional index.
pub fn collect(concise: &str, vram_json: &str, product: &str, hw: &str) -> (r: Vec<GpuSnapshot>)
    ensures
        r@.len() == accepted_concise(concise@).len(),
        forall|k: int|
            0 <= k < r@.len() ==> base_of_line(#[trigger] r@[k], accepted_concise(concise@)[k]),
        forall|k: int|
            0 <= k < r@.len() ==> (#[trigger] r@[k]).vram_total == spec_vram_field(
                vram_json@,
                k,
                "VRAM Total Memory (B)"@,
                0,
            ),
        forall|k: int|
            0 <= k < r@.len() ==> (#[trigger] r@[k]).vram_used == spec_vram_field(
                vram_json@,
                k,
                "VRAM Total Used Memory (B)"@,
                0,
            ),
        vram_json@.len() == 0 ==> forall|k: int|
            0 <= k < r@.len() ==> (#[trigger] r@[k]).vram_total == 0 && r@[k].vram_used == 0,
        names_of(r@) == names_after(
            blank_column(r@.len() as int),
            lines_from(product@, 0),
            lines_from(product@, 0).len() as int,
        ),
        gfxs_of(r@) == gfxs_after(
            blank_column(r@.len() as int),
            lines_from(hw@, 0),
            lines_from(hw@, 0).len() as int,
        ),
{
    let ghost acc = accepted_concise(concise@);
    let mut gpus = parse_concise(concise);
    let ghost s0 = gpus@;
    apply_vram(&mut gpus, vram_json);
    let ghost s1 = gpus@;
    proof {
        assert(names_of(s1) =~= blank_column(s1.len() as int));
        assert(gfxs_of(s1) =~= blank_column(s1.len() as int));
        assert forall|k: int| 0 <= k < s1.len() implies base_of_line(#[trigger] s1[k], acc[k]) by {
            assert(snapshot_of_line(s0[k], acc[k]));
            assert(same_but_vram(s0[k], s1[k]));
        }
        assert forall|k: int| 0 <= k < s1.len() implies (#[trigger] s1[k]).vram_total
            == spec_vram_field(vram_json@, k, "VRAM Total Memory (B)"@, 0) && s1[k].vram_used
            == spec_vram_field(vram_json@, k, "VRAM Total Used Memory (B)"@, 0) by {
            assert(snapshot_of_line(s0[k], acc[k]));
            assert(s0[k].vram_total == 0 && s0[k].vram_used == 0);
            assert(s1[k].vram_total == spec_vram_field(
                vram_json@,
                k,
                "VRAM Total Memory (B)"@,
                s0[k].vram_total as int,
            ));
            assert(s1[k].vram_used == spec_vram_field(
                vram_json@,
                k,
                "VRAM Total Used Memory (B)"@,
                s0[k].vram_used as int,
            ));
        }
    }
    apply_names(&mut gpus, product);
    let ghost s2 = gpus@;
    proof {
        assert(gfxs_of(s2) =~= gfxs_of(s1));
        assert(names_of(s2) == names_after(
            blank_column(s2.len() as int),
            lines_from(product@, 0),
            lines_from(product@, 0).len() as int,
        ));
        assert forall|k: int| 0 <= k < s2.len() implies base_of_line(#[trigger] s2[k], acc[k]) by {
            assert(base_of_line(s1[k], acc[k]));
            assert(same_but_name(s1[k], s2[k]));
        }
        assert forall|k: int| 0 <= k < s2.len() implies (#[trigger] s2[k]).vram_total
            == spec_vram_field(vram_json@, k, "VRAM Total Memory (B)"@, 0) && s2[k].vram_used
            == spec_vram_field(vram_json@, k, "VRAM Total Used Memory (B)"@, 0) by {
            assert(same_but_name(s1[k], s2[k]));
        }
    }
    apply_hw(&mut gpus, hw);
    proof {
        let s3 = gpus@;
        assert(names_of(s3) =~= names_of(s2));
        assert(gfxs_of(s3) == gfxs_after(
            gfxs_of(s2),
            lines_from(hw@, 0),
            lines_from(hw@, 0).len() as int,
        ));
        assert(gfxs_of(s2) == blank_column(s3.len() as int));
        assert forall|k: int| 0 <= k < s3.len() implies base_of_line(#[trigger] s3[k], acc[k]) by {
            assert(base_of_line(s2[k], acc[k]));
            assert(same_but_gfx(s2[k], s3[k]));
        }
        assert forall|k: int| 0 <= k < s3.len() implies (#[trigger] s3[k]).vram_total
            == spec_vram_field(vram_json@, k, "VRAM Total Memory (B)"@, 0) && s3[k].vram_used
            == spec_vram_field(vram_json@, k, "VRAM Total Used Memory (B)"@, 0) by {
            assert(same_but_gfx(s2[k], s3[k]));
        }
        if vram_json@.len() == 0 {
            assert forall|k: int| 0 <= k < s3.len() implies (#[trigger] s3[k]).vram_total == 0
                && s3[k].vram_used == 0 by {
                assert(snapshot_of_line(s0[k], acc[k]));
                assert(s1[k].vram_total == s0[k].vram_total && s1[k].vram_used
                    == s0[k].vram_used);
                assert(same_but_name(s1[k], s2[k]));
                assert(same_but_gfx(s2[k], s3[k]));
            }
        }
    }
    gpus
}

} // verus!
