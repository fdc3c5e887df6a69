//! The renderer: composes the bordered, color-coded report.
//!
//! Every line's exact character content is pinned by the contracts, down to
//! the style tokens, so the fixed-width layout is part of the specification.

use vstd::prelude::*;
use vstd::string::StringExecFns;
use crate::text::spaces;
use crate::text::spec_rpad;
use crate::text::spec_lpad;
use crate::text::make_spaces;
use crate::text::rpad;
use crate::text::lpad;
use crate::num::dec_str;
use crate::num::to_dec;
use crate::num::to_dec_u64;
use crate::units::tenths_str;
use crate::units::bytes_to_mib;
use crate::units::gib_tenths;
use crate::units::gib_whole;
use crate::units::milli_round;
use crate::units::fmt_tenths;
use crate::style::spec_temp_tier;
use crate::style::spec_ratio_tier;
use crate::style::spec_temp_color;
use crate::style::spec_ratio_color;
use crate::style::temp_tier;
use crate::style::ratio_tier;
use crate::style::temp_color;
use crate::style::ratio_color;
use crate::style::style_reset;
use crate::style::style_bold;
use crate::style::style_dim;
use crate::style::style_cyan;
use crate::style::style_white;
use crate::snapshot::GpuSnapshot;
use crate::snapshot::Totals;
use crate::snapshot::totals;
use crate::snapshot::sum_sat;

verus! {

/// The inner width of the report box, in visible columns.
pub open spec fn box_width() -> int {
    79
}

// ── cells ───────────────────────────────────────────────────────────────────

/// Device id, bold white, right-aligned to three columns.
pub open spec fn spec_id_cell(id: int) -> Seq<char> {
    "\u{1b}[1m"@ + "\u{1b}[97m"@ + spec_lpad(dec_str(id), 3) + "\u{1b}[0m"@
}

pub fn id_cell(id: u32) -> (r: String)
    ensures
        r@ == spec_id_cell(id as int),
{
    let mut r = style_bold();
    let w = style_white();
    r.append(w.as_str());
    let digits = to_dec(id as u128);
    let padded = lpad(digits.as_str(), 3);
    r.append(padded.as_str());
    let reset = style_reset();
    r.append(reset.as_str());
    proof {
        assert(r@ =~= spec_id_cell(id as int));
    }
    r
}

/// Temperature, "<int>°C", colored by temperature severity.
pub open spec fn spec_temp_cell(m: int) -> Seq<char> {
    spec_temp_color(spec_temp_tier(m)) + dec_str((m + 500) / 1000) + "\u{b0}C"@ + "\u{1b}[0m"@
}

pub fn temp_cell(m: u64) -> (r: String)
    ensures
        r@ == spec_temp_cell(m as int),
{
    let mut r = temp_color(temp_tier(m));
    let digits = to_dec_u64(milli_round(m));
    r.append(digits.as_str());
    r.append("\u{b0}C");
    let reset = style_reset();
    r.append(reset.as_str());
    proof {
        assert(r@ =~= spec_temp_cell(m as int));
    }
    r
}

/// Power, "<used>W / <cap>W", colored by the used/cap ratio, the cap dimmed.
pub open spec fn spec_power_cell(p: int, c: int) -> Seq<char> {
    spec_ratio_color(spec_ratio_tier(p, c)) + dec_str((p + 500) / 1000) + "W"@ + "\u{1b}[0m"@
        + " "@ + "\u{1b}[2m"@ + "/ "@ + dec_str((c + 500) / 1000) + "W"@ + "\u{1b}[0m"@
}

pub fn power_cell(p: u64, c: u64) -> (r: String)
    ensures
        r@ == spec_power_cell(p as int, c as int),
{
    let mut r = ratio_color(ratio_tier(p, c));
    let used = to_dec_u64(milli_round(p));
    r.append(used.as_str());
    r.append("W");
    let reset = style_reset();
    r.append(reset.as_str());
    r.append(" ");
    let dim = style_dim();
    r.append(dim.as_str());
    r.append("/ ");
    let cap = to_dec_u64(milli_round(c));
    r.append(cap.as_str());
    r.append("W");
    r.append(reset.as_str());
    proof {
        assert(r@ =~= spec_power_cell(p as int, c as int));
    }
    r
}

/// The used-memory text: MiB below 1024 MiB, else GiB with one decimal.
pub open spec fn spec_used_disp(used: int) -> Seq<char> {
    if used / 1048576 < 1024 {
        dec_str(used / 1048576) + "MiB"@
    } else {
        tenths_str((used * 10 + 536870912) / 1073741824) + "GiB"@
    }
}

/// VRAM, "<used> / <total>GiB", colored by the used/total ratio.
pub open spec fn spec_vram_cell(used: int, total: int) -> Seq<char> {
    spec_ratio_color(spec_ratio_tier(used, total)) + spec_used_disp(used) + "\u{1b}[0m"@ + " "@
        + "\u{1b}[2m"@ + "/ "@ + dec_str((total + 536870912) / 1073741824) + "GiB"@
        + "\u{1b}[0m"@
}

pub fn vram_cell(used: u64, total: u64) -> (r: String)
    ensures
        r@ == spec_vram_cell(used as int, total as int),
{
    let mut r = ratio_color(ratio_tier(used, total));
    let mib = bytes_to_mib(used);
    if mib < 1024 {
        let digits = to_dec_u64(mib);
        r.append(digits.as_str());
        r.append("MiB");
    } else {
        let t = fmt_tenths(gib_tenths(used));
        r.append(t.as_str());
        r.append("GiB");
    }
    let reset = style_reset();
    r.append(reset.as_str());
    r.append(" ");
    let dim = style_dim();
    r.append(dim.as_str());
    r.append("/ ");
    let whole = to_dec(gib_whole(total));
    r.append(whole.as_str());
    r.append("GiB");
    r.append(reset.as_str());
    proof {
        assert(r@ =~= spec_vram_cell(used as int, total as int));
    }
    r
}

/// Utilization, "<int>%", colored by the percent/100 ratio, bold from 90%.
pub open spec fn spec_util_cell(pct: int) -> Seq<char> {
    spec_ratio_color(spec_ratio_tier(pct, 100000)) + (if pct >= 90000 {
        "\u{1b}[1m"@
    } else {
        Seq::<char>::empty()
    }) + dec_str((pct + 500) / 1000) + "%"@ + "\u{1b}[0m"@
}

pub fn util_cell(pct: u64) -> (r: String)
    ensures
        r@ == spec_util_cell(pct as int),
{
    let mut r = ratio_color(ratio_tier(pct, 100000));
    if pct >= 90000 {
        let b = style_bold();
        r.append(b.as_str());
    }
    let digits = to_dec_u64(milli_round(pct));
    r.append(digits.as_str());
    r.append("%");
    let reset = style_reset();
    r.append(reset.as_str());
    proof {
        assert(r@ =~= spec_util_cell(pct as int));
    }
    r
}

// ── rows and framing ────────────────────────────────────────────────────────

/// One device row: id, temperature, power, VRAM and utilization cells in
/// their fixed columns.
pub open spec fn spec_row(g: GpuSnapshot) -> Seq<char> {
    " "@ + spec_lpad(spec_id_cell(g.id as int), 3) + "   "@ + spec_lpad(
        spec_temp_cell(g.temp_milli as int),
        5,
    ) + "   "@ + spec_rpad(spec_power_cell(g.power_milli as int, g.power_cap_milli as int), 19)
        + "   "@ + spec_rpad(spec_vram_cell(g.vram_used as int, g.vram_total as int), 19) + "   "@
        + spec_lpad(spec_util_cell(g.gpu_pct_milli as int), 4)
}

pub fn row(g: &GpuSnapshot) -> (r: String)
    ensures
        r@ == spec_row(*g),
{
    let mut r = String::from_str(" ");
    let c1 = id_cell(g.id);
    let p1 = lpad(c1.as_str(), 3);
    r.append(p1.as_str());
    r.append("   ");
    let c2 = temp_cell(g.temp_milli);
    let p2 = lpad(c2.as_str(), 5);
    r.append(p2.as_str());
    r.append("   ");
    let c3 = power_cell(g.power_milli, g.power_cap_milli);
    let p3 = rpad(c3.as_str(), 19);
    r.append(p3.as_str());
    r.append("   ");
    let c4 = vram_cell(g.vram_used, g.vram_total);
    let p4 = rpad(c4.as_str(), 19);
    r.append(p4.as_str());
    r.append("   ");
    let c5 = util_cell(g.gpu_pct_milli);
    let p5 = lpad(c5.as_str(), 4);
    r.append(p5.as_str());
    proof {
        assert(r@ =~= spec_row(*g));
    }
    r
}

/// A content line of the box: cyan frame bars around the inner text padded
/// to the box width.
pub open spec fn spec_boxed(inner: Seq<char>) -> Seq<char> {
    "\u{1b}[96m"@ + "\u{2551}"@ + "\u{1b}[0m"@ + spec_rpad(inner, box_width()) + "\u{1b}[96m"@
        + "\u{2551}"@ + "\u{1b}[0m"@
}

pub fn boxed(inner: &str) -> (r: String)
    ensures
        r@ == spec_boxed(inner@),
{
    let mut r = style_cyan();
    r.append("\u{2551}");
    let reset = style_reset();
    r.append(reset.as_str());
    let padded = rpad(inner, 79);
    r.append(padded.as_str());
    let cyan = style_cyan();
    r.append(cyan.as_str());
    r.append("\u{2551}");
    r.append(reset.as_str());
    proof {
        assert(r@ =~= spec_boxed(inner@));
    }
    r
}

/// A horizontal border: cyan corners around 79 repeats of the rule
/// character.
pub open spec fn spec_border(left: Seq<char>, mid: char, right: Seq<char>) -> Seq<char> {
    "\u{1b}[96m"@ + left + Seq::new(79, |i: int| mid) + right + "\u{1b}[0m"@
}

/// 79 copies of a one-character piece.
fn repeat79(piece: &str) -> (r: String)
    requires
        piece@.len() == 1,
    ensures
        r@ == Seq::new(79, |i: int| piece@[0]),
{
    let mut r = String::new();
    let mut i: usize = 0;
    while i < 79
        invariant
            i <= 79,
            piece@.len() == 1,
            r@ == Seq::new(i as nat, |k: int| piece@[0]),
        decreases 79 - i,
    {
        r.append(piece);
        i = i + 1;
        proof {
            assert(r@ =~= Seq::new(i as nat, |k: int| piece@[0]));
        }
    }
    r
}

fn border(left: &str, mid: &str, right: &str) -> (r: String)
    requires
        mid@.len() == 1,
    ensures
        r@ == spec_border(left@, mid@[0], right@),
{
    let mut r = style_cyan();
    r.append(left);
    let bar = repeat79(mid);
    r.append(bar.as_str());
    r.append(right);
    let reset = style_reset();
    r.append(reset.as_str());
    proof {
        assert(r@ =~= spec_border(left@, mid@[0], right@));
    }
    r
}

// ── header lines ────────────────────────────────────────────────────────────

/// The title line: tool name on the left, timestamp on the right, padded to
/// fill the width (clamped when the timestamp is oversized).
pub open spec fn spec_title_line(ts: Seq<char>) -> Seq<char> {
    "\u{1b}[96m"@ + "\u{2551}"@ + "\u{1b}[0m"@ + " "@ + "\u{1b}[1m"@ + "\u{1b}[96m"@
        + "pretty-rocm-smi"@ + "\u{1b}[0m"@ + spaces(62 - ts.len()) + "\u{1b}[2m"@ + ts
        + "\u{1b}[0m"@ + " "@ + "\u{1b}[96m"@ + "\u{2551}"@ + "\u{1b}[0m"@
}

pub fn title_line(ts: &str) -> (r: String)
    ensures
        r@ == spec_title_line(ts@),
{
    let mut r = style_cyan();
    r.append("\u{2551}");
    let reset = style_reset();
    r.append(reset.as_str());
    r.append(" ");
    let bold = style_bold();
    r.append(bold.as_str());
    let cyan = style_cyan();
    r.append(cyan.as_str());
    r.append("pretty-rocm-smi");
    r.append(reset.as_str());
    let tl = vlen_free_len(ts);
    let pad = if tl < 62 {
        make_spaces(62 - tl)
    } else {
        String::new()
    };
    r.append(pad.as_str());
    let dim = style_dim();
    r.append(dim.as_str());
    r.append(ts);
    r.append(reset.as_str());
    r.append(" ");
    r.append(cyan.as_str());
    r.append("\u{2551}");
    r.append(reset.as_str());
    proof {
        if ts@.len() >= 62 {
            assert(spaces(62 - ts@.len() as int) =~= Seq::<char>::empty());
        }
        assert(r@ =~= spec_title_line(ts@));
    }
    r
}

/// The character count of a text (escape sequences are not expected here).
fn vlen_free_len(s: &str) -> (r: usize)
    ensures
        r == s@.len(),
{
    vstd::string::StrSliceExecFns::unicode_len(s)
}

/// The info line's visible text: primary device name, architecture, driver
/// and runtime versions.
pub open spec fn spec_info_plain(
    name: Seq<char>,
    gfx: Seq<char>,
    driver: Seq<char>,
    rocm: Seq<char>,
) -> Seq<char> {
    name + " ("@ + gfx + ") Driver: "@ + driver + "  ROCm: "@ + rocm
}

/// The styled middle of the info line.
pub open spec fn spec_info_styled(
    name: Seq<char>,
    gfx: Seq<char>,
    driver: Seq<char>,
    rocm: Seq<char>,
) -> Seq<char> {
    "\u{1b}[1m"@ + name + "\u{1b}[0m"@ + " "@ + "\u{1b}[2m"@ + "("@ + gfx + ")"@ + "\u{1b}[0m"@
        + " "@ + "\u{1b}[2m"@ + "Driver: "@ + "\u{1b}[0m"@ + "\u{1b}[1m"@ + driver + "  "@
        + "\u{1b}[2m"@ + "ROCm: "@ + "\u{1b}[0m"@ + "\u{1b}[1m"@ + rocm
}

/// The info line, with its styled text left-aligned inside the frame.
pub open spec fn spec_info_line(
    name: Seq<char>,
    gfx: Seq<char>,
    driver: Seq<char>,
    rocm: Seq<char>,
) -> Seq<char> {
    let pad = box_width() - 1 - spec_info_plain(name, gfx, driver, rocm).len();
    "\u{1b}[96m"@ + "\u{2551}"@ + "\u{1b}[0m"@ + " "@ + spec_info_styled(name, gfx, driver, rocm)
        + "\u{1b}[0m"@ + spaces(pad) + "\u{1b}[96m"@ + "\u{2551}"@ + "\u{1b}[0m"@
}

fn info_styled(name: &str, gfx: &str, driver: &str, rocm: &str) -> (r: String)
    ensures
        r@ == spec_info_styled(name@, gfx@, driver@, rocm@),
{
    let reset = style_reset();
    let bold = style_bold();
    let dim = style_dim();
    let mut r = style_bold();
    r.append(name);
    r.append(reset.as_str());
    r.append(" ");
    r.append(dim.as_str());
    r.append("(");
    r.append(gfx);
    r.append(")");
    r.append(reset.as_str());
    r.append(" ");
    r.append(dim.as_str());
    r.append("Driver: ");
    r.append(reset.as_str());
    r.append(bold.as_str());
    r.append(driver);
    r.append("  ");
    r.append(dim.as_str());
    r.append("ROCm: ");
    r.append(reset.as_str());
    r.append(bold.as_str());
    r.append(rocm);
    proof {
        assert(r@ =~= spec_info_styled(name@, gfx@, driver@, rocm@));
    }
    r
}

pub fn info_line(name: &str, gfx: &str, driver: &str, rocm: &str) -> (r: String)
    ensures
        r@ == spec_info_line(name@, gfx@, driver@, rocm@),
{
    let reset = style_reset();
    let cyan = style_cyan();
    let mut r = style_cyan();
    r.append("\u{2551}");
    r.append(reset.as_str());
    r.append(" ");
    let styled = info_styled(name, gfx, driver, rocm);
    r.append(styled.as_str());
    r.append(reset.as_str());
    // pad by the plain (unstyled) text length
    let ln = vlen_free_len(name);
    let lg = vlen_free_len(gfx);
    let ld = vlen_free_len(driver);
    let lr = vlen_free_len(rocm);
    proof {
        reveal_strlit(" (");
        reveal_strlit(") Driver: ");
        reveal_strlit("  ROCm: ");
        assert(spec_info_plain(name@, gfx@, driver@, rocm@).len() == name@.len() + 2 + gfx@.len()
            + 10 + driver@.len() + 8 + rocm@.len());
    }
    // plain length = parts + 20 literal characters; pad = 78 - plain
    let mut plain: u128 = ln as u128;
    plain = plain + lg as u128 + ld as u128 + lr as u128 + 20;
    let pad: String = if plain < 78 {
        make_spaces((78 - plain) as usize)
    } else {
        String::new()
    };
    r.append(pad.as_str());
    r.append(cyan.as_str());
    r.append("\u{2551}");
    r.append(reset.as_str());
    proof {
        if plain >= 78 {
            assert(spaces(
                box_width() - 1 - spec_info_plain(name@, gfx@, driver@, rocm@).len(),
            ) =~= Seq::<char>::empty());
        }
        assert(r@ =~= spec_info_line(name@, gfx@, driver@, rocm@));
    }
    r
}

/// The column-header line.
pub open spec fn spec_header_inner() -> Seq<char> {
    " "@ + "\u{1b}[1m"@ + "\u{1b}[97m"@
        + "GPU   Temp    Power Usage         VRAM Usage           GPU%"@ + "\u{1b}[0m"@
}

pub fn header_line() -> (r: String)
    ensures
        r@ == spec_boxed(spec_header_inner()),
{
    let mut h = String::from_str(" ");
    let bold = style_bold();
    h.append(bold.as_str());
    let white = style_white();
    h.append(white.as_str());
    h.append("GPU   Temp    Power Usage         VRAM Usage           GPU%");
    let reset = style_reset();
    h.append(reset.as_str());
    proof {
        assert(h@ =~= spec_header_inner());
    }
    boxed(h.as_str())
}

// ── the summary line ────────────────────────────────────────────────────────

/// The summary line under the box: device count, summed VRAM in GiB, summed
/// power against cap, and the mean temperature, each styled.
pub open spec fn spec_summary(
    count: int,
    used: int,
    total: int,
    power: int,
    cap: int,
    avg: int,
) -> Seq<char> {
    " "@ + "\u{1b}[2m"@ + "Total:"@ + "\u{1b}[0m"@ + " "@ + "\u{1b}[1m"@ + dec_str(count)
        + "\u{1b}[0m"@ + " GPUs  "@ + "\u{1b}[2m"@ + "\u{2502}"@ + "\u{1b}[0m"@ + "  VRAM: "@
        + tenths_str((used * 10 + 536870912) / 1073741824) + "/"@ + dec_str(
        (total + 536870912) / 1073741824,
    ) + " GiB  "@ + "\u{1b}[2m"@ + "\u{2502}"@ + "\u{1b}[0m"@ + "  Power: "@ + spec_ratio_color(
        spec_ratio_tier(power, cap),
    ) + dec_str((power + 500) / 1000) + "W"@ + "\u{1b}[0m"@ + "\u{1b}[2m"@ + "/"@ + dec_str(
        (cap + 500) / 1000,
    ) + "W  "@ + "\u{1b}[2m"@ + "\u{2502}"@ + "\u{1b}[0m"@ + "  Avg Temp: "@ + spec_temp_color(
        spec_temp_tier(avg),
    ) + dec_str((avg + 500) / 1000) + "\u{b0}C"@ + "\u{1b}[0m"@
}

pub fn summary_line(t: &Totals) -> (r: String)
    ensures
        r@ == spec_summary(
            t.count as int,
            t.vram_used as int,
            t.vram_total as int,
            t.power_milli as int,
            t.power_cap_milli as int,
            t.avg_temp_milli as int,
        ),
{
    let reset = style_reset();
    let bold = style_bold();
    let dim = style_dim();
    let mut r = String::from_str(" ");
    r.append(dim.as_str());
    r.append("Total:");
    r.append(reset.as_str());
    r.append(" ");
    r.append(bold.as_str());
    let cnt = to_dec(t.count as u128);
    r.append(cnt.as_str());
    r.append(reset.as_str());
    r.append(" GPUs  ");
    r.append(dim.as_str());
    r.append("\u{2502}");
    r.append(reset.as_str());
    r.append("  VRAM: ");
    let used = fmt_tenths(gib_tenths(t.vram_used));
    r.append(used.as_str());
    r.append("/");
    let total = to_dec(gib_whole(t.vram_total));
    r.append(total.as_str());
    r.append(" GiB  ");
    r.append(dim.as_str());
    r.append("\u{2502}");
    r.append(reset.as_str());
    r.append("  Power: ");
    let pc = ratio_color(ratio_tier(t.power_milli, t.power_cap_milli));
    r.append(pc.as_str());
    let pw = to_dec_u64(milli_round(t.power_milli));
    r.append(pw.as_str());
    r.append("W");
    r.append(reset.as_str());
    r.append(dim.as_str());
    r.append("/");
    let cw = to_dec_u64(milli_round(t.power_cap_milli));
    r.append(cw.as_str());
    r.append("W  ");
    r.append(dim.as_str());
    r.append("\u{2502}");
    r.append(reset.as_str());
    r.append("  Avg Temp: ");
    let tc = temp_color(temp_tier(t.avg_temp_milli));
    r.append(tc.as_str());
    let av = to_dec_u64(milli_round(t.avg_temp_milli));
    r.append(av.as_str());
    r.append("\u{b0}C");
    r.append(reset.as_str());
    proof {
        assert(r@ =~= spec_summary(
            t.count as int,
            t.vram_used as int,
            t.vram_total as int,
            t.power_milli as int,
            t.power_cap_milli as int,
            t.avg_temp_milli as int,
        ));
    }
    r
}

// ── the whole report ────────────────────────────────────────────────────────

/// Render the full report as its lines, top to bottom: top border, title,
/// info line, separator, column header, rule, one row per device, bottom
/// border, summary, and a final blank line.
#[verifier::loop_isolation(false)]
pub fn render_report(gpus: &Vec<GpuSnapshot>, driver: &str, rocm: &str, timestamp: &str) -> (r:
    Vec<String>)
    ensures
        r@.len() == 9 + gpus@.len(),
        r.deep_view()[0] == spec_border("\u{2554}"@, '\u{2550}', "\u{2557}"@),
        r.deep_view()[1] == spec_title_line(timestamp@),
        r.deep_view()[2] == spec_info_line(
            (if gpus@.len() > 0 {
                gpus@[0].name@
            } else {
                "AMD GPU"@
            }),
            (if gpus@.len() > 0 {
                gpus@[0].gfx_ver@
            } else {
                Seq::<char>::empty()
            }),
            driver@,
            rocm@,
        ),
        r.deep_view()[3] == spec_border("\u{2560}"@, '\u{2550}', "\u{2563}"@),
        r.deep_view()[4] == spec_boxed(spec_header_inner()),
        r.deep_view()[5] == spec_border("\u{255f}"@, '\u{2500}', "\u{2562}"@),
        forall|k: int|
            0 <= k < gpus@.len() ==> r.deep_view()[6 + k] == spec_boxed(
                spec_row(#[trigger] gpus@[k]),
            ),
        r.deep_view()[6 + gpus@.len() as int] == spec_border("\u{255a}"@, '\u{2550}', "\u{255d}"@),
        r.deep_view()[7 + gpus@.len() as int] == spec_summary(
            gpus@.len() as int,
            sum_sat(gpus@, (|g: GpuSnapshot| g.vram_used as int)),
            sum_sat(gpus@, (|g: GpuSnapshot| g.vram_total as int)),
            sum_sat(gpus@, (|g: GpuSnapshot| g.power_milli as int)),
            sum_sat(gpus@, (|g: GpuSnapshot| g.power_cap_milli as int)),
            (if gpus@.len() > 0 {
                sum_sat(gpus@, (|g: GpuSnapshot| g.temp_milli as int)) / gpus@.len() as int
            } else {
                0
            }),
        ),
        r.deep_view()[8 + gpus@.len() as int] == Seq::<char>::empty(),
{
    let mut r: Vec<String> = Vec::new();
    proof {
        reveal_strlit("\u{2550}");
        reveal_strlit("\u{2500}");
    }
    r.push(border("\u{2554}", "\u{2550}", "\u{2557}"));
    r.push(title_line(timestamp));
    if gpus.len() > 0 {
        let name = gpus[0].name.as_str();
        let gfx = gpus[0].gfx_ver.as_str();
        r.push(info_line(name, gfx, driver, rocm));
    } else {
        proof {
            reveal_strlit("");
        }
        r.push(info_line("AMD GPU", "", driver, rocm));
    }
    r.push(border("\u{2560}", "\u{2550}", "\u{2563}"));
    r.push(header_line());
    r.push(border("\u{255f}", "\u{2500}", "\u{2562}"));
    let n = gpus.len();
    let mut i: usize = 0;
    while i < n
        invariant
            n == gpus@.len(),
            i <= n,
            r@.len() == 6 + i,
            r.deep_view()[0] == spec_border("\u{2554}"@, '\u{2550}', "\u{2557}"@),
            r.deep_view()[1] == spec_title_line(timestamp@),
            r.deep_view()[2] == spec_info_line(
                (if gpus@.len() > 0 {
                    gpus@[0].name@
                } else {
                    "AMD GPU"@
                }),
                (if gpus@.len() > 0 {
                    gpus@[0].gfx_ver@
                } else {
                    Seq::<char>::empty()
                }),
                driver@,
                rocm@,
            ),
            r.deep_view()[3] == spec_border("\u{2560}"@, '\u{2550}', "\u{2563}"@),
            r.deep_view()[4] == spec_boxed(spec_header_inner()),
            r.deep_view()[5] == spec_border("\u{255f}"@, '\u{2500}', "\u{2562}"@),
            forall|k: int|
                0 <= k < i ==> r.deep_view()[6 + k] == spec_boxed(spec_row(#[trigger] gpus@[k])),
        decreases n - i,
    {
        let rw = row(&gpus[i]);
        r.push(boxed(rw.as_str()));
        i = i + 1;
    }
    r.push(border("\u{255a}", "\u{2550}", "\u{255d}"));
    let t = totals(gpus);
    r.push(summary_line(&t));
    r.push(String::new());
    r
}

} // verus!
