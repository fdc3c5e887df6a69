//! Severity tiers and the ANSI style tokens they map to.

use vstd::prelude::*;
use vstd::string::StringExecFns;

verus! {

/// One of four ordered severity bands.  For temperatures the lowest band
/// means "cool"; for usage ratios it means "idle or unknown".
#[derive(PartialEq, Eq, Structural, Clone, Copy, Debug)]
pub enum Tier {
    Critical,
    Warning,
    Nominal,
    Idle,
}

/// Temperature severity, from a temperature in milli-degrees Celsius:
/// at least 90 °C critical, at least 75 °C warning, at least 50 °C nominal,
/// cooler is the lowest band.
pub open spec fn spec_temp_tier(m: int) -> Tier {
    if m >= 90000 {
        Tier::Critical
    } else if m >= 75000 {
        Tier::Warning
    } else if m >= 50000 {
        Tier::Nominal
    } else {
        Tier::Idle
    }
}

pub fn temp_tier(m: u64) -> (r: Tier)
    ensures
        r == spec_temp_tier(m as int),
{
    if m >= 90000 {
        Tier::Critical
    } else if m >= 75000 {
        Tier::Warning
    } else if m >= 50000 {
        Tier::Nominal
    } else {
        Tier::Idle
    }
}

/// Usage-ratio severity for the exact rational `num / den`: at least 0.9
/// critical, at least 0.7 warning, positive nominal, zero (or no capacity)
/// idle.
pub open spec fn spec_ratio_tier(num: int, den: int) -> Tier {
    if den > 0 && 10 * num >= 9 * den {
        Tier::Critical
    } else if den > 0 && 10 * num >= 7 * den {
        Tier::Warning
    } else if den > 0 && num > 0 {
        Tier::Nominal
    } else {
        Tier::Idle
    }
}

pub fn ratio_tier(num: u64, den: u64) -> (r: Tier)
    ensures
        r == spec_ratio_tier(num as int, den as int),
{
    let n10: u128 = (num as u128) * 10;
    if den > 0 && n10 >= (den as u128) * 9 {
        Tier::Critical
    } else if den > 0 && n10 >= (den as u128) * 7 {
        Tier::Warning
    } else if den > 0 && num > 0 {
        Tier::Nominal
    } else {
        Tier::Idle
    }
}

/// Zero ratio (or zero capacity) is idle, and a positive ratio below 0.7 is
/// nominal, whatever the magnitudes.
pub proof fn lemma_ratio_tier_bands(num: int, den: int)
    requires
        num >= 0,
        den >= 0,
    ensures
        num == 0 || den == 0 ==> spec_ratio_tier(num, den) == Tier::Idle,
        den > 0 && 0 < 10 * num < 7 * den ==> spec_ratio_tier(num, den) == Tier::Nominal,
{
}

// ── style tokens ────────────────────────────────────────────────────────────

pub fn style_reset() -> (r: String)
    ensures
        r@ == "\u{1b}[0m"@,
{
    String::from_str("\u{1b}[0m")
}

pub fn style_bold() -> (r: String)
    ensures
        r@ == "\u{1b}[1m"@,
{
    String::from_str("\u{1b}[1m")
}

pub fn style_dim() -> (r: String)
    ensures
        r@ == "\u{1b}[2m"@,
{
    String::from_str("\u{1b}[2m")
}

pub fn style_red() -> (r: String)
    ensures
        r@ == "\u{1b}[91m"@,
{
    String::from_str("\u{1b}[91m")
}

pub fn style_green() -> (r: String)
    ensures
        r@ == "\u{1b}[92m"@,
{
    String::from_str("\u{1b}[92m")
}

pub fn style_yellow() -> (r: String)
    ensures
        r@ == "\u{1b}[93m"@,
{
    String::from_str("\u{1b}[93m")
}

pub fn style_cyan() -> (r: String)
    ensures
        r@ == "\u{1b}[96m"@,
{
    String::from_str("\u{1b}[96m")
}

pub fn style_white() -> (r: String)
    ensures
        r@ == "\u{1b}[97m"@,
{
    String::from_str("\u{1b}[97m")
}

/// The style token of a temperature band: red, yellow, white, or green for
/// cool.
pub open spec fn spec_temp_color(t: Tier) -> Seq<char> {
    match t {
        Tier::Critical => "\u{1b}[91m"@,
        Tier::Warning => "\u{1b}[93m"@,
        Tier::Nominal => "\u{1b}[97m"@,
        Tier::Idle => "\u{1b}[92m"@,
    }
}

pub fn temp_color(t: Tier) -> (r: String)
    ensures
        r@ == spec_temp_color(t),
{
    match t {
        Tier::Critical => style_red(),
        Tier::Warning => style_yellow(),
        Tier::Nominal => style_white(),
        Tier::Idle => style_green(),
    }
}

/// The style token of a usage-ratio band: red, yellow, green, or dim for
/// idle.
pub open spec fn spec_ratio_color(t: Tier) -> Seq<char> {
    match t {
        Tier::Critical => "\u{1b}[91m"@,
        Tier::Warning => "\u{1b}[93m"@,
        Tier::Nominal => "\u{1b}[92m"@,
        Tier::Idle => "\u{1b}[2m"@,
    }
}

pub fn ratio_color(t: Tier) -> (r: String)
    ensures
        r@ == spec_ratio_color(t),
{
    match t {
        Tier::Critical => style_red(),
        Tier::Warning => style_yellow(),
        Tier::Nominal => style_green(),
        Tier::Idle => style_dim(),
    }
}

} // verus!
