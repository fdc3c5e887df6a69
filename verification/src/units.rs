//! Byte and milli-unit conversions used by the renderer.
//!
//! GiB values are displayed in decimal with one fractional digit, so they
//! are carried as tenths of a GiB; milli-unit quantities round to the
//! nearest whole unit for display.

use vstd::prelude::*;
use vstd::string::StringExecFns;
use crate::num::dec_str;
use crate::num::to_dec;

verus! {

/// Bytes to whole MiB, truncating.
pub fn bytes_to_mib(b: u64) -> (r: u64)
    ensures
        r == b as int / 1048576,
{
    b / 1048576
}

/// Bytes to tenths of a GiB, rounded to the nearest tenth.
pub fn gib_tenths(b: u64) -> (r: u128)
    ensures
        r == (b as int * 10 + 536870912) / 1073741824,
{
    ((b as u128) * 10 + 536870912) / 1073741824
}

/// Bytes to whole GiB, rounded to the nearest.
pub fn gib_whole(b: u64) -> (r: u128)
    ensures
        r == (b as int + 536870912) / 1073741824,
{
    ((b as u128) + 536870912) / 1073741824
}

/// Milli-units to whole units, rounded to the nearest.
pub fn milli_round(m: u64) -> (r: u64)
    ensures
        r == (m as int + 500) / 1000,
{
    (((m as u128) + 500) / 1000) as u64
}

/// The decimal text of a tenths count shown as "<whole>.<tenth>".
pub open spec fn tenths_str(t: int) -> Seq<char> {
    dec_str(t / 10) + seq!['.'] + dec_str(t % 10)
}

/// Render tenths of a unit as "<whole>.<tenth>".
pub fn fmt_tenths(t: u128) -> (r: String)
    ensures
        r@ == tenths_str(t as int),
{
    let mut r = to_dec(t / 10);
    let dot = dot_string();
    r.append(dot.as_str());
    let frac = to_dec(t % 10);
    r.append(frac.as_str());
    proof {
        assert(dec_str((t % 10) as int) == dec_str(t as int % 10));
        assert(r@ =~= tenths_str(t as int));
    }
    r
}

fn dot_string() -> (r: String)
    ensures
        r@ == seq!['.'],
{
    let r = String::from_str(".");
    proof {
        reveal_strlit(".");
        assert(r@ =~= seq!['.']);
    }
    r
}

} // verus!
