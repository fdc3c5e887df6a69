//! The per-device telemetry record and whole-set totals.

use vstd::prelude::*;

verus! {

/// One GPU's collected telemetry for a single run.  Fractional quantities
/// are carried in milli-units (thousandths of a degree, of a watt, of a
/// percent); memory sizes in bytes.
#[derive(Debug)]
pub struct GpuSnapshot {
    pub id: u32,
    pub name: String,
    pub gfx_ver: String,
    pub temp_milli: u64,
    pub power_milli: u64,
    pub power_cap_milli: u64,
    pub gpu_pct_milli: u64,
    pub vram_total: u64,
    pub vram_used: u64,
}

/// Aggregates over a snapshot set, for the summary line.  Sums saturate at
/// `u64::MAX` instead of wrapping.
#[derive(Debug)]
pub struct Totals {
    pub count: usize,
    pub vram_used: u64,
    pub vram_total: u64,
    pub power_milli: u64,
    pub power_cap_milli: u64,
    pub avg_temp_milli: u64,
}

pub open spec fn sat_add(a: int, b: int) -> int {
    if a + b > u64::MAX {
        u64::MAX as int
    } else {
        a + b
    }
}

/// Saturating sum of a per-record quantity over a snapshot sequence.
pub open spec fn sum_sat(s: Seq<GpuSnapshot>, f: spec_fn(GpuSnapshot) -> int) -> int
    decreases s.len(),
{
    if s.len() == 0 {
        0
    } else {
        sat_add(sum_sat(s.drop_last(), f), f(s.last()))
    }
}

fn add_sat(a: u64, b: u64) -> (r: u64)
    ensures
        r == sat_add(a as int, b as int),
{
    if a > u64::MAX - b {
        u64::MAX
    } else {
        a + b
    }
}

/// Aggregate a snapshot set: device count, summed VRAM and power figures,
/// and the mean temperature (0 with no devices; the division truncates).
#[verifier::loop_isolation(false)]
pub fn totals(gpus: &Vec<GpuSnapshot>) -> (t: Totals)
    ensures
        t.count == gpus@.len(),
        t.vram_used == sum_sat(gpus@, (|g: GpuSnapshot| g.vram_used as int)),
        t.vram_total == sum_sat(gpus@, (|g: GpuSnapshot| g.vram_total as int)),
        t.power_milli == sum_sat(gpus@, (|g: GpuSnapshot| g.power_milli as int)),
        t.power_cap_milli == sum_sat(gpus@, (|g: GpuSnapshot| g.power_cap_milli as int)),
        gpus@.len() == 0 ==> t.avg_temp_milli == 0,
        gpus@.len() > 0 ==> t.avg_temp_milli == sum_sat(
            gpus@,
            (|g: GpuSnapshot| g.temp_milli as int),
        ) / gpus@.len() as int,
{
    let ghost fu = (|g: GpuSnapshot| g.vram_used as int);
    let ghost ft = (|g: GpuSnapshot| g.vram_total as int);
    let ghost fp = (|g: GpuSnapshot| g.power_milli as int);
    let ghost fc = (|g: GpuSnapshot| g.power_cap_milli as int);
    let ghost fm = (|g: GpuSnapshot| g.temp_milli as int);
    let n = gpus.len();
    let mut used: u64 = 0;
    let mut total: u64 = 0;
    let mut power: u64 = 0;
    let mut cap: u64 = 0;
    let mut temp: u64 = 0;
    let mut i: usize = 0;
    while i < n
        invariant
            n == gpus@.len(),
            i <= n,
            used == sum_sat(gpus@.take(i as int), fu),
            total == sum_sat(gpus@.take(i as int), ft),
            power == sum_sat(gpus@.take(i as int), fp),
            cap == sum_sat(gpus@.take(i as int), fc),
            temp == sum_sat(gpus@.take(i as int), fm),
        decreases n - i,
    {
        proof {
            assert(gpus@.take(i as int + 1).drop_last() =~= gpus@.take(i as int));
            assert(gpus@.take(i as int + 1).last() == gpus@[i as int]);
            assert(fu(gpus@[i as int]) == gpus@[i as int].vram_used as int);
            assert(ft(gpus@[i as int]) == gpus@[i as int].vram_total as int);
            assert(fp(gpus@[i as int]) == gpus@[i as int].power_milli as int);
            assert(fc(gpus@[i as int]) == gpus@[i as int].power_cap_milli as int);
            assert(fm(gpus@[i as int]) == gpus@[i as int].temp_milli as int);
        }
        used = add_sat(used, gpus[i].vram_used);
        total = add_sat(total, gpus[i].vram_total);
        power = add_sat(power, gpus[i].power_milli);
        cap = add_sat(cap, gpus[i].power_cap_milli);
        temp = add_sat(temp, gpus[i].temp_milli);
        i = i + 1;
    }
    proof {
        assert(gpus@.take(n as int) =~= gpus@);
    }
    let avg: u64 = if n > 0 {
        temp / (n as u64)
    } else {
        0
    };
    Totals {
        count: n,
        vram_used: used,
        vram_total: total,
        power_milli: power,
        power_cap_milli: cap,
        avg_temp_milli: avg,
    }
}

} // verus!
