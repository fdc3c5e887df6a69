use pretty_rocm_smi::snapshot::GpuSnapshot;
use pretty_rocm_smi::snapshot::totals;
use pretty_rocm_smi::render::row;
use pretty_rocm_smi::render::summary_line;
use pretty_rocm_smi::render::render_report;
use pretty_rocm_smi::text::vlen;

const GIB: u64 = 1073741824;

fn device(
    id: u32,
    temp_milli: u64,
    power_milli: u64,
    cap_milli: u64,
    used_gib: u64,
    total_gib: u64,
    pct_milli: u64,
) -> GpuSnapshot {
    GpuSnapshot {
        id,
        name: String::from("Radeon VII"),
        gfx_ver: String::from("gfx906"),
        temp_milli,
        power_milli,
        power_cap_milli: cap_milli,
        gpu_pct_milli: pct_milli,
        vram_total: total_gib * GIB,
        vram_used: used_gib * GIB,
    }
}

fn two_devices() -> Vec<GpuSnapshot> {
    vec![
        device(0, 92000, 300000, 320000, 20, 24, 95000),
        device(1, 40000, 50000, 300000, 1, 16, 0),
    ]
}

#[test]
fn summary_of_two_devices() {
    let gpus = two_devices();
    let t = totals(&gpus);
    assert_eq!(t.count, 2);
    assert_eq!(t.vram_used, 21 * GIB);
    assert_eq!(t.vram_total, 40 * GIB);
    assert_eq!(t.power_milli, 350000);
    assert_eq!(t.power_cap_milli, 620000);
    assert_eq!(t.avg_temp_milli, 66000);
    let line = summary_line(&t);
    assert!(line.contains("2"));
    assert!(line.contains("21.0/40 GiB"));
    assert!(line.contains("350W"));
    assert!(line.contains("620W"));
    assert!(line.contains("66\u{b0}C"));
}

#[test]
fn summary_of_no_devices() {
    let gpus: Vec<GpuSnapshot> = Vec::new();
    let t = totals(&gpus);
    assert_eq!(t.count, 0);
    assert_eq!(t.avg_temp_milli, 0);
    let line = summary_line(&t);
    assert!(line.contains("0"));
    assert!(line.contains("0.0/0 GiB"));
}

#[test]
fn row_contents() {
    let gpus = two_devices();
    let r0 = row(&gpus[0]);
    assert!(r0.contains("92\u{b0}C"));
    assert!(r0.contains("300W"));
    assert!(r0.contains("/ 320W"));
    assert!(r0.contains("20.0GiB"));
    assert!(r0.contains("/ 24GiB"));
    assert!(r0.contains("95%"));
    // utilization at or above 90% is bolded
    assert!(r0.contains("\u{1b}[1m95%"));
    let r1 = row(&gpus[1]);
    assert!(r1.contains("40\u{b0}C"));
    assert!(r1.contains("0%"));
    // sub-GiB usage is shown in MiB
    let small = device(2, 30000, 10000, 100000, 0, 16, 0);
    let r2 = row(&small);
    assert!(r2.contains("0MiB"));
}

#[test]
fn report_shape_and_alignment() {
    let gpus = two_devices();
    let lines = render_report(&gpus, "6.3.2", "5.7.1", "Mon Jan 01 00:00:00 2026");
    assert_eq!(lines.len(), 11);
    // every framed line is exactly 81 visible columns wide
    for k in 0..8 {
        assert_eq!(vlen(&lines[k]), 81, "line {} misaligned", k);
    }
    assert!(lines[1].contains("pretty-rocm-smi"));
    assert!(lines[1].contains("Mon Jan 01 00:00:00 2026"));
    assert!(lines[2].contains("Radeon VII"));
    assert!(lines[2].contains("(gfx906)"));
    assert!(lines[2].contains("Driver: "));
    assert!(lines[2].contains("6.3.2"));
    assert!(lines[2].contains("ROCm: "));
    assert!(lines[2].contains("5.7.1"));
    assert!(lines[4].contains("GPU   Temp"));
    assert!(lines[6].contains("92\u{b0}C"));
    assert!(lines[7].contains("40\u{b0}C"));
    assert_eq!(lines[10], "");
}

#[test]
fn oversized_timestamp_is_not_truncated() {
    let gpus: Vec<GpuSnapshot> = Vec::new();
    let ts = "x".repeat(100);
    let lines = render_report(&gpus, "N/A", "N/A", &ts);
    assert!(lines[1].contains(ts.as_str()));
}

#[test]
fn report_without_devices_uses_fallback_name() {
    let gpus: Vec<GpuSnapshot> = Vec::new();
    let lines = render_report(&gpus, "N/A", "N/A", "ts");
    assert_eq!(lines.len(), 9);
    assert!(lines[2].contains("AMD GPU"));
}
