use pretty_rocm_smi::collect::parse_concise_line;
use pretty_rocm_smi::collect::parse_concise;
use pretty_rocm_smi::collect::apply_vram;
use pretty_rocm_smi::collect::apply_names;
use pretty_rocm_smi::collect::apply_hw;
use pretty_rocm_smi::collect::collect;
use pretty_rocm_smi::collect::u64_from_text_or_number;
use pretty_rocm_smi::collect::parse_driver_version;
use pretty_rocm_smi::collect::parse_rocm_version;
use pretty_rocm_smi::snapshot::GpuSnapshot;

fn blank(id: u32) -> GpuSnapshot {
    GpuSnapshot {
        id,
        name: String::new(),
        gfx_ver: String::new(),
        temp_milli: 0,
        power_milli: 0,
        power_cap_milli: 0,
        gpu_pct_milli: 0,
        vram_total: 0,
        vram_used: 0,
    }
}

#[test]
fn concise_line_with_all_fields() {
    let line = "0 a b c 45.0c 120.0W d e f g h i j 300.0W k 95%";
    let g = parse_concise_line(line).unwrap();
    assert_eq!(g.id, 0);
    assert_eq!(g.temp_milli, 45000);
    assert_eq!(g.power_milli, 120000);
    assert_eq!(g.power_cap_milli, 300000);
    assert_eq!(g.gpu_pct_milli, 95000);
    assert_eq!(g.name, "");
    assert_eq!(g.vram_total, 0);
}

#[test]
fn concise_line_without_utilization_token() {
    // exactly 15 tokens: utilization defaults to 0
    let line = "1 a b c 40.0c 50.0W d e f g h i j 300.0W k";
    let g = parse_concise_line(line).unwrap();
    assert_eq!(g.id, 1);
    assert_eq!(g.gpu_pct_milli, 0);
}

#[test]
fn short_lines_yield_no_records() {
    assert!(parse_concise_line("0 a b c").is_none());
    assert!(parse_concise_line("").is_none());
    assert!(parse_concise_line("GPU temp power").is_none());
    let text = "0 a b\n1 c d\n";
    let gpus = parse_concise(text);
    assert_eq!(gpus.len(), 0);
}

#[test]
fn non_digit_lines_are_skipped() {
    let text = "========\nGPU Temp\n0 a b c 45.0c 120.0W d e f g h i j 300.0W k 95%\n";
    let gpus = parse_concise(text);
    assert_eq!(gpus.len(), 1);
    assert_eq!(gpus[0].id, 0);
}

#[test]
fn vram_from_string_and_number() {
    let mut gpus = vec![blank(0)];
    let json = "{\"card0\": {\"VRAM Total Memory (B)\": \"1073741824\", \
                 \"VRAM Total Used Memory (B)\": 536870912}}";
    apply_vram(&mut gpus, json);
    assert_eq!(gpus[0].vram_total, 1073741824);
    assert_eq!(gpus[0].vram_used, 536870912);
}

#[test]
fn vram_missing_key_leaves_default() {
    let mut gpus = vec![blank(0), blank(1)];
    let json = "{\"card1\": {\"VRAM Total Memory (B)\": 42}}";
    apply_vram(&mut gpus, json);
    assert_eq!(gpus[0].vram_total, 0);
    assert_eq!(gpus[1].vram_total, 42);
    assert_eq!(gpus[1].vram_used, 0);
}

#[test]
fn vram_unparseable_string_falls_back_to_zero() {
    let mut gpus = vec![blank(0)];
    let json = "{\"card0\": {\"VRAM Total Memory (B)\": \"12x\", \
                 \"VRAM Total Used Memory (B)\": \"-1\"}}";
    apply_vram(&mut gpus, json);
    assert_eq!(gpus[0].vram_total, 0);
    assert_eq!(gpus[0].vram_used, 0);
}

#[test]
fn byte_count_rule_prefers_parsed_text() {
    assert_eq!(u64_from_text_or_number(Some("123"), Some(9)), 123);
    assert_eq!(u64_from_text_or_number(Some("12x"), Some(9)), 9);
    assert_eq!(u64_from_text_or_number(Some("12x"), None), 0);
    assert_eq!(u64_from_text_or_number(None, Some(7)), 7);
    assert_eq!(u64_from_text_or_number(None, None), 0);
}

#[test]
fn vram_malformed_json_changes_nothing() {
    let mut gpus = vec![blank(0)];
    apply_vram(&mut gpus, "this is not json");
    assert_eq!(gpus[0].vram_total, 0);
    assert_eq!(gpus[0].vram_used, 0);
}

#[test]
fn names_by_positional_index() {
    let mut gpus = vec![blank(7), blank(9)];
    let text = "GPU[0]\t\t: Card Series:\t\tRadeon RX 7900 XTX\nGPU[1] : Card Series: Instinct MI300\n";
    apply_names(&mut gpus, text);
    assert_eq!(gpus[0].name, "Radeon RX 7900 XTX");
    assert_eq!(gpus[1].name, "Instinct MI300");
}

#[test]
fn names_out_of_range_ignored() {
    let mut gpus = vec![blank(0)];
    let text = "GPU[5] : Card Series: Phantom\n";
    apply_names(&mut gpus, text);
    assert_eq!(gpus[0].name, "");
}

#[test]
fn hw_listing_sets_architecture() {
    let mut gpus = vec![blank(0), blank(1)];
    let text = "0 x y z gfx90a a b c d e\n1 x y z gfx1100 a b c d e\n";
    apply_hw(&mut gpus, text);
    assert_eq!(gpus[0].gfx_ver, "gfx90a");
    assert_eq!(gpus[1].gfx_ver, "gfx1100");
}

#[test]
fn hw_short_lines_ignored() {
    let mut gpus = vec![blank(0)];
    let text = "0 x y z gfx90a\n";
    apply_hw(&mut gpus, text);
    assert_eq!(gpus[0].gfx_ver, "");
}

#[test]
fn collect_merges_all_stages() {
    let concise = "0 a b c 92.0c 300.0W d e f g h i j 320.0W k 95%\n\
                   1 a b c 40.0c 50.0W d e f g h i j 300.0W k 0%\n";
    let vram = "{\"card0\": {\"VRAM Total Memory (B)\": \"25769803776\", \
                \"VRAM Total Used Memory (B)\": \"21474836480\"}, \
                \"card1\": {\"VRAM Total Memory (B)\": 17179869184, \
                \"VRAM Total Used Memory (B)\": 1073741824}}";
    let prod = "GPU[0] : Card Series: Radeon VII\n";
    let hw = "0 x y z gfx906 a b c d e\n";
    let gpus = collect(concise, vram, prod, hw);
    assert_eq!(gpus.len(), 2);
    assert_eq!(gpus[0].id, 0);
    assert_eq!(gpus[0].temp_milli, 92000);
    assert_eq!(gpus[0].vram_total, 25769803776);
    assert_eq!(gpus[0].vram_used, 21474836480);
    assert_eq!(gpus[0].name, "Radeon VII");
    assert_eq!(gpus[0].gfx_ver, "gfx906");
    assert_eq!(gpus[1].id, 1);
    assert_eq!(gpus[1].vram_total, 17179869184);
    assert_eq!(gpus[1].name, "");
    assert_eq!(gpus[1].gfx_ver, "");
}

#[test]
fn collect_of_empty_outputs_is_empty() {
    let gpus = collect("", "", "", "");
    assert_eq!(gpus.len(), 0);
}

#[test]
fn driver_version_found() {
    let out = "some header\nDriver version: 6.3.2\ntrailing\n";
    assert_eq!(parse_driver_version(out), "6.3.2");
}

#[test]
fn driver_version_missing() {
    assert_eq!(parse_driver_version(""), "N/A");
    assert_eq!(parse_driver_version("no label here"), "N/A");
    // a label with nothing after it does not count
    assert_eq!(parse_driver_version("Driver version:   "), "N/A");
}

#[test]
fn rocm_version_prefix_before_dash() {
    assert_eq!(parse_rocm_version("5.7.1-123\n"), "5.7.1");
    assert_eq!(parse_rocm_version("  6.0.0  "), "6.0.0");
    assert_eq!(parse_rocm_version("rocm-5.7"), "N/A");
    assert_eq!(parse_rocm_version(""), "N/A");
}
