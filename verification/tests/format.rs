use pretty_rocm_smi::text::vlen;
use pretty_rocm_smi::text::rpad;
use pretty_rocm_smi::text::lpad;
use pretty_rocm_smi::style::Tier;
use pretty_rocm_smi::style::temp_tier;
use pretty_rocm_smi::style::ratio_tier;
use pretty_rocm_smi::units::bytes_to_mib;
use pretty_rocm_smi::units::gib_tenths;
use pretty_rocm_smi::units::gib_whole;
use pretty_rocm_smi::units::milli_round;

#[test]
fn vlen_of_escapes_only_is_zero() {
    assert_eq!(vlen("\u{1b}[0m"), 0);
    assert_eq!(vlen("\u{1b}[1m\u{1b}[96m\u{1b}[0m"), 0);
    assert_eq!(vlen("\u{1b}[91;1m"), 0);
}

#[test]
fn vlen_of_plain_text_is_char_count() {
    assert_eq!(vlen(""), 0);
    assert_eq!(vlen("hello"), 5);
    assert_eq!(vlen("92\u{b0}C"), 4);
}

#[test]
fn vlen_ignores_embedded_escapes() {
    assert_eq!(vlen("\u{1b}[91m92\u{b0}C\u{1b}[0m"), 4);
    // an unterminated introducer is counted as ordinary characters
    assert_eq!(vlen("\u{1b}[91"), 4);
}

#[test]
fn rpad_plain() {
    assert_eq!(rpad("ab", 5), "ab   ");
    assert_eq!(rpad("ab", 5).len(), 5);
}

#[test]
fn rpad_never_truncates() {
    let wide = "\u{1b}[91mmuch too wide for the width\u{1b}[0m";
    assert_eq!(rpad(wide, 5), wide);
}

#[test]
fn lpad_plain_and_colored() {
    assert_eq!(lpad("7", 3), "  7");
    // padding counts only visible characters
    assert_eq!(lpad("\u{1b}[97m7\u{1b}[0m", 3), "  \u{1b}[97m7\u{1b}[0m");
}

#[test]
fn temp_tier_boundaries() {
    assert_eq!(temp_tier(90000), Tier::Critical);
    assert_eq!(temp_tier(89999), Tier::Warning);
    assert_eq!(temp_tier(75000), Tier::Warning);
    assert_eq!(temp_tier(74999), Tier::Nominal);
    assert_eq!(temp_tier(50000), Tier::Nominal);
    assert_eq!(temp_tier(49999), Tier::Idle);
    assert_eq!(temp_tier(0), Tier::Idle);
}

#[test]
fn ratio_tier_boundaries() {
    // ratio exactly 0 is idle; so is a zero capacity
    assert_eq!(ratio_tier(0, 100), Tier::Idle);
    assert_eq!(ratio_tier(5, 0), Tier::Idle);
    // any positive ratio below 0.7 is nominal
    assert_eq!(ratio_tier(1, 100), Tier::Nominal);
    assert_eq!(ratio_tier(69, 100), Tier::Nominal);
    // 0.7 and 0.9 exactly
    assert_eq!(ratio_tier(70, 100), Tier::Warning);
    assert_eq!(ratio_tier(89, 100), Tier::Warning);
    assert_eq!(ratio_tier(90, 100), Tier::Critical);
    assert_eq!(ratio_tier(120, 100), Tier::Critical);
}

#[test]
fn unit_conversions() {
    assert_eq!(bytes_to_mib(1073741824), 1024);
    assert_eq!(bytes_to_mib(536870912), 512);
    assert_eq!(bytes_to_mib(1048575), 0);
    assert_eq!(gib_tenths(1073741824), 10);
    assert_eq!(gib_tenths(21 * 1073741824), 210);
    assert_eq!(gib_whole(40 * 1073741824), 40);
    assert_eq!(milli_round(66000), 66);
    assert_eq!(milli_round(66499), 66);
    assert_eq!(milli_round(66500), 67);
}
