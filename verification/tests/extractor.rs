use pretty_rocm_smi::num::extract_number;
use pretty_rocm_smi::num::parse_u64;

#[test]
fn extract_plain_float_with_unit() {
    // "45.2C" -> 45.2, carried as 45200 milli-units
    assert_eq!(extract_number("45.2C"), 45200);
}

#[test]
fn extract_no_digits_is_zero() {
    assert_eq!(extract_number(""), 0);
    assert_eq!(extract_number("no numbers here"), 0);
    assert_eq!(extract_number("..."), 0);
}

#[test]
fn extract_watts() {
    assert_eq!(extract_number("120W"), 120000);
    assert_eq!(extract_number("  300.0W  "), 300000);
}

#[test]
fn extract_first_run_wins() {
    // the first run of digits and dots is "." and it does not parse
    assert_eq!(extract_number("a.b12"), 0);
    assert_eq!(extract_number("95% 45.0c"), 95000);
}

#[test]
fn extract_two_dots_is_zero() {
    assert_eq!(extract_number("1.2.3"), 0);
}

#[test]
fn extract_leading_dot_and_trailing_dot() {
    assert_eq!(extract_number(".5"), 500);
    assert_eq!(extract_number("45."), 45000);
}

#[test]
fn extract_truncates_extra_fraction_digits() {
    assert_eq!(extract_number("1.2345"), 1234);
}

#[test]
fn parse_u64_accepts_digits_only() {
    assert_eq!(parse_u64("0"), Some(0));
    assert_eq!(parse_u64("1073741824"), Some(1073741824));
    assert_eq!(parse_u64(""), None);
    assert_eq!(parse_u64("12a"), None);
    assert_eq!(parse_u64("-3"), None);
    assert_eq!(parse_u64("18446744073709551615"), Some(u64::MAX));
    assert_eq!(parse_u64("18446744073709551616"), None);
}
