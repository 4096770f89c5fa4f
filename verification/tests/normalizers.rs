use jisilu_funds::decimal::Dec;
use jisilu_funds::fund::UNLIMITED_LIMIT;
use jisilu_funds::parse::{parse_apply_status_limit, parse_percent};

#[test]
fn test_parse_percent() {
    assert_eq!(parse_percent("5.25%"), Some(Dec::new(525, 2)));
    assert_eq!(parse_percent("-5.25%"), Some(Dec::new(-525, 2)));
    assert_eq!(parse_percent("10%"), Some(Dec::new(10, 0)));
    assert_eq!(parse_percent("1,234.56%"), Some(Dec::new(123456, 2)));
    assert_eq!(parse_percent("invalid"), None);
}

#[test]
fn test_parse_apply_status_limit() {
    assert_eq!(parse_apply_status_limit("开放申购"), u64::MAX - 1);
    assert_eq!(parse_apply_status_limit("暂停申购"), u64::MAX - 1);
    assert_eq!(parse_apply_status_limit("限10"), 10);
    assert_eq!(parse_apply_status_limit("限100"), 100);
    assert_eq!(parse_apply_status_limit("限1000"), 1000);
    assert_eq!(parse_apply_status_limit("限1千"), 1000);
    assert_eq!(parse_apply_status_limit("限10万"), 100000);
    assert_eq!(parse_apply_status_limit("限100万"), 1000000);
}

#[test]
fn test_unlimited_sentinel_value() {
    assert_eq!(UNLIMITED_LIMIT, u64::MAX - 1);
}

#[test]
fn test_unrecognized_status_is_unlimited_never_zero() {
    assert_eq!(parse_apply_status_limit(""), UNLIMITED_LIMIT);
    assert_eq!(parse_apply_status_limit("限"), UNLIMITED_LIMIT);
    assert_eq!(parse_apply_status_limit("限abc"), UNLIMITED_LIMIT);
    assert_eq!(parse_apply_status_limit("限万"), UNLIMITED_LIMIT);
    assert_eq!(parse_apply_status_limit("something else"), UNLIMITED_LIMIT);
    assert_ne!(parse_apply_status_limit("限abc"), 0);
}

#[test]
fn test_status_limit_fractional_units() {
    assert_eq!(parse_apply_status_limit("限1.5万"), 15000);
    assert_eq!(parse_apply_status_limit("限2.5千"), 2500);
    assert_eq!(parse_apply_status_limit("限0"), 0);
}

#[test]
fn test_parse_percent_trims_and_strips() {
    assert_eq!(parse_percent("  7.5%  "), Some(Dec::new(75, 1)));
    assert_eq!(parse_percent("5 %"), Some(Dec::new(5, 0)));
    assert_eq!(parse_percent("-0.5%"), Some(Dec::new(-5, 1)));
    assert_eq!(parse_percent("+3%"), Some(Dec::new(3, 0)));
    assert_eq!(parse_percent(""), None);
    assert_eq!(parse_percent("%"), None);
    assert_eq!(parse_percent("N/A"), None);
    assert_eq!(parse_percent("5.2.5%"), None);
}
