use daft::clock::UtcTime;
use daft::territory::claim::{parse_ttl_string, Claim};

#[test]
fn test_territory_ttl_parsing() {
    assert_eq!(parse_ttl_string("30s"), Ok(30));
    assert_eq!(parse_ttl_string("5m"), Ok(300));
    assert_eq!(parse_ttl_string("2h"), Ok(7200));
    assert_eq!(parse_ttl_string("1d"), Ok(86400));
    assert!(parse_ttl_string("invalid").is_err());
}

#[test]
fn ttl_plain_seconds_and_upper_case_units() {
    assert_eq!(parse_ttl_string("90"), Ok(90));
    assert_eq!(parse_ttl_string("  2H  "), Ok(7200));
    assert_eq!(parse_ttl_string("3D"), Ok(259200));
}

#[test]
fn ttl_errors_carry_the_parse_message() {
    assert_eq!(parse_ttl_string("   "), Err("Empty TTL string".to_string()));
    assert_eq!(parse_ttl_string("s"), Err("cannot parse integer from empty string".to_string()));
    assert_eq!(parse_ttl_string("1x"), Err("invalid digit found in string".to_string()));
    assert_eq!(
        parse_ttl_string("99999999999999999999"),
        Err("number too large to fit in target type".to_string())
    );
}

#[test]
fn remaining_time_to_live() {
    let start = UtcTime { secs: 100, nanos: 0 };
    let c = Claim::new("src/".to_string(), "mainline".to_string(), None, Some(60), true, start, "0123456789abcdef");
    assert_eq!(c.remaining_ttl(UtcTime { secs: 130, nanos: 500_000_000 }), Some(29_500_000_000));
    assert_eq!(c.remaining_ttl(UtcTime { secs: 170, nanos: 0 }), Some(-10_000_000_000));
    let open = Claim::new("src/".to_string(), "mainline".to_string(), None, None, true, start, "0123456789abcdef");
    assert_eq!(open.remaining_ttl(start), None);
}
