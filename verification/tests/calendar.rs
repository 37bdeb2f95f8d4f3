use things::calendar::{day_timestamp, parse_day, parse_instant};

#[test]
fn an_instant_flag_reads_rfc3339_or_a_local_midnight() {
    let (secs, nanos) = parse_instant("2024-03-10T12:30:00.250Z", "--created-on").expect("rfc3339");
    assert_eq!(secs, 1_710_073_800);
    assert_eq!(nanos, 250_000_000);

    let utc_midnight = day_timestamp(parse_day("2024-03-10", "--created-on").expect("day"));
    let (secs, nanos) = parse_instant("2024-03-10", "--created-on").expect("local midnight");
    assert_eq!(nanos, 0);
    assert!((secs - utc_midnight).abs() < 86_400);

    assert_eq!(
        parse_instant("soon", "--created-on").err().expect("refused"),
        "Invalid --created-on: soon (expected RFC 3339 or YYYY-MM-DD)"
    );
}
