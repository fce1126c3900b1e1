use rove::duration::parse_duration_handwritten;
use rove::time::RelDuration;

fn dhms_seconds(days: i64, hours: i64, minutes: i64, seconds: i64) -> i64 {
    ((days * 24 + hours) * 60 + minutes) * 60 + seconds
}

#[test]
fn test_parse_duration() {
    [
        ("P1YT1S", RelDuration { months: 12, seconds: 1 }),
        (
            "P2Y2M2DT2H2M2S",
            RelDuration { months: 2 * 12 + 2, seconds: dhms_seconds(2, 2, 2, 2) },
        ),
        ("P1M", RelDuration { months: 1, seconds: 0 }),
        ("PT10M", RelDuration::minutes(10)),
    ]
    .into_iter()
    .for_each(|(input, expected)| assert_eq!(parse_duration_handwritten(input).unwrap(), expected))
}

#[test]
fn test_parse_duration_rejects_malformed_input() {
    assert!(parse_duration_handwritten("").is_err());
    assert!(parse_duration_handwritten("T1S").is_err());
    assert!(parse_duration_handwritten("P2M1Y").is_err());
    assert!(parse_duration_handwritten("PxY").is_err());
    assert!(parse_duration_handwritten("P1Y2X").is_err());
    assert!(parse_duration_handwritten("P99999999999Y").is_err());
}

#[test]
fn test_parse_duration_accepts_bare_and_signed_components() {
    assert_eq!(parse_duration_handwritten("P").unwrap(), RelDuration { months: 0, seconds: 0 });
    assert_eq!(
        parse_duration_handwritten("P-1M").unwrap(),
        RelDuration { months: -1, seconds: 0 }
    );
    assert_eq!(
        parse_duration_handwritten("PT1H30M").unwrap(),
        RelDuration { months: 0, seconds: 5400 }
    );
}
