use coredns_rust::duration::{parse_duration, show_duration, MAX_MILLIS};
use std::time::Duration;

#[test]
fn units() {
    assert_eq!(parse_duration("500ms", false), Some(500));
    assert_eq!(parse_duration("1s", false), Some(1_000));
    assert_eq!(parse_duration("2m", false), Some(120_000));
    assert_eq!(parse_duration("1h", true), Some(3_600_000));
    assert_eq!(parse_duration(" 5m\n", true), Some(300_000));
    assert_eq!(parse_duration("+3s", true), Some(3_000));
    assert_eq!(parse_duration("0s", true), Some(0));
}

#[test]
fn unreadable_durations() {
    for s in ["", "5", "s", "ms", "0.5s", "-1s", "1 s", "1d", "five"] {
        assert_eq!(parse_duration(s, true), None);
    }
    assert_eq!(parse_duration("1h", false), None);
}

#[test]
fn minutes_and_hours_wrap_around() {
    let n = u64::MAX;
    assert_eq!(
        parse_duration("18446744073709551615m", true),
        Some(n.wrapping_mul(60) as u128 * 1_000)
    );
    assert_eq!(
        parse_duration("18446744073709551615h", true),
        Some(n.wrapping_mul(3600) as u128 * 1_000)
    );
    assert_eq!(parse_duration("18446744073709551615s", true), Some(n as u128 * 1_000));
}

#[test]
fn words_agree_with_debug_of_duration() {
    for ms in [
        0u64, 1, 10, 99, 100, 500, 999, 1_000, 1_001, 1_010, 1_100, 1_500, 30_000, 59_999, 300_000,
        86_400_000, 123_456_789, u64::MAX,
    ] {
        assert_eq!(show_duration(ms as u128), format!("{:?}", Duration::from_millis(ms)));
    }
    assert_eq!(
        show_duration(MAX_MILLIS),
        format!("{:?}", Duration::new(u64::MAX, 999_000_000))
    );
}
