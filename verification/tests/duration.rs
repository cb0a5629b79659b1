use punch::duration::{accumulate, elapsed, PrettyDuration};
use punch::text::{decimal_string, same_text};

fn parts(seconds: u64) -> (u64, u64, u64, u64) {
    let d = PrettyDuration::new(seconds);
    (d.days, d.hours, d.minutes, d.seconds)
}

#[test]
fn decompose_one_of_each() {
    assert_eq!(parts(90061), (1, 1, 1, 1));
}

#[test]
fn decompose_below_a_minute() {
    assert_eq!(parts(59), (0, 0, 0, 59));
    assert_eq!(parts(0), (0, 0, 0, 0));
}

#[test]
fn decompose_one_hour() {
    assert_eq!(parts(3600), (0, 1, 0, 0));
}

#[test]
fn decompose_at_the_thresholds() {
    assert_eq!(parts(60), (0, 0, 1, 0));
    assert_eq!(parts(61), (0, 0, 1, 1));
    assert_eq!(parts(3599), (0, 0, 59, 59));
    assert_eq!(parts(86399), (0, 23, 59, 59));
    assert_eq!(parts(86400), (1, 0, 0, 0));
    assert_eq!(parts(172799), (1, 23, 59, 59));
}

#[test]
fn decompose_days_do_not_wrap() {
    assert_eq!(parts(400 * 86400 + 5), (400, 0, 0, 5));
    assert_eq!(parts(u64::MAX), (213503982334601, 7, 0, 15));
}

#[test]
fn decompose_adds_up_again() {
    for seconds in [0u64, 1, 59, 60, 3599, 3600, 86399, 86400, 90061, 1_000_000_007, u64::MAX] {
        let d = PrettyDuration::new(seconds);
        assert!(d.hours < 24 && d.minutes < 60 && d.seconds < 60);
        let total = d.days as u128 * 86400
            + d.hours as u128 * 3600
            + d.minutes as u128 * 60
            + d.seconds as u128;
        assert_eq!(total, seconds as u128);
    }
}

#[test]
fn duration_in_words() {
    assert_eq!(
        PrettyDuration::new(90061).to_text(),
        "1 days, 1 hours, 1 minutes, 1 seconds"
    );
    assert_eq!(PrettyDuration::new(0).to_text(), "0 days, 0 hours, 0 minutes, 0 seconds");
    let d = PrettyDuration { days: 12, hours: 23, minutes: 5, seconds: 40 };
    assert_eq!(d.to_text(), "12 days, 23 hours, 5 minutes, 40 seconds");
}

#[test]
fn elapsed_is_the_difference() {
    assert_eq!(elapsed(100, 225), 125);
    assert_eq!(elapsed(-50, 50), 100);
    assert_eq!(elapsed(7, 7), 0);
    assert_eq!(elapsed(i64::MIN, i64::MAX), u64::MAX);
}

#[test]
fn elapsed_is_never_negative() {
    assert_eq!(elapsed(225, 100), 0);
    assert_eq!(elapsed(i64::MAX, i64::MIN), 0);
}

#[test]
fn accumulate_adds_and_saturates() {
    assert_eq!(accumulate(125, 40), 165);
    assert_eq!(accumulate(0, 0), 0);
    assert_eq!(accumulate(u64::MAX - 1, 1), u64::MAX);
    assert_eq!(accumulate(u64::MAX - 1, 2), u64::MAX);
    assert_eq!(accumulate(u64::MAX, u64::MAX), u64::MAX);
}

#[test]
fn decimal_notation() {
    assert_eq!(decimal_string(0), "0");
    assert_eq!(decimal_string(7), "7");
    assert_eq!(decimal_string(10), "10");
    assert_eq!(decimal_string(1234567890), "1234567890");
    assert_eq!(decimal_string(u64::MAX), u64::MAX.to_string());
    for n in [9u64, 99, 100, 101, 909, 86400, 1_000_000] {
        assert_eq!(decimal_string(n), n.to_string());
    }
}

#[test]
fn same_text_compares_characters() {
    assert!(same_text("in", "in"));
    assert!(!same_text("in", "out"));
    assert!(!same_text("in", "In"));
    assert!(same_text("", ""));
}
