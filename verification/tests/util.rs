use rsquake::util::{ignore, Duration};

#[test]
fn util_test_from_nanos() {
    // 120 seconds
    let nanos: u64 = 1_000_000_000 * 120;
    let duration = Duration::from_nanos(nanos);
    assert_eq!(duration.as_secs(), 120);
    assert_eq!(duration.subsec_nanos(), 0);
}

#[test]
fn util_test_from_nanos_2() {
    let nanos: u64 = 3_000_000_000 + 64;
    let duration = Duration::from_nanos(nanos);

    assert_eq!(duration.as_secs(), 3);
    assert_eq!(duration.subsec_nanos(), 64);
}

#[test]
fn mod_test_from_nanos() {
    // 120 seconds
    let nanos: u64 = 1_000_000_000 * 120;
    let duration = Duration::from_nanos(nanos);
    assert_eq!(duration.as_secs(), 120);
    assert_eq!(duration.subsec_nanos(), 0);
}

#[test]
fn mod_test_from_nanos_2() {
    let nanos: u64 = 3_000_000_000 + 64;
    let duration = Duration::from_nanos(nanos);

    assert_eq!(duration.as_secs(), 3);
    assert_eq!(duration.subsec_nanos(), 64);
}

#[test]
fn one_second_of_nanos_carries_over() {
    let duration = Duration::from_nanos(1_000_000_000);
    assert_eq!(duration.as_secs(), 1);
    assert_eq!(duration.subsec_nanos(), 0);
}

#[test]
fn ignore_swallows_any_value() {
    ignore(42);
    ignore(Err::<(), &str>("probe failed"));
}
