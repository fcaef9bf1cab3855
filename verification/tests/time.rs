use chrono::DateTime;
use swec::time::Timestamp;

#[test]
fn total_nanos_is_seconds_times_a_billion_plus_nanos() {
    assert_eq!(Timestamp::new(0, 0).total_nanos(), 0);
    assert_eq!(Timestamp::new(2, 5).total_nanos(), 2_000_000_005);
    assert_eq!(Timestamp::new(-1, 1).total_nanos(), -999_999_999);
    assert_eq!(
        Timestamp::new(i64::MAX, u32::MAX).total_nanos(),
        9_223_372_036_854_775_807_i128 * 1_000_000_000 + 4_294_967_295
    );
    assert_eq!(
        Timestamp::new(i64::MIN, 0).total_nanos(),
        -9_223_372_036_854_775_808_i128 * 1_000_000_000
    );
}

#[test]
fn distance_is_the_absolute_difference() {
    let a = Timestamp::new(10, 250);
    let b = Timestamp::new(7, 750);
    assert_eq!(a.distance(b), 2_999_999_500);
    assert_eq!(b.distance(a), 2_999_999_500);
    assert_eq!(a.distance(a), 0);
    assert_eq!(
        Timestamp::new(i64::MIN, 0).distance(Timestamp::new(i64::MAX, u32::MAX)),
        18_446_744_073_709_551_615_u128 * 1_000_000_000 + 4_294_967_295
    );
}

#[test]
fn distance_agrees_with_chrono() {
    let samples = [
        (0_i64, 0_u32),
        (4, 0),
        (10, 0),
        (10, 999_999_999),
        (-3, 500_000_000),
        (1_700_000_000, 123_456_789),
        (-62_000_000_000, 1),
    ];
    for (s1, n1) in samples {
        for (s2, n2) in samples {
            let d1 = DateTime::from_timestamp(s1, n1).unwrap();
            let d2 = DateTime::from_timestamp(s2, n2).unwrap();
            let delta = (d1 - d2).abs();
            let expected =
                delta.num_seconds() as u128 * 1_000_000_000 + delta.subsec_nanos() as u128;
            assert_eq!(Timestamp::new(s1, n1).distance(Timestamp::new(s2, n2)), expected);
        }
    }
}

#[test]
fn normalized_carries_whole_seconds() {
    let normalized = |secs: i64, nanos: u32| {
        Timestamp::new(secs, nanos).normalized().map(|t| (t.secs, t.nanos))
    };
    assert_eq!(normalized(5, 7), Some((5, 7)));
    assert_eq!(normalized(5, 999_999_999), Some((5, 999_999_999)));
    assert_eq!(normalized(5, 1_000_000_000), Some((6, 0)));
    assert_eq!(normalized(-1, 4_294_967_295), Some((3, 294_967_295)));
    assert_eq!(normalized(i64::MAX, 999_999_999), Some((i64::MAX, 999_999_999)));
    assert_eq!(normalized(i64::MAX, 1_000_000_000), None);
    assert_eq!(normalized(i64::MAX - 4, u32::MAX), Some((i64::MAX, 294_967_295)));
    assert_eq!(normalized(i64::MAX - 3, u32::MAX), None);
}
