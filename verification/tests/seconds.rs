use marchiver::seconds::{
    beyond_tolerance, is_non_negative, same_seconds, within_tolerance, Seconds,
};

fn seconds(value: f64) -> Seconds {
    Seconds {
        bits: value.to_bits(),
        text: format!("{value:?}"),
    }
}

fn values() -> Vec<f64> {
    let mut values = vec![
        0.0,
        -0.0,
        f64::MIN_POSITIVE,
        -f64::MIN_POSITIVE,
        f64::from_bits(1),
        f64::from_bits(2),
        f64::from_bits(3),
        f64::from_bits(0x000f_ffff_ffff_ffff),
        f64::MAX,
        f64::MIN,
        f64::INFINITY,
        f64::NEG_INFINITY,
        f64::NAN,
        -f64::NAN,
        0.1,
        0.2,
        0.3,
        0.30000000000000004,
        0.5,
        1.0,
        1.0000000000000002,
        0.9999999999999999,
        1.5,
        2.0,
        -1.0,
        -0.5,
        3.0,
        1e16,
        9007199254740992.0,
        9007199254740993.0,
        9007199254740994.0,
        1e300,
        1e-300,
        123.456,
        123.956,
        122.956,
    ];
    let mut state = 0x1234_5678_9abc_def0_u64;
    for _ in 0..24 {
        state ^= state << 13;
        state ^= state >> 7;
        state ^= state << 17;
        values.push(f64::from_bits(state));
        values.push((state % 100_000) as f64 / 1000.0);
    }
    values
}

#[test]
fn tolerances_compare_as_floating_point_numbers_do() {
    let values = values();
    for a in &values {
        for b in &values {
            for tolerance in &values {
                let far = (a - b).abs();
                let (x, y, t) = (seconds(*a), seconds(*b), seconds(*tolerance));
                assert_eq!(
                    within_tolerance(&x, &y, &t),
                    far <= *tolerance,
                    "{a:?} {b:?} {tolerance:?}"
                );
                assert_eq!(
                    beyond_tolerance(&x, &y, &t),
                    far > *tolerance,
                    "{a:?} {b:?} {tolerance:?}"
                );
            }
        }
    }
}

#[test]
fn numbers_are_equal_as_floating_point_numbers_are() {
    let values = values();
    for a in &values {
        assert_eq!(
            is_non_negative(&seconds(*a)),
            a.is_finite() && *a >= 0.0,
            "{a:?}"
        );
        for b in &values {
            assert_eq!(same_seconds(&seconds(*a), &seconds(*b)), a == b, "{a:?} {b:?}");
        }
    }
}

#[test]
fn closeness_is_symmetric_and_reflexive() {
    let tolerance = seconds(0.5);
    for a in values() {
        for b in values() {
            assert_eq!(
                within_tolerance(&seconds(a), &seconds(b), &tolerance),
                within_tolerance(&seconds(b), &seconds(a), &tolerance)
            );
        }
        if a.is_finite() {
            assert!(within_tolerance(&seconds(a), &seconds(a), &seconds(0.0)));
        }
    }
}

#[test]
fn larger_tolerances_accept_more() {
    assert!(!within_tolerance(&seconds(1.0), &seconds(1.5), &seconds(0.25)));
    assert!(within_tolerance(&seconds(1.0), &seconds(1.5), &seconds(0.5)));
    assert!(within_tolerance(&seconds(1.0), &seconds(1.5), &seconds(f64::INFINITY)));
    for a in values() {
        for b in values() {
            for (less, more) in [(0.0, 5e-324), (0.25, 0.5), (0.5, f64::INFINITY), (-0.0, 0.0)] {
                let (x, y) = (seconds(a), seconds(b));
                if within_tolerance(&x, &y, &seconds(less)) {
                    assert!(within_tolerance(&x, &y, &seconds(more)));
                }
                if beyond_tolerance(&x, &y, &seconds(more)) {
                    assert!(beyond_tolerance(&x, &y, &seconds(less)));
                }
            }
        }
    }
}
