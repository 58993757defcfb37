use story_schema::float::Float;

fn float(x: f64) -> Float {
    Float::from_bits(x.to_bits())
}

fn samples() -> Vec<f64> {
    let mut all = vec![
        0.0, -0.0, 0.1, -0.1, 0.5, -0.5, 0.999_999_999, 1.0, -1.0, 1.5, 2.5, 3.9, -3.9, 1e10,
        -1e10, 1e18, 9.2e18, 9.3e18, -9.2e18, -9.3e18, 1e19, -1e19, 1e300, -1e300, 5e-324,
        -5e-324, 2.2250738585072014e-308, 4503599627370496.0, 4503599627370495.5,
        9007199254740992.0, 9007199254740993.0, 9223372036854775807.0, 9223372036854775808.0,
        -9223372036854775808.0, -9223372036854777856.0, 9223372036854774784.0,
        f64::MAX, f64::MIN, f64::MIN_POSITIVE, f64::EPSILON, f64::INFINITY, f64::NEG_INFINITY,
        f64::NAN, -f64::NAN,
    ];
    let mut x = 1.0f64;
    for _ in 0..70 {
        all.push(x);
        all.push(-x);
        all.push(x * 1.75);
        all.push(x - 0.5);
        x *= 2.0;
    }
    all
}

#[test]
fn bits_are_kept() {
    assert_eq!(Float::from_bits(0x4008_0000_0000_0000).to_bits(), 0x4008_0000_0000_0000);
    assert_eq!(float(3.0).to_bits(), 0x4008_0000_0000_0000);
    assert_eq!(float(1.0).bits, 0x3ff0_0000_0000_0000);
}

#[test]
fn truncates_toward_zero() {
    assert_eq!(float(3.9).to_integer(), 3);
    assert_eq!(float(-3.9).to_integer(), -3);
    assert_eq!(float(0.999).to_integer(), 0);
    assert_eq!(float(-0.999).to_integer(), 0);
    assert_eq!(float(2.5).to_integer(), 2);
    assert_eq!(float(1e10).to_integer(), 10_000_000_000);
    assert_eq!(float(-0.0).to_integer(), 0);
}

#[test]
fn saturates_and_sends_nan_to_zero() {
    assert_eq!(float(f64::NAN).to_integer(), 0);
    assert_eq!(float(f64::INFINITY).to_integer(), i64::MAX);
    assert_eq!(float(f64::NEG_INFINITY).to_integer(), i64::MIN);
    assert_eq!(float(1e19).to_integer(), i64::MAX);
    assert_eq!(float(-1e19).to_integer(), i64::MIN);
    assert_eq!(float(9223372036854775808.0).to_integer(), i64::MAX);
    assert_eq!(float(-9223372036854775808.0).to_integer(), i64::MIN);
    assert_eq!(float(9223372036854774784.0).to_integer(), 9223372036854774784);
}

#[test]
fn truncation_agrees_with_the_cast() {
    for x in samples() {
        assert_eq!(float(x).to_integer(), x as i64, "{:?}", x);
    }
}

#[test]
fn small_integers_convert_exactly() {
    assert_eq!(Float::from_integer(0).to_bits(), 0);
    assert_eq!(Float::from_integer(1).to_bits(), 1.0f64.to_bits());
    assert_eq!(Float::from_integer(-1).to_bits(), (-1.0f64).to_bits());
    assert_eq!(Float::from_integer(7).to_bits(), 7.0f64.to_bits());
    assert_eq!(Float::from_integer(1 << 53).to_bits(), 9007199254740992.0f64.to_bits());
    for v in [0i64, 1, -1, 2, 3, 1000, -1000, (1 << 53) - 1, 1 << 53, -(1 << 53)] {
        assert_eq!(Float::from_integer(v).to_integer(), v);
    }
}

#[test]
fn large_integers_round_half_to_even() {
    // 2^53 + 1 lies half-way between 2^53 and 2^53 + 2: the even significand wins
    assert_eq!(Float::from_integer((1 << 53) + 1).to_integer(), 1 << 53);
    assert_eq!(Float::from_integer((1 << 53) + 2).to_integer(), (1 << 53) + 2);
    assert_eq!(Float::from_integer((1 << 53) + 3).to_integer(), (1 << 53) + 4);
    assert_eq!(Float::from_integer((1 << 54) + 1).to_integer(), 1 << 54);
    assert_eq!(Float::from_integer((1 << 54) + 2).to_integer(), 1 << 54);
    assert_eq!(Float::from_integer((1 << 54) + 3).to_integer(), (1 << 54) + 4);
    assert_eq!(Float::from_integer((1 << 54) + 6).to_integer(), (1 << 54) + 8);
    assert_eq!(Float::from_integer(i64::MAX).to_bits(), 9223372036854775808.0f64.to_bits());
    assert_eq!(Float::from_integer(i64::MIN).to_bits(), (-9223372036854775808.0f64).to_bits());
}

#[test]
fn conversion_from_integers_agrees_with_the_cast() {
    let mut cases: Vec<i64> = vec![0, i64::MAX, i64::MIN, i64::MAX - 1, i64::MIN + 1];
    let mut v: i64 = 1;
    for _ in 0..62 {
        for d in [-3i64, -2, -1, 0, 1, 2, 3] {
            cases.push(v + d);
            cases.push(-(v + d));
            cases.push(v + v / 2 + d);
            cases.push(v + v / 4 + d);
            cases.push(v + v / 1024 + d);
            cases.push(2 * v - 1 - (v >> 54) + d);
        }
        v *= 2;
    }
    let mut x: u64 = 0x9e37_79b9_7f4a_7c15;
    for _ in 0..2000 {
        x ^= x << 13;
        x ^= x >> 7;
        x ^= x << 17;
        cases.push(x as i64);
        cases.push((x >> 8) as i64);
    }
    for v in cases {
        assert_eq!(Float::from_integer(v).to_bits(), (v as f64).to_bits(), "{}", v);
    }
}

#[test]
fn zero_and_nan_are_told_apart() {
    assert!(float(0.0).is_zero());
    assert!(float(-0.0).is_zero());
    assert!(!float(0.1).is_zero());
    assert!(!float(5e-324).is_zero());
    assert!(!float(f64::NAN).is_zero());
    assert!(float(f64::NAN).is_nan());
    assert!(float(-f64::NAN).is_nan());
    assert!(!float(f64::INFINITY).is_nan());
    assert!(!float(0.0).is_nan());
    assert!(!float(f64::MAX).is_nan());
}

#[test]
fn equality_is_that_of_the_numbers() {
    for x in samples() {
        for y in [0.0, -0.0, 1.0, 3.9, f64::NAN, f64::INFINITY, x] {
            assert_eq!(float(x) == float(y), x == y, "{:?} {:?}", x, y);
        }
    }
}

#[test]
fn compose_builds_the_pattern() {
    assert_eq!(Float::compose(false, 1023, 0).to_bits(), 1.0f64.to_bits());
    assert_eq!(Float::compose(true, 1024, 1 << 51).to_bits(), (-3.0f64).to_bits());
    assert_eq!(Float::compose(false, 2047, 0).to_bits(), f64::INFINITY.to_bits());
    assert_eq!(Float::compose(false, 0, 1).to_bits(), 5e-324f64.to_bits());
}
