use peybot::convert::derive_lira;
use peybot::double::Double;
use peybot::error::ErrorKind;

fn lira(usd: i64, rate: f64) -> Result<i64, ErrorKind> {
    derive_lira(usd, Double::from_bits(rate.to_bits()))
}

#[test]
fn lira_is_the_quote_over_rate_over_ten_rounded_up() {
    assert_eq!(lira(1_050_000, 34.20), Ok(3071));
}

#[test]
fn whole_lira_price_is_not_rounded_further() {
    assert_eq!(lira(900_000, 30.00), Ok(3000));
}

#[test]
fn lira_agrees_with_the_machine() {
    let quotes: [i64; 14] = [
        0,
        1,
        9,
        10,
        11,
        342,
        343,
        900_000,
        1_050_000,
        1_137_500,
        123_456_789_012,
        9_007_199_254_740_993,
        i64::MAX,
        -1_050_000,
    ];
    let rates: [f64; 16] = [
        34.20,
        30.00,
        0.1,
        0.3,
        1.0,
        3.0,
        10.0,
        33.333_333,
        41.987_654_321,
        1e-9,
        1e9,
        1e-300,
        1e300,
        5e-324,
        f64::MAX,
        f64::INFINITY,
    ];
    for usd in quotes {
        for rate in rates {
            let expected = (usd as f64 / rate / 10.0).ceil() as i64;
            assert_eq!(lira(usd, rate), Ok(expected), "{usd} at {rate:e}");
        }
    }
}

#[test]
fn lira_agrees_with_the_machine_for_realistic_quotes() {
    let mut seed: u64 = 0x2545_f491_4f6c_dd1d;
    for _ in 0..20_000 {
        seed = seed.wrapping_mul(6_364_136_223_846_793_005).wrapping_add(1_442_695_040_888_963_407);
        let usd = ((seed >> 33) % 5_000_000) as i64 * 10;
        seed = seed.wrapping_mul(6_364_136_223_846_793_005).wrapping_add(1_442_695_040_888_963_407);
        let rate = ((seed >> 33) % 1_000_000) as f64 / 10_000.0 + 0.0001;
        let expected = (usd as f64 / rate / 10.0).ceil() as i64;
        assert_eq!(lira(usd, rate), Ok(expected), "{usd} at {rate}");
    }
}

#[test]
fn exact_multiples_are_not_rounded_up() {
    for k in 1..2_000i64 {
        assert_eq!(lira(k * 320, 32.0), Ok(k));
        assert_eq!(lira(k * 320 + 1, 32.0), Ok(k + 1));
        assert_eq!(lira(k * 5, 0.5), Ok(k));
    }
}

#[test]
fn rate_that_is_not_greater_than_zero_is_refused() {
    for rate in [0.0, -0.0, -34.2, -5e-324, f64::NEG_INFINITY, f64::NAN] {
        assert_eq!(lira(1_050_000, rate), Err(ErrorKind::InvalidInput));
        assert_eq!(lira(0, rate), Err(ErrorKind::InvalidInput));
    }
    assert_eq!(
        derive_lira(1, Double::from_bits(0x7ff0_0000_0000_0001)),
        Err(ErrorKind::InvalidInput)
    );
}

#[test]
fn lira_saturates_where_the_quotient_leaves_the_range() {
    assert_eq!(lira(1_050_000, 5e-324), Ok(i64::MAX));
    assert_eq!(lira(-1_050_000, 5e-324), Ok(i64::MIN));
    assert_eq!(lira(i64::MAX, 0.01), Ok(i64::MAX));
    assert_eq!(lira(1, 1e-20), Ok(10_000_000_000_000_000_000u64.min(i64::MAX as u64) as i64));
}

#[test]
fn tiny_quotient_rounds_up_to_one() {
    assert_eq!(lira(1, 1e300), Ok(1));
    assert_eq!(lira(1, f64::MAX), Ok(1));
    assert_eq!(lira(-1, 1e300), Ok(0));
    assert_eq!(lira(0, 1e300), Ok(0));
    assert_eq!(lira(1, f64::INFINITY), Ok(0));
}
