use byrradar::binary64::{divide_half_even, nearest, shifted, units, Binary64};
use byrradar::decimal::read_number;
use byrradar::natural::Natural;
use byrradar::sorting::{sort_order, SortKey};

fn read(text: &str) -> Option<Binary64> {
    let chars: Vec<char> = text.chars().collect();
    read_number(&chars)
}

fn agrees(text: &str) {
    match (text.parse::<f64>(), read(text)) {
        (Ok(expected), Some(number)) => {
            if expected.is_nan() {
                assert!(f64::from_bits(number.bits).is_nan(), "{text}");
            } else {
                assert_eq!(number.bits, expected.to_bits(), "{text}");
            }
        }
        (Err(_), None) => {}
        (expected, number) => panic!("{text}: {expected:?} and {number:?}"),
    }
}

#[test]
fn decimal_numbers_round_as_double_precision_does() {
    for text in [
        "0", "-0", "1", "200", "0.1", "0.3", "1.5", "12.34", "20", "19.999999999999999999", ".5", "5.",
        "1e3", "1E-3", "1e+22", "1e23", "8.5e-7", "123456789012345678901234567890", "1e308", "1e309",
        "-1e400", "4.9e-324", "2.4e-324", "2.5e-324", "2.2250738585072011e-308",
        "2.2250738585072014e-308", "9007199254740993", "9007199254740992.5", "9007199254740993.00001",
        "0.000000000000000000000000000000000001", "179769313486231580793728971405301e276", "inf",
        "-inf", "+Infinity", "INFINITY", "nan", "-NaN", "1e99999999999", "1e-99999999999", "0e999999",
        "1.7976931348623157e308", "1.7976931348623159e308", "00012.5000",
    ] {
        agrees(text);
    }
}

#[test]
fn what_is_no_number_is_refused() {
    for text in [
        "", " ", ".", "+", "-", "e5", "1e", "1e+", "1 ", " 1", "1,5", "0x10", "1_000", "--1", "+-1", "1.2.3",
        "infi", "na", "１", "1e5.0", ".e1",
    ] {
        assert!(read(text).is_none(), "{text}");
        agrees(text);
    }
}

#[test]
fn quotients_round_as_double_precision_does() {
    for (num, den) in [
        (1u64, 3u64), (2, 3), (7, 10), (20, 1), (59, 3), (2147483647, 2147483646), (1, 2147483647),
        (0, 5), (999, 1000), (1, 1), (4503599627370497, 2), (9007199254740993, 2),
    ] {
        let bits = nearest(&Natural::from_u64(num), &Natural::from_u64(den));
        if num <= 1 << 53 {
            assert_eq!(bits, (num as f64 / den as f64).to_bits(), "{num}/{den}");
        }
    }
    let odd = nearest(&Natural::from_u64(9007199254740993), &Natural::from_u64(1));
    assert_eq!(odd, 9007199254740992f64.to_bits());
}

#[test]
fn nearest_is_within_half_a_unit() {
    let bits = nearest(&Natural::from_u64(1), &Natural::from_u64(3));
    assert_eq!(bits, 0x3fd5_5555_5555_5555);
    let worth = units(bits).times_plus(3, 0);
    let one = shifted(&Natural::from_u64(1), 1074);
    assert!(worth.less_than(&one));
    let missing = one.minus(&worth).unwrap();
    let last_digit = shifted(&Natural::from_u64(3), 1020);
    assert!(missing.times_plus(2, 0).less_than(&last_digit));
}

#[test]
fn larger_patterns_are_worth_more() {
    let patterns = [0u64, 1, 0xf_ffff_ffff_ffff, 0x10_0000_0000_0000, 0x3ff0_0000_0000_0000, 0x7fef_ffff_ffff_ffff];
    for pair in patterns.windows(2) {
        assert!(units(pair[0]).less_than(&units(pair[1])));
    }
}

#[test]
fn halves_go_to_the_even_side() {
    let two = Natural::from_u64(2);
    for (num, expected) in [(1u64, 0u64), (3, 2), (5, 2), (7, 4), (6, 3), (0, 0)] {
        assert_eq!(divide_half_even(&Natural::from_u64(num), &two), expected);
    }
    assert_eq!(divide_half_even(&Natural::from_u64(8), &Natural::from_u64(3)), 3);
    assert_eq!(divide_half_even(&Natural::from_u64(7), &Natural::from_u64(3)), 2);
}

#[test]
fn comparisons_follow_the_numbers() {
    for number in [0.0, -0.0, 1.0, -1.0, 19.999999999999996, 20.0, 1e300, 5e-324, f64::INFINITY, f64::NEG_INFINITY, f64::NAN] {
        let model = Binary64 { bits: number.to_bits() };
        assert_eq!(model.is_at_most_zero(), number <= 0.0, "{number}");
        assert_eq!(model.is_above_zero(), number > 0.0, "{number}");
        assert_eq!(model.is_below(20), number < 20.0, "{number}");
        assert_eq!(model.truncate(30), (number * 1073741824.0) as u64, "{number}");
        let bound = Binary64 { bits: 0.999f64.to_bits() };
        assert_eq!(model.is_at_least(&bound), number >= 0.999, "{number}");
    }
    assert_eq!(Binary64 { bits: 1.5f64.to_bits() }.truncate(10), 1536);
}

#[test]
fn naturals_count() {
    let big = Natural::from_u64(u64::MAX).times_plus(u32::MAX, 7);
    assert!(Natural::from_u64(u64::MAX).less_than(&big));
    assert!(big.minus(&big).unwrap().less_than(&Natural::new(1)));
    assert!(Natural::new(1).minus(&Natural::new(2)).is_none());
}

fn key(first: i128, second: i128) -> SortKey {
    SortKey { first, second, third: 0, fourth: 0, fifth: 0 }
}

#[test]
fn sorting_is_stable() {
    let keys = [key(2, 0), key(1, 5), key(1, 4), key(2, 0), key(-3, 9), key(1, 5)];
    assert_eq!(sort_order(&keys), vec![4, 2, 1, 5, 0, 3]);
    assert_eq!(sort_order(&[]), Vec::<usize>::new());
    let last = [SortKey { fifth: 1, ..key(0, 0) }, SortKey { fifth: -1, ..key(0, 0) }];
    assert_eq!(sort_order(&last), vec![1, 0]);
}
