use std::time::Duration;
use sysmon_tray::number::{parse_decimal, per_second, percent_of, Double, Single};
use sysmon_tray::text;

fn single(x: f32) -> Single {
    Single { bits: x.to_bits() }
}

fn double(x: f64) -> Double {
    Double { bits: x.to_bits() }
}

/// The same number, whatever the bits of a value that is none.
fn same_single(a: Single, b: f32) -> bool {
    let a = f32::from_bits(a.bits);
    (a.is_nan() && b.is_nan()) || a.to_bits() == b.to_bits()
}

fn same_double(a: Double, b: f64) -> bool {
    let a = f64::from_bits(a.bits);
    (a.is_nan() && b.is_nan()) || a.to_bits() == b.to_bits()
}

struct Noise(u64);

impl Noise {
    fn next(&mut self) -> u64 {
        self.0 = self.0.wrapping_mul(6364136223846793005).wrapping_add(1442695040888963407);
        self.0 ^ (self.0 >> 29)
    }
}

fn singles() -> Vec<f32> {
    let mut v = vec![
        0.0, -0.0, 1.0, -1.0, 0.5, 0.1, 99.95, 100.0, 1e-45, -1e-40, f32::MIN_POSITIVE, f32::MAX,
        f32::MIN, f32::INFINITY, f32::NEG_INFINITY, f32::NAN, 16777216.0, 3.0, 273.15,
    ];
    let mut noise = Noise(7);
    for _ in 0..12 {
        v.push(f32::from_bits(noise.next() as u32));
        v.push((noise.next() % 2000) as f32 / 16.0 - 50.0);
    }
    v
}

fn doubles() -> Vec<f64> {
    let mut v = vec![
        0.0, -0.0, 1.0, -1.0, 0.5, 0.1, 5e-324, -1e-310, f64::MIN_POSITIVE, f64::MAX, f64::MIN,
        f64::INFINITY, f64::NEG_INFINITY, f64::NAN, 1.25, 1.5, 9007199254740993.0,
    ];
    let mut noise = Noise(11);
    for _ in 0..10 {
        v.push(f64::from_bits(noise.next()));
        v.push((noise.next() % 4000) as f64 / 64.0 - 31.0);
    }
    v
}

#[test]
fn single_arithmetic_is_the_machines() {
    for a in singles() {
        for b in singles() {
            let (x, y) = (single(a), single(b));
            assert!(same_single(x.plus(y), a + b), "{a} + {b}");
            assert!(same_single(x.minus(y), a - b), "{a} - {b}");
            assert!(same_single(x.times(y), a * b), "{a} * {b}");
            assert!(same_single(x.over(y), a / b), "{a} / {b}");
            assert_eq!(x.is_below(y), a < b, "{a} < {b}");
            assert_eq!(x.is_at_most(y), a <= b, "{a} <= {b}");
        }
        assert_eq!(single(a).is_nan(), a.is_nan());
        assert_eq!(single(a).is_finite(), a.is_finite());
        assert_eq!(single(a).is_between(1, 100), (1.0..=100.0).contains(&a));
        assert_eq!(single(a).is_between(-40, 0), (-40.0..=0.0).contains(&a));
    }
}

#[test]
fn double_arithmetic_is_the_machines() {
    for a in doubles() {
        for b in doubles() {
            let (x, y) = (double(a), double(b));
            assert!(same_double(x.plus(y), a + b), "{a} + {b}");
            assert!(same_double(x.minus(y), a - b), "{a} - {b}");
            assert_eq!(x.is_below(y), a < b, "{a} < {b}");
            assert_eq!(x.is_at_most(y), a <= b, "{a} <= {b}");
        }
    }
}

#[test]
fn double_products_are_the_machines() {
    for a in doubles() {
        for b in [0.1, -2.5, 1e-300, 3e200, 0.0, f64::INFINITY, 1.25, 5e-324] {
            let (x, y) = (double(a), double(b));
            assert!(same_double(x.times(y), a * b), "{a} * {b}");
            assert!(same_double(x.over(y), a / b), "{a} / {b}");
            assert!(same_double(y.over(x), b / a), "{b} / {a}");
        }
    }
}

#[test]
fn conversions_are_the_machines() {
    for a in doubles() {
        assert!(same_single(double(a).narrowed(), a as f32), "{a}");
        assert_eq!(double(a).truncated(), a as u64, "{a}");
        let rounded = double(a).rounded_within(i32::MIN as i64, i32::MAX as i64);
        assert_eq!(rounded, a.round() as i32 as i64, "{a}");
        let size = double(a).rounded_within(1, u32::MAX as i64);
        assert_eq!(size, a.round().max(1.0) as u32 as i64, "{a}");
    }
    for a in [0.5, 1.5, 2.5, -0.5, -1.5, 0.49999999999999994, 4294967295.5] {
        assert_eq!(double(a).rounded_within(-9, 9000000000), a.round() as i64);
    }
    for n in [0u32, 1, 7, 16777217, 33554435, u32::MAX] {
        assert!(same_single(Single::whole(n), n as f32));
    }
    for n in [0u64, 1, 9007199254740993, 18446744073709550591, u64::MAX] {
        assert!(same_double(Double::whole(n), n as f64));
    }
    for n in [-1i64, 0, 5, -9007199254740993, i64::MAX] {
        assert!(same_double(Double::whole_signed(n), n as f64));
    }
    assert!(same_single(Single::ratio(27315, 100), 273.15));
    assert!(same_double(Double::ratio(1, 1000), 0.001));
}

#[test]
fn fixed_digits_are_those_of_format() {
    let mut all = singles();
    all.extend([0.05f32, 0.15, 0.25, 0.35, 0.95, 9.95, 2.5, 3.5, 99.5, 89.96, 1234567.9, -0.04]);
    for a in all {
        if a.is_nan() {
            continue;
        }
        assert_eq!(single(a).fixed_text(false), format!("{a:.0}"), "{a}");
        assert_eq!(single(a).fixed_text(true), format!("{a:.1}"), "{a}");
    }
}

#[test]
fn decimal_numbers_are_those_of_parse() {
    for s in [
        "0", "1", "-1", "+1", "0.1", "46.9", "16777217", "16777219", "340282346638528859811704183484516925440",
        "340282356779733661637539395458142568447", "340282356779733661637539395458142568448", "0.3333333333333333333333",
        "1.17549429e0", "00012.500", "123456789012345678901234567890",
    ] {
        if s.contains('e') {
            continue;
        }
        let v: Vec<char> = s.chars().collect();
        let expected: f32 = s.parse().unwrap();
        assert!(same_single(parse_decimal(&v).unwrap(), expected), "{s}");
    }
    for s in ["", "+", "-", ".", "+.", "1.2.3", "1-2", "--1", "1 "] {
        let v: Vec<char> = s.chars().collect();
        assert!(parse_decimal(&v).is_none(), "{s}");
        assert!(s.parse::<f32>().is_err(), "{s}");
    }
}

#[test]
fn shares_and_rates_are_the_machines() {
    for (part, whole) in [(0u64, 1u64), (1, 3), (2, 3), (17179869184, 34359738368), (7, 7), (u64::MAX, 3)] {
        let expected = (part as f64 / whole as f64 * 100.0) as f32;
        assert!(same_single(percent_of(part, whole), expected), "{part} of {whole}");
    }
    for nanos in [0u64, 1, 999_999, 1_000_000, 700_000_000, 1_000_000_001, 4_999_999_999] {
        for amount in [0u64, 1, 1500, 123_456_789, u64::MAX] {
            let secs = Duration::from_nanos(nanos).as_secs_f64().max(0.001);
            assert_eq!(per_second(amount, nanos), (amount as f64 / secs) as u64, "{amount} in {nanos}");
        }
    }
}

#[test]
fn white_space_is_that_of_char() {
    for n in 0..=0x10ffffu32 {
        if let Some(c) = char::from_u32(n) {
            assert_eq!(text::white_char(c), c.is_whitespace(), "{n:x}");
            assert_eq!(text::to_lower_char(c), c.to_ascii_lowercase(), "{n:x}");
        }
    }
}

#[test]
fn texts_are_those_of_str() {
    let texts = ["", " ", " a ", "\u{3000}温度 \n", "Abc", "abc", "abd", "ab", "é", "z", "温", "TZ.TZ.a"];
    for s in texts {
        let v = text::chars_of(s);
        assert_eq!(text::string_of(&v), s);
        assert_eq!(text::string_of(&text::trimmed(&v)), s.trim());
        assert_eq!(text::string_of(&text::lowered(&v)), s.to_ascii_lowercase());
        for t in texts {
            assert_eq!(text::has_text(&v, t), s.contains(t), "{s} {t}");
            assert_eq!(text::starts_with(&v, t), s.starts_with(t), "{s} {t}");
            assert_eq!(text::same_text(s, t), s == t);
            assert_eq!(text::same_ignoring_case(s, t), s.eq_ignore_ascii_case(t));
            assert_eq!(text::pair(s, t), format!("{s}{t}"));
            let order = match text::order(s, t) {
                sysmon_tray::bignat::Side::Below => std::cmp::Ordering::Less,
                sysmon_tray::bignat::Side::Equal => std::cmp::Ordering::Equal,
                sysmon_tray::bignat::Side::Above => std::cmp::Ordering::Greater,
            };
            assert_eq!(order, s.cmp(t), "{s} {t}");
        }
    }
    let words: Vec<String> = vec!["a".to_string(), "".to_string(), "温".to_string()];
    assert_eq!(text::joined(&words, " · "), words.join(" · "));
    assert_eq!(text::joined(&vec![], ","), "");
    for n in [0u128, 9, 10, 1234567890, u128::MAX] {
        assert_eq!(text::decimal_text(n), n.to_string());
    }
}

#[test]
fn a_part_is_at_most_all() {
    for whole in [1u64, 3, 7, 1 << 53, (1 << 53) + 1, u64::MAX - 1, u64::MAX] {
        for part in [0, whole / 3, whole - whole / 7, whole - 1, whole] {
            assert!(percent_of(part, whole).is_between(0, 100), "{part} of {whole}");
        }
        assert!(same_single(percent_of(whole, whole), 100.0));
    }
}
