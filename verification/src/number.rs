//! The two kinds of floating-point number that readings come in, held as their
//! bit patterns.

use crate::bignat::BigNat;
use crate::ieee;
use crate::ieee::{Format, Parts};
use crate::text;
use vstd::arithmetic::power::*;
use vstd::arithmetic::power2::*;
use vstd::prelude::*;
use vstd::string::*;

verus! {

/// A single-precision number by its bit pattern. `==` compares bit patterns.
#[derive(Clone, Copy, PartialEq, Eq, Structural, Debug)]
pub struct Single {
    pub bits: u32,
}

/// The single-precision number with the given sign and magnitude.
pub open spec fn single(p: Parts) -> Single {
    Single {
        bits: (if p.neg {
            0x8000_0000 + p.mag
        } else {
            p.mag as int
        }) as u32,
    }
}

/// The single-precision number nearest to the whole number `n`.
pub open spec fn single_whole(n: nat) -> Single {
    single(ieee::fraction(Format::Single, n, 1))
}

impl Single {
    pub open spec fn parts(self) -> Parts {
        Parts { neg: self.bits >= 0x8000_0000, mag: (self.bits % 0x8000_0000) as u64 }
    }

    /// Whether this is no number.
    pub open spec fn nan(self) -> bool {
        self.parts().nan(Format::Single)
    }

    pub open spec fn finite(self) -> bool {
        self.parts().finite(Format::Single)
    }

    /// The value times 2^149, a whole number.
    pub open spec fn scaled(self) -> int {
        self.parts().scaled(Format::Single)
    }

    /// `self < other` as numbers.
    pub open spec fn below(self, other: Single) -> bool {
        ieee::below(Format::Single, self.parts(), other.parts())
    }

    /// `self <= other` as numbers.
    pub open spec fn at_most(self, other: Single) -> bool {
        ieee::at_most(Format::Single, self.parts(), other.parts())
    }

    pub open spec fn sum(self, other: Single) -> Single {
        single(ieee::sum(Format::Single, self.parts(), other.parts()))
    }

    pub open spec fn difference(self, other: Single) -> Single {
        single(ieee::sum(Format::Single, self.parts(), ieee::negated(other.parts())))
    }

    pub open spec fn product(self, other: Single) -> Single {
        single(ieee::product(Format::Single, self.parts(), other.parts()))
    }

    pub open spec fn quotient(self, other: Single) -> Single {
        single(ieee::quotient(Format::Single, self.parts(), other.parts()))
    }

    /// `low <= self <= high` as numbers.
    pub open spec fn between(self, low: int, high: int) -> bool {
        !self.nan() && low * pow2(149) <= self.scaled() <= high * pow2(149)
    }

    pub fn split(self) -> (r: Parts)
        ensures
            r == self.parts(),
    {
        Parts { neg: self.bits >= 0x8000_0000, mag: (self.bits % 0x8000_0000) as u64 }
    }

    pub fn from_parts(p: Parts) -> (r: Single)
        requires
            p.mag < 0x8000_0000,
        ensures
            r == single(p),
            r.parts() == p,
    {
        if p.neg {
            Single { bits: 0x8000_0000 + p.mag as u32 }
        } else {
            Single { bits: p.mag as u32 }
        }
    }

    pub fn is_nan(self) -> (r: bool)
        ensures
            r == self.nan(),
    {
        self.bits % 0x8000_0000 > 0x7f80_0000
    }

    pub fn is_finite(self) -> (r: bool)
        ensures
            r == self.finite(),
    {
        self.bits % 0x8000_0000 < 0x7f80_0000
    }

    pub fn is_below(self, other: Single) -> (r: bool)
        ensures
            r == self.below(other),
    {
        ieee::is_below(Format::Single, self.split(), other.split())
    }

    pub fn is_at_most(self, other: Single) -> (r: bool)
        ensures
            r == self.at_most(other),
    {
        ieee::is_at_most(Format::Single, self.split(), other.split())
    }

    /// The number nearest to `n`; `n` itself up to 2^24.
    pub fn whole(n: u32) -> (r: Single)
        ensures
            r == single_whole(n as nat),
            n <= 0x100_0000 ==> r.finite() && r.scaled() == n * pow2(149),
    {
        let p = ieee::from_fraction(Format::Single, n as u64, 1);
        if n <= 0x100_0000 {
            proof {
                lemma_small_whole(n as nat);
            }
        }
        Single::from_parts(p)
    }

    /// Whether `low <= self <= high`.
    pub fn is_between(self, low: i32, high: i32) -> (r: bool)
        requires
            -0x100_0000 <= low <= 0x100_0000,
            -0x100_0000 <= high <= 0x100_0000,
        ensures
            r == self.between(low as int, high as int),
    {
        Single::signed(low).is_at_most(self) && self.is_at_most(Single::signed(high))
    }

    fn signed(n: i32) -> (r: Single)
        requires
            -0x100_0000 <= n <= 0x100_0000,
        ensures
            r.finite(),
            r.scaled() == n * pow2(149),
    {
        if n < 0 {
            let p = Single::whole((-n) as u32).split();
            proof {
                assert((-n) * pow2(149) == -(n * pow2(149))) by (nonlinear_arith);
            }
            Single::from_parts(Parts { neg: true, mag: p.mag })
        } else {
            Single::whole(n as u32)
        }
    }

    pub fn plus(self, other: Single) -> (r: Single)
        ensures
            r == self.sum(other),
    {
        Single::from_parts(ieee::plus(Format::Single, self.split(), other.split()))
    }

    pub fn minus(self, other: Single) -> (r: Single)
        ensures
            r == self.difference(other),
    {
        Single::from_parts(ieee::minus(Format::Single, self.split(), other.split()))
    }

    pub fn times(self, other: Single) -> (r: Single)
        ensures
            r == self.product(other),
    {
        Single::from_parts(ieee::times(Format::Single, self.split(), other.split()))
    }

    pub fn over(self, other: Single) -> (r: Single)
        ensures
            r == self.quotient(other),
    {
        Single::from_parts(ieee::over(Format::Single, self.split(), other.split()))
    }

    /// The number nearest to `num / den`.
    pub fn ratio(num: u64, den: u64) -> (r: Single)
        requires
            den > 0,
        ensures
            r == single(ieee::fraction(Format::Single, num as nat, den as nat)),
    {
        Single::from_parts(ieee::from_fraction(Format::Single, num, den))
    }
}

/// The whole number nearest to `num / den`, a tie going to the even one.
pub open spec fn half_even(num: nat, den: nat) -> nat {
    let whole = num / den;
    let rest = num % den;
    if 2 * rest < den {
        whole
    } else if 2 * rest > den {
        whole + 1
    } else {
        whole + whole % 2
    }
}

proof fn lemma_half_even_scales(num: nat, den: nat, c: nat)
    requires
        den > 0,
        c > 0,
    ensures
        half_even(num * c, den * c) == half_even(num, den),
{
    let whole = num / den;
    let rest = num % den;
    vstd::arithmetic::div_mod::lemma_fundamental_div_mod(num as int, den as int);
    assert(den * c > 0) by (nonlinear_arith)
        requires
            den > 0,
            c > 0,
    ;
    assert(num * c == (den * c) * whole + rest * c) by (nonlinear_arith)
        requires
            num == den * whole + rest,
    ;
    assert(0 <= rest * c < den * c) by (nonlinear_arith)
        requires
            0 <= rest < den,
            c > 0,
    ;
    vstd::arithmetic::div_mod::lemma_fundamental_div_mod_converse(
        (num * c) as int,
        (den * c) as int,
        whole as int,
        (rest * c) as int,
    );
    assert((2 * rest < den) == (2 * (rest * c) < den * c)) by (nonlinear_arith)
        requires
            c > 0,
    ;
    assert((2 * rest > den) == (2 * (rest * c) > den * c)) by (nonlinear_arith)
        requires
            c > 0,
    ;
}

/// The value with no decimals, or with one where `tenths` is set, rounded half
/// to even.
pub open spec fn fixed(x: Single, tenths: bool) -> Seq<char> {
    let sign = if x.parts().neg {
        seq!['-']
    } else {
        Seq::empty()
    };
    if x.nan() {
        "NaN"@
    } else if !x.finite() {
        sign + "inf"@
    } else if tenths {
        let n = half_even(ieee::units(Format::Single, x.parts().mag as nat) * 10, pow2(149));
        sign + text::decimal(n / 10) + "."@ + seq![text::digit_char(n % 10)]
    } else {
        sign + text::decimal(
            half_even(ieee::units(Format::Single, x.parts().mag as nat), pow2(149)),
        )
    }
}

impl Single {
    /// The whole number nearest to `|self| * factor`, a tie going to the even one.
    fn rounded(self, factor: u64) -> (r: u128)
        requires
            self.finite(),
            factor == 1 || factor == 10,
            factor == 10 ==> self.parts().mag < 150 * 0x80_0000,
        ensures
            r == half_even(
                ieee::units(Format::Single, self.parts().mag as nat) * factor as nat,
                pow2(149),
            ),
    {
        let mag: u64 = self.split().mag;
        let (m, e): (u64, u32) = if mag < 0x80_0000 {
            (mag, 0)
        } else {
            (mag % 0x80_0000 + 0x80_0000, (mag / 0x80_0000 - 1) as u32)
        };
        let ghost u = ieee::units(Format::Single, mag as nat);
        proof {
            lemma2_to64();
            lemma_pow2_pos(149);
            lemma_pow2_pos(e as nat);
            assert(mag < 0x80_0000 ==> m * pow2(0) == mag);
            assert(u == m * pow2(e as nat));
        }
        if e >= 149 {
            let v = ieee::doubled(m, e - 149);
            proof {
                lemma_pow2_adds((e - 149) as nat, 149);
                let a = pow2((e - 149) as nat);
                let b = pow2(149);
                assert(u == (m * a) * b) by (nonlinear_arith)
                    requires
                        u == m * (a * b),
                ;
                vstd::arithmetic::div_mod::lemma_div_by_multiple(m * a, b as int);
                vstd::arithmetic::div_mod::lemma_mod_multiples_basic(m * a, b as int);
                if e > 149 {
                    assert(e - 149 <= 104);
                }
                if (e - 149) as nat != 104 {
                    lemma_pow2_strictly_increases((e - 149) as nat, 104);
                }
                lemma_pow2_adds(40, 64);
                lemma_pow2_adds(20, 20);
                lemma_pow2_adds(64, 64);
                assert(a <= pow2(104));
                assert(m * a <= 0xff_ffff * pow2(104)) by (nonlinear_arith)
                    requires
                        m <= 0xff_ffff,
                        a <= pow2(104),
                ;
                assert(pow2(104) == 0x100_0000_0000 * 0x1_0000_0000_0000_0000);
                assert(u * 1 == u);
            }
            v
        } else {
            let s: u32 = 149 - e;
            let t: u64 = m * factor;
            proof {
                lemma_pow2_adds(s as nat, e as nat);
                lemma_pow2_pos(s as nat);
                assert((m * pow2(e as nat)) * factor as nat == (m * factor) as nat * pow2(e as nat))
                    by (nonlinear_arith);
                lemma_half_even_scales(t as nat, pow2(s as nat), pow2(e as nat));
            }
            if s >= 40 {
                proof {
                    if s > 40 {
                        lemma_pow2_strictly_increases(40, s as nat);
                    }
                    lemma_pow2_adds(20, 20);
                    assert(pow2(40) == 0x100_0000_0000);
                    vstd::arithmetic::div_mod::lemma_small_mod(t as nat, pow2(s as nat));
                    vstd::arithmetic::div_mod::lemma_basic_div(t as int, pow2(s as nat) as int);
                }
                0
            } else {
                proof {
                    lemma_pow2_strictly_increases(s as nat, 40);
                    lemma_pow2_adds(20, 20);
                    assert(1 * pow2(s as nat) == pow2(s as nat));
                }
                let den: u128 = ieee::doubled(1, s);
                let whole: u128 = t as u128 / den;
                let rest: u128 = t as u128 % den;
                if 2 * rest < den {
                    whole
                } else if 2 * rest > den {
                    whole + 1
                } else {
                    whole + whole % 2
                }
            }
        }
    }

    /// The value with no decimals, or with one where `tenths` is set.
    pub fn fixed_text(self, tenths: bool) -> (r: String)
        ensures
            r@ == fixed(self, tenths),
    {
        if self.is_nan() {
            return "NaN".to_string();
        }
        let p = self.split();
        let mut r = String::new();
        if p.neg {
            r.push('-');
        }
        let ghost sign = if p.neg {
            seq!['-']
        } else {
            Seq::<char>::empty()
        };
        assert(r@ =~= sign);
        if !self.is_finite() {
            r.append("inf");
            return r;
        }
        if !tenths {
            proof {
                let u = ieee::units(Format::Single, p.mag as nat);
                assert(u * 1 == u);
            }
            r.append(text::decimal_text(self.rounded(1)).as_str());
            return r;
        }
        if p.mag >= 150 * 0x80_0000 {
            let n = self.rounded(1);
            proof {
                self.lemma_integral();
            }
            r.append(text::decimal_text(n).as_str());
            r.append(".");
            r.push('0');
        } else {
            let n = self.rounded(10);
            r.append(text::decimal_text(n / 10).as_str());
            r.append(".");
            r.push((48 + (n % 10) as u8) as char);
        }
        r
    }

    proof fn lemma_integral(self)
        requires
            self.finite(),
            self.parts().mag >= 150 * 0x80_0000,
        ensures
            ({
                let u = ieee::units(Format::Single, self.parts().mag as nat);
                half_even(u * 10, pow2(149)) == 10 * half_even(u * 1, pow2(149))
            }),
    {
        let mag = self.parts().mag as nat;
        let u = ieee::units(Format::Single, mag);
        let e = (mag / 0x80_0000 - 1) as nat;
        lemma_pow2_adds((e - 149) as nat, 149);
        lemma_pow2_pos(149);
        let v = (mag % 0x80_0000 + 0x80_0000) * pow2((e - 149) as nat);
        let b = pow2(149);
        assert(u == v * b) by (nonlinear_arith)
            requires
                u == (mag % 0x80_0000 + 0x80_0000) * (pow2((e - 149) as nat) * b),
                v == (mag % 0x80_0000 + 0x80_0000) * pow2((e - 149) as nat),
        ;
        assert(u * 10 == (10 * v) * b) by (nonlinear_arith)
            requires
                u == v * b,
        ;
        vstd::arithmetic::div_mod::lemma_div_by_multiple(v as int, b as int);
        vstd::arithmetic::div_mod::lemma_mod_multiples_basic(v as int, b as int);
        vstd::arithmetic::div_mod::lemma_div_by_multiple((10 * v) as int, b as int);
        vstd::arithmetic::div_mod::lemma_mod_multiples_basic((10 * v) as int, b as int);
    }
}

proof fn lemma_normal(f: Format, n: nat, m: nat, s: nat)
    requires
        0 < n,
        m == n * pow2(s),
        pow2(s) <= m <= 2 * f.lead(),
    ensures
        exists|mag: nat|
            mag < f.infinity() && #[trigger] ieee::units(f, mag) == n * pow2(f.unit()),
    decreases 2 * f.lead() - m,
{
    lemma2_to64();
    lemma2_to64_rest();
    lemma_pow2_pos(s);
    let lead = f.lead();
    let unit = f.unit();
    if s > 53 {
        lemma_pow2_strictly_increases(53, s);
    }
    if m < lead {
        lemma_pow2_unfold(s + 1);
        assert(2 * m == n * (2 * pow2(s))) by (nonlinear_arith)
            requires
                m == n * pow2(s),
        ;
        lemma_normal(f, n, 2 * m, s + 1);
    } else {
        let e = (unit - s + 1) as nat;
        let p = pow2((unit - s) as nat);
        lemma_pow2_adds((unit - s) as nat, s);
        assert(m * p == n * pow2(unit)) by (nonlinear_arith)
            requires
                m == n * pow2(s),
                pow2(unit) == p * pow2(s),
        ;
        let (q, h): (nat, nat) = if m == 2 * lead {
            (e + 1, 0)
        } else {
            (e, (m - lead) as nat)
        };
        let mag = (q * lead + h) as nat;
        vstd::arithmetic::div_mod::lemma_fundamental_div_mod_converse(
            mag as int,
            lead as int,
            q as int,
            h as int,
        );
        assert(q * lead + h < f.infinity()) by (nonlinear_arith)
            requires
                q <= unit + 2,
                h < lead,
                (unit + 3) * lead <= f.infinity(),
        ;
        assert(lead <= mag) by (nonlinear_arith)
            requires
                mag == q * lead + h,
                q >= 1,
        ;
        if m == 2 * lead {
            lemma_pow2_unfold((unit - s + 1) as nat);
            assert(lead * (2 * p) == (2 * lead) * p) by (nonlinear_arith);
        }
        assert(ieee::units(f, mag) == n * pow2(unit));
    }
}

/// The whole numbers up to 2^24 are single-precision numbers.
pub proof fn lemma_small_whole(n: nat)
    requires
        n <= 0x100_0000,
    ensures
        single_whole(n).finite(),
        single_whole(n).scaled() == n * pow2(149),
        !single_whole(n).parts().neg,
{
    lemma2_to64();
    let f = Format::Single;
    if n == 0 {
        ieee::law_rounding_keeps_numbers(f, 0, 1);
        assert(ieee::units(f, 0) * 1 == 0);
        assert(n * pow2(149) == 0) by (nonlinear_arith)
            requires
                n == 0,
        ;
    } else {
        assert(n == n * pow2(0));
        lemma_normal(f, n, n, 0);
        let mag = choose|mag: nat|
            mag < f.infinity() && #[trigger] ieee::units(f, mag) == n * pow2(149);
        ieee::law_rounding_keeps_numbers(f, mag, 1);
        assert(ieee::units(f, mag) * 1 == ieee::units(f, mag));
    }
}

/// The whole numbers up to 2^53 are double-precision numbers.
pub proof fn lemma_whole_double(n: nat)
    requires
        n <= 0x20_0000_0000_0000,
    ensures
        double_whole(n).parts().mag < Format::Double.infinity(),
        !double_whole(n).parts().neg,
        ieee::units(Format::Double, double_whole(n).parts().mag as nat) == n * pow2(1074),
{
    lemma2_to64();
    let f = Format::Double;
    if n == 0 {
        ieee::law_rounding_keeps_numbers(f, 0, 1);
        assert(ieee::units(f, 0) * 1 == 0);
        assert(n * pow2(1074) == 0) by (nonlinear_arith)
            requires
                n == 0,
        ;
    } else {
        assert(n == n * pow2(0));
        lemma_normal(f, n, n, 0);
        let mag = choose|mag: nat|
            mag < f.infinity() && #[trigger] ieee::units(f, mag) == n * pow2(f.unit());
        ieee::law_rounding_keeps_numbers(f, mag, 1);
        assert(ieee::units(f, mag) * 1 == ieee::units(f, mag));
    }
}

/// The number that `s` writes: an optional sign, then decimal digits with at
/// most one point among them, rounded to the nearest single-precision number.
pub open spec fn decimal_number(s: Seq<char>) -> Option<Single> {
    let neg = s.len() > 0 && s[0] == '-';
    let body = if s.len() > 0 && (s[0] == '-' || s[0] == '+') {
        s.drop_first()
    } else {
        s
    };
    let point = text::position(body, '.');
    let digits = if point < body.len() {
        body.take(point) + body.skip(point + 1)
    } else {
        body
    };
    let places = if point < body.len() {
        (body.len() - point - 1) as nat
    } else {
        0
    };
    if digits.len() == 0 || !text::all_digits(digits) {
        None
    } else {
        let mag = ieee::nearest(
            Format::Single,
            text::digits_value(digits) * pow2(149),
            pow(10, places) as nat,
        );
        Some(single(Parts { neg, mag: mag as u64 }))
    }
}

/// The number that the digits write.
fn digits_number(v: &Vec<char>) -> (r: BigNat)
    requires
        text::all_digits(v@),
    ensures
        r@ == text::digits_value(v@),
{
    let mut r = BigNat::from_u64(0);
    let n = v.len();
    for i in 0..n
        invariant
            n == v@.len(),
            text::all_digits(v@),
            r@ == text::digits_value(v@.take(i as int)),
    {
        let c = v[i];
        assert(text::is_digit(v@[i as int]));
        let d: u64 = c as u64 - 48;
        proof {
            assert(v@.take(i + 1).drop_last() =~= v@.take(i as int));
            assert(v@.take(i + 1).last() == c);
        }
        r = r.times_plus(10, d);
    }
    assert(v@.take(n as int) =~= v@);
    r
}

/// `10^n`.
fn ten_to(n: usize) -> (r: BigNat)
    ensures
        r@ == pow(10, n as nat),
        r@ > 0,
{
    let mut r = BigNat::from_u64(1);
    proof {
        lemma_pow0(10);
    }
    for i in 0..n
        invariant
            r@ == pow(10, i as nat),
    {
        proof {
            reveal(pow);
            assert(pow(10, (i + 1) as nat) == 10 * pow(10, i as nat));
        }
        r = r.times_plus(10, 0);
    }
    proof {
        lemma_pow_positive(10, n as nat);
    }
    r
}

/// Reads a number written in decimal digits.
pub fn parse_decimal(v: &Vec<char>) -> (r: Option<Single>)
    ensures
        r == decimal_number(v@),
{
    let n = v.len();
    let neg = n > 0 && v[0] == '-';
    let start: usize = if n > 0 && (v[0] == '-' || v[0] == '+') {
        1
    } else {
        0
    };
    let body = text::part(v, start, n);
    assert(body@ =~= if start == 1 {
        v@.drop_first()
    } else {
        v@
    });
    let len = body.len();
    let point = text::position_of(&body, '.');
    let (digits, places): (Vec<char>, usize) = if point < len {
        let mut digits = text::part(&body, 0, point);
        let mut after = text::part(&body, point + 1, len);
        proof {
            assert(digits@ =~= body@.take(point as int));
            assert(after@ =~= body@.skip(point + 1));
        }
        digits.append(&mut after);
        (digits, len - point - 1)
    } else {
        (body, 0)
    };
    if digits.len() == 0 || !text::digits_only(&digits) {
        return None;
    }
    let num = digits_number(&digits).shifted(149);
    let mag = ieee::round(Format::Single, &num, &ten_to(places));
    Some(Single::from_parts(Parts { neg, mag }))
}

/// A double-precision number by its bit pattern. `==` compares bit patterns.
#[derive(Clone, Copy, PartialEq, Eq, Structural, Debug)]
pub struct Double {
    pub bits: u64,
}

/// The double-precision number with the given sign and magnitude.
pub open spec fn double(p: Parts) -> Double {
    Double {
        bits: (if p.neg {
            0x8000_0000_0000_0000 + p.mag
        } else {
            p.mag as int
        }) as u64,
    }
}

/// The double-precision number nearest to the whole number `n`.
pub open spec fn double_whole(n: nat) -> Double {
    double(ieee::fraction(Format::Double, n, 1))
}

impl Double {
    pub open spec fn parts(self) -> Parts {
        Parts { neg: self.bits >= 0x8000_0000_0000_0000, mag: self.bits % 0x8000_0000_0000_0000 }
    }

    /// Whether this is no number.
    pub open spec fn nan(self) -> bool {
        self.parts().nan(Format::Double)
    }

    /// `self < other` as numbers.
    pub open spec fn below(self, other: Double) -> bool {
        ieee::below(Format::Double, self.parts(), other.parts())
    }

    /// `self <= other` as numbers.
    pub open spec fn at_most(self, other: Double) -> bool {
        ieee::at_most(Format::Double, self.parts(), other.parts())
    }

    pub open spec fn sum(self, other: Double) -> Double {
        double(ieee::sum(Format::Double, self.parts(), other.parts()))
    }

    pub open spec fn difference(self, other: Double) -> Double {
        double(ieee::sum(Format::Double, self.parts(), ieee::negated(other.parts())))
    }

    pub open spec fn product(self, other: Double) -> Double {
        double(ieee::product(Format::Double, self.parts(), other.parts()))
    }

    pub open spec fn quotient(self, other: Double) -> Double {
        double(ieee::quotient(Format::Double, self.parts(), other.parts()))
    }

    pub fn split(self) -> (r: Parts)
        ensures
            r == self.parts(),
    {
        Parts { neg: self.bits >= 0x8000_0000_0000_0000, mag: self.bits % 0x8000_0000_0000_0000 }
    }

    pub fn from_parts(p: Parts) -> (r: Double)
        requires
            p.mag < 0x8000_0000_0000_0000,
        ensures
            r == double(p),
            r.parts() == p,
    {
        if p.neg {
            Double { bits: 0x8000_0000_0000_0000 + p.mag }
        } else {
            Double { bits: p.mag }
        }
    }

    /// The number nearest to `n`.
    pub fn whole(n: u64) -> (r: Double)
        ensures
            r == double_whole(n as nat),
            r.parts() == ieee::fraction(Format::Double, n as nat, 1),
    {
        Double::from_parts(ieee::from_fraction(Format::Double, n, 1))
    }

    pub fn is_below(self, other: Double) -> (r: bool)
        ensures
            r == self.below(other),
    {
        ieee::is_below(Format::Double, self.split(), other.split())
    }

    pub fn is_at_most(self, other: Double) -> (r: bool)
        ensures
            r == self.at_most(other),
    {
        ieee::is_at_most(Format::Double, self.split(), other.split())
    }

    pub fn plus(self, other: Double) -> (r: Double)
        ensures
            r == self.sum(other),
    {
        Double::from_parts(ieee::plus(Format::Double, self.split(), other.split()))
    }

    pub fn minus(self, other: Double) -> (r: Double)
        ensures
            r == self.difference(other),
    {
        Double::from_parts(ieee::minus(Format::Double, self.split(), other.split()))
    }

    pub fn times(self, other: Double) -> (r: Double)
        ensures
            r == self.product(other),
    {
        Double::from_parts(ieee::times(Format::Double, self.split(), other.split()))
    }

    pub fn over(self, other: Double) -> (r: Double)
        ensures
            r == self.quotient(other),
    {
        Double::from_parts(ieee::over(Format::Double, self.split(), other.split()))
    }

    /// The number nearest to `num / den`.
    pub fn ratio(num: u64, den: u64) -> (r: Double)
        requires
            den > 0,
        ensures
            r == double(ieee::fraction(Format::Double, num as nat, den as nat)),
    {
        Double::from_parts(ieee::from_fraction(Format::Double, num, den))
    }

    /// The number nearest to the whole number `n`.
    pub fn whole_signed(n: i64) -> (r: Double)
        requires
            n > i64::MIN,
        ensures
            r == double_int(n as int),
    {
        if n < 0 {
            let p = ieee::from_fraction(Format::Double, (-n) as u64, 1);
            Double::from_parts(Parts { neg: true, mag: p.mag })
        } else {
            Double::whole(n as u64)
        }
    }

    /// Rounds to single precision.
    pub fn narrowed(self) -> (r: Single)
        ensures
            r == to_single(self),
    {
        let p = self.split();
        if p.mag > 0x7ff0_0000_0000_0000 {
            return Single::from_parts(ieee::no_number(Format::Single));
        }
        if p.mag == 0x7ff0_0000_0000_0000 {
            return Single::from_parts(Parts { neg: p.neg, mag: 0x7f80_0000 });
        }
        let num = ieee::units_of(Format::Double, p.mag);
        let den = BigNat::from_u64(1).shifted(925);
        proof {
            lemma_pow2_pos(925);
            assert(1 * pow2(925) == pow2(925));
        }
        let mag = ieee::round(Format::Single, &num, &den);
        Single::from_parts(Parts { neg: p.neg, mag })
    }

    /// Drops the fraction; what lies beyond the range of `u64` becomes its end.
    pub fn truncated(self) -> (r: u64)
        ensures
            r == to_u64(self),
    {
        let p = self.split();
        if p.mag > 0x7ff0_0000_0000_0000 || p.neg {
            return 0;
        }
        let n = ieee::whole(Format::Double, p.mag, 1074);
        if n > u64::MAX as u128 {
            u64::MAX
        } else {
            n as u64
        }
    }

    /// The nearest whole number, a tie going away from zero; what lies beyond
    /// `low` and `high` becomes that end, and no number becomes zero.
    pub fn rounded_within(self, low: i64, high: i64) -> (r: i64)
        requires
            low <= high,
            i64::MIN < low,
        ensures
            r == within(rounded(self), low as int, high as int),
    {
        let p = self.split();
        if p.mag > 0x7ff0_0000_0000_0000 {
            return if 0 < low {
                low
            } else if high < 0 {
                high
            } else {
                0
            };
        }
        let t = ieee::whole(Format::Double, p.mag, 1073);
        proof {
            let u = ieee::units(Format::Double, p.mag as nat) as int;
            let h = pow2(1073) as int;
            lemma_pow2_pos(1073);
            lemma_pow2_unfold(1074);
            vstd::arithmetic::div_mod::lemma_div_plus_one(u, h);
            vstd::arithmetic::div_mod::lemma_div_denominator(u + h, h, 2);
            vstd::arithmetic::div_mod::lemma_div_multiples_vanish_quotient(2, u + h, h * 2);
            assert(2 * (u + h) == 2 * u + pow2(1074));
            assert(2 * (h * 2) == 2 * pow2(1074));
            assert((2 * u + pow2(1074)) / (2 * pow2(1074) as int) == (u / h + 1) / 2);
        }
        let n: u128 = t / 2 + t % 2;
        if n > i64::MAX as u128 {
            if p.neg {
                low
            } else {
                high
            }
        } else {
            let k: i64 = if p.neg {
                -(n as i64)
            } else {
                n as i64
            };
            if k < low {
                low
            } else if k > high {
                high
            } else {
                k
            }
        }
    }
}

/// The double-precision number nearest to the whole number `n`.
pub open spec fn double_int(n: int) -> Double {
    if n < 0 {
        double(ieee::negated(ieee::fraction(Format::Double, (-n) as nat, 1)))
    } else {
        double_whole(n as nat)
    }
}

/// `x` in single precision.
pub open spec fn to_single(x: Double) -> Single {
    let p = x.parts();
    if x.nan() {
        single(ieee::not_a_number(Format::Single))
    } else if !p.finite(Format::Double) {
        single(Parts { neg: p.neg, mag: 0x7f80_0000 })
    } else {
        let mag = ieee::nearest(
            Format::Single,
            ieee::units(Format::Double, p.mag as nat),
            pow2(925),
        );
        single(Parts { neg: p.neg, mag: mag as u64 })
    }
}

/// `x` without its fraction, held within the range of `u64`; zero for no number.
pub open spec fn to_u64(x: Double) -> int {
    let whole = ieee::units(Format::Double, x.parts().mag as nat) / pow2(1074);
    if x.nan() || x.parts().neg {
        0
    } else if whole > u64::MAX {
        u64::MAX as int
    } else {
        whole as int
    }
}

/// The whole number nearest to `x`, a tie going away from zero; zero for no
/// number.
pub open spec fn rounded(x: Double) -> int {
    let unit = pow2(1074) as int;
    let n = (2 * ieee::units(Format::Double, x.parts().mag as nat) + unit) / (2 * unit);
    if x.nan() {
        0
    } else if x.parts().neg {
        -n
    } else {
        n
    }
}

/// `n`, or the end of the range `low..=high` that it lies beyond.
pub open spec fn within(n: int, low: int, high: int) -> int {
    if n < low {
        low
    } else if n > high {
        high
    } else {
        n
    }
}

/// `part` in percent of `whole`.
pub open spec fn percent(part: nat, whole: nat) -> Single {
    to_single(
        double_whole(part).quotient(double_whole(whole)).product(double_whole(100)),
    )
}

/// Computes `part` in percent of `whole`.
pub fn percent_of(part: u64, whole: u64) -> (r: Single)
    ensures
        r == percent(part as nat, whole as nat),
{
    Double::whole(part).over(Double::whole(whole)).times(Double::whole(100)).narrowed()
}

/// A span of nanoseconds in seconds.
pub open spec fn seconds(nanos: nat) -> Double {
    double_whole(nanos / 1_000_000_000).sum(
        double_whole(nanos % 1_000_000_000).quotient(double_whole(1_000_000_000)),
    )
}

/// What `amount` in `nanos` nanoseconds, taken as a millisecond at least, comes
/// to in one second, without a fraction.
pub open spec fn rate(amount: nat, nanos: nat) -> int {
    let least = double(ieee::fraction(Format::Double, 1, 1000));
    let span = if seconds(nanos).below(least) {
        least
    } else {
        seconds(nanos)
    };
    to_u64(double_whole(amount).quotient(span))
}

/// Computes what `amount` in `nanos` nanoseconds comes to in one second.
pub fn per_second(amount: u64, nanos: u64) -> (r: u64)
    ensures
        r == rate(amount as nat, nanos as nat),
{
    let least = Double::ratio(1, 1000);
    let exact = Double::whole(nanos / 1_000_000_000).plus(
        Double::whole(nanos % 1_000_000_000).over(Double::whole(1_000_000_000)),
    );
    let span = if exact.is_below(least) {
        least
    } else {
        exact
    };
    Double::whole(amount).over(span).truncated()
}

/// Nothing comes to nothing a second, over any span.
pub proof fn lemma_no_rate_of_nothing(nanos: nat)
    ensures
        rate(0, nanos) == 0,
{
    let f = Format::Double;
    let least = double(ieee::fraction(f, 1, 1000));
    let span = if seconds(nanos).below(least) {
        least
    } else {
        seconds(nanos)
    };
    let zero = double_whole(0);
    ieee::law_rounding_keeps_numbers(f, 0, 1);
    assert(0 * pow2(f.unit()) == 0) by (nonlinear_arith);
    assert(zero.parts() == (Parts { neg: false, mag: 0 }));
    assert(ieee::units(f, 0) == 0);
    lemma_pow2_pos(1074);
    let b = span.parts();
    if !b.nan(f) && b.mag != f.infinity() && b.mag != 0 {
        ieee::lemma_units_increase(f, 0, b.mag as nat);
        let den = ieee::units(f, b.mag as nat);
        assert(0 * den == 0) by (nonlinear_arith);
        ieee::law_rounding_keeps_numbers(f, 0, den);
    }
    assert(0nat / pow2(1074) == 0) by (nonlinear_arith)
        requires
            pow2(1074) > 0,
    ;
}

/// The magnitudes of 1, 100 and 2^64 in double precision, and of 100 in single.
proof fn lemma_magnitudes()
    ensures
        ieee::units(Format::Double, 0x3ff0_0000_0000_0000) == pow2(1074),
        ieee::units(Format::Double, 0x4059_0000_0000_0000) == 100 * pow2(1074),
        ieee::units(Format::Double, 0x43f0_0000_0000_0000) == 0x1_0000_0000_0000_0000 * pow2(1074),
        ieee::units(Format::Single, 0x42c8_0000) == 100 * pow2(149),
{
    lemma2_to64();
    lemma2_to64_rest();
    lemma_pow2_adds(52, 1022);
    lemma_pow2_adds(46, 1028);
    lemma_pow2_adds(52, 1086);
    lemma_pow2_adds(64, 1074);
    lemma_pow2_adds(17, 132);
    let lead = Format::Double.lead();
    assert(0x3ff0_0000_0000_0000nat / lead == 1023 && 0x3ff0_0000_0000_0000nat % lead == 0);
    assert(0x4059_0000_0000_0000nat / lead == 1029 && 0x4059_0000_0000_0000nat % lead
        == 0x9_0000_0000_0000);
    assert(0x43f0_0000_0000_0000nat / lead == 1087 && 0x43f0_0000_0000_0000nat % lead == 0);
    assert(0x42c8_0000nat / 0x80_0000 == 133 && 0x42c8_0000nat % 0x80_0000 == 0x48_0000);
    assert(100 * pow2(46) * pow2(1028) == 100 * (pow2(46) * pow2(1028))) by (nonlinear_arith);
    assert(100 * pow2(17) * pow2(132) == 100 * (pow2(17) * pow2(132))) by (nonlinear_arith);
}

/// The magnitude of 2^64 in double precision.
pub proof fn lemma_two_to_64()
    ensures
        ieee::units(Format::Double, 0x43f0_0000_0000_0000) == 0x1_0000_0000_0000_0000 * pow2(1074),
{
    lemma_magnitudes();
}

/// A part in percent of the whole is between 0 and 100.
pub proof fn law_percent_is_at_most_all(part: nat, whole: nat)
    requires
        0 < whole <= u64::MAX,
        part <= whole,
    ensures
        percent(part, whole).between(0, 100),
{
    let f = Format::Double;
    let one = 0x3ff0_0000_0000_0000nat;
    let hundred = 0x4059_0000_0000_0000nat;
    let unit = pow2(1074);
    lemma_magnitudes();
    lemma_pow2_pos(1074);
    lemma_pow2_pos(925);

    let a = ieee::nearest(f, part * unit, 1);
    let b = ieee::nearest(f, whole * unit, 1);
    assert(part * unit <= whole * unit) by (nonlinear_arith)
        requires
            part <= whole,
    ;
    ieee::law_rounding_is_monotone(f, part * unit, whole * unit, 1);
    assert(whole * unit <= 0x1_0000_0000_0000_0000 * unit) by (nonlinear_arith)
        requires
            whole <= 0x1_0000_0000_0000_0000,
    ;
    ieee::law_rounding_is_bounded(f, whole * unit, 1, 0x43f0_0000_0000_0000);
    assert(unit <= whole * unit) by (nonlinear_arith)
        requires
            1 <= whole,
    ;
    ieee::law_rounding_is_monotone(f, unit, whole * unit, 1);
    ieee::law_rounding_keeps_numbers(f, one, 1);
    assert(ieee::units(f, one) * 1 == unit);
    assert(one <= b);
    assert(double_whole(part).parts() == (Parts { neg: false, mag: a as u64 }));
    assert(double_whole(whole).parts() == (Parts { neg: false, mag: b as u64 }));

    let ua = ieee::units(f, a);
    let ub = ieee::units(f, b);
    if a < b {
        ieee::lemma_units_increase(f, a, b);
    }
    ieee::lemma_units_increase(f, 0, b);
    let q = ieee::nearest(f, ua * unit, ub);
    assert(ua * unit <= unit * ub) by (nonlinear_arith)
        requires
            ua <= ub,
    ;
    ieee::law_rounding_is_bounded(f, ua * unit, ub, one);
    let quotient = double_whole(part).quotient(double_whole(whole));
    assert(quotient.parts() == (Parts { neg: false, mag: q as u64 }));

    ieee::law_rounding_keeps_numbers(f, hundred, 1);
    assert(ieee::units(f, hundred) * 1 == 100 * unit);
    assert(double_whole(100).parts() == (Parts { neg: false, mag: hundred as u64 }));
    let uq = ieee::units(f, q);
    if q < one {
        ieee::lemma_units_increase(f, q, one);
    }
    let r = ieee::nearest(f, uq * (100 * unit), unit);
    assert(uq * (100 * unit) <= (100 * unit) * unit) by (nonlinear_arith)
        requires
            uq <= unit,
    ;
    ieee::law_rounding_is_bounded(f, uq * (100 * unit), unit, hundred);
    let product = quotient.product(double_whole(100));
    assert(product.parts() == (Parts { neg: false, mag: r as u64 }));

    let ur = ieee::units(f, r);
    if r < hundred {
        ieee::lemma_units_increase(f, r, hundred);
    }
    lemma_pow2_adds(149, 925);
    assert(100 * (pow2(149) * pow2(925)) == 100 * pow2(149) * pow2(925)) by (nonlinear_arith);
    ieee::law_rounding_is_bounded(Format::Single, ur, pow2(925), 0x42c8_0000);
    let n = ieee::nearest(Format::Single, ur, pow2(925));
    if n < 0x42c8_0000 {
        ieee::lemma_units_increase(Format::Single, n, 0x42c8_0000);
    }
    assert(percent(part, whole).parts() == (Parts { neg: false, mag: n as u64 }));
    assert(0 * pow2(149) == 0) by (nonlinear_arith);
}

/// The bits of a number: the first one is the sign, the others the magnitude.
pub proof fn law_bits_of_numbers(s: Single, d: Double)
    ensures
        s.bits < 0x8000_0000 ==> s.parts() == (Parts { neg: false, mag: s.bits as u64 }),
        s.bits >= 0x8000_0000 ==> s.parts() == (Parts {
            neg: true,
            mag: (s.bits - 0x8000_0000) as u64,
        }),
        single(s.parts()) == s,
        d.bits < 0x8000_0000_0000_0000 ==> d.parts() == (Parts { neg: false, mag: d.bits }),
        d.bits >= 0x8000_0000_0000_0000 ==> d.parts() == (Parts {
            neg: true,
            mag: (d.bits - 0x8000_0000_0000_0000) as u64,
        }),
        double(d.parts()) == d,
{
}

/// What is asked of a number in single precision is asked of its bits.
pub proof fn law_singles(a: Single, b: Single, low: int, high: int)
    ensures
        a.nan() <==> a.bits % 0x8000_0000 > 0x7f80_0000,
        a.finite() <==> a.bits % 0x8000_0000 < 0x7f80_0000,
        a.bits < 0x8000_0000 ==> a.scaled() == ieee::units(Format::Single, a.bits as nat),
        a.bits >= 0x8000_0000 ==> a.scaled() == -(ieee::units(
            Format::Single,
            (a.bits - 0x8000_0000) as nat,
        ) as int),
        a.nan() || b.nan() ==> !a.below(b) && !a.at_most(b),
        !a.nan() && !b.nan() ==> (a.below(b) <==> a.scaled() < b.scaled()) && (a.at_most(b)
            <==> a.scaled() <= b.scaled()),
        a.between(low, high) <==> !a.nan() && low * pow2(149) <= a.scaled() && a.scaled() <= high
            * pow2(149),
        a.sum(b) == single(ieee::sum(Format::Single, a.parts(), b.parts())),
        a.difference(b) == single(
            ieee::sum(
                Format::Single,
                a.parts(),
                Parts { neg: !b.parts().neg, mag: b.parts().mag },
            ),
        ),
        a.product(b) == single(ieee::product(Format::Single, a.parts(), b.parts())),
        a.quotient(b) == single(ieee::quotient(Format::Single, a.parts(), b.parts())),
{
}

/// What is asked of a number in double precision is asked of its bits.
pub proof fn law_doubles(a: Double, b: Double)
    ensures
        a.nan() <==> a.bits % 0x8000_0000_0000_0000 > 0x7ff0_0000_0000_0000,
        a.nan() || b.nan() ==> !a.below(b) && !a.at_most(b),
        !a.nan() && !b.nan() ==> (a.below(b) <==> a.parts().scaled(Format::Double)
            < b.parts().scaled(Format::Double)) && (a.at_most(b) <==> a.parts().scaled(
            Format::Double,
        ) <= b.parts().scaled(Format::Double)),
        a.sum(b) == double(ieee::sum(Format::Double, a.parts(), b.parts())),
        a.difference(b) == double(
            ieee::sum(
                Format::Double,
                a.parts(),
                Parts { neg: !b.parts().neg, mag: b.parts().mag },
            ),
        ),
        a.product(b) == double(ieee::product(Format::Double, a.parts(), b.parts())),
        a.quotient(b) == double(ieee::quotient(Format::Double, a.parts(), b.parts())),
{
}

/// Whole numbers that fit are kept: up to 2^24 in single precision, up to 2^53 in double
/// precision, above and below zero.
pub proof fn law_whole_numbers_are_kept(n: int)
    ensures
        0 <= n <= 0x100_0000 ==> single_whole(n as nat).finite() && single_whole(n as nat).scaled()
            == n * pow2(149),
        0 <= n <= 0x20_0000_0000_0000 ==> double_whole(n as nat).parts().scaled(Format::Double) == n
            * pow2(1074),
        -0x20_0000_0000_0000 <= n <= 0x20_0000_0000_0000 ==> double_int(n).parts().scaled(
            Format::Double,
        ) == n * pow2(1074),
{
    if 0 <= n <= 0x100_0000 {
        lemma_small_whole(n as nat);
    }
    if 0 <= n <= 0x20_0000_0000_0000 {
        lemma_whole_double(n as nat);
    }
    if -0x20_0000_0000_0000 <= n < 0 {
        lemma_whole_double((-n) as nat);
        let p = ieee::fraction(Format::Double, (-n) as nat, 1);
        ieee::law_rounding_overflows(Format::Double, (-n) as nat * pow2(1074), 1);
        assert(double(p).parts() == p);
        assert(double(ieee::negated(p)).parts() == ieee::negated(p));
        assert((-n) * pow2(1074) == -(n * pow2(1074))) by (nonlinear_arith);
    }
}

/// The whole number nearest to a fraction is off by half at most, and even where it is off
/// by half.
pub proof fn law_nearest_whole_number(num: nat, den: nat)
    requires
        den > 0,
    ensures
        2 * (half_even(num, den) * den) <= 2 * num + den,
        2 * num <= 2 * (half_even(num, den) * den) + den,
        2 * (half_even(num, den) * den) == 2 * num + den || 2 * num == 2 * (half_even(num, den)
            * den) + den ==> half_even(num, den) % 2 == 0,
{
    let whole = num / den;
    let rest = num % den;
    vstd::arithmetic::div_mod::lemma_fundamental_div_mod(num as int, den as int);
    assert(whole * den == den * whole) by (nonlinear_arith);
    assert((whole + 1) * den == whole * den + den) by (nonlinear_arith);
}

/// What a number is written as: `NaN` where it is none, `inf` with its sign where it is an
/// infinity, else its sign and the digits of the nearest whole number, or of the nearest
/// number of tenths with a point before the last digit. Of two that are as near it is the
/// even one.
pub proof fn law_written_numbers(x: Single)
    ensures
        x.nan() ==> fixed(x, false) == "NaN"@ && fixed(x, true) == "NaN"@,
        ({
            let sign = if x.bits >= 0x8000_0000 {
                seq!['-']
            } else {
                Seq::empty()
            };
            let size = if x.scaled() < 0 {
                -x.scaled()
            } else {
                x.scaled()
            };
            &&& !x.nan() && !x.finite() ==> fixed(x, false) == sign + "inf"@ && fixed(x, true)
                == sign + "inf"@
            &&& x.finite() ==> exists|n: nat|
                {
                    &&& fixed(x, false) == sign + #[trigger] text::decimal(n)
                    &&& 2 * (n * pow2(149)) <= 2 * size + pow2(149)
                    &&& 2 * size <= 2 * (n * pow2(149)) + pow2(149)
                    &&& 2 * (n * pow2(149)) == 2 * size + pow2(149) || 2 * size == 2 * (n * pow2(
                        149,
                    )) + pow2(149) ==> n % 2 == 0
                }
            &&& x.finite() ==> exists|n: nat|
                {
                    &&& fixed(x, true) == sign + #[trigger] text::decimal(n / 10) + "."@
                        + text::decimal(n % 10)
                    &&& 2 * (n * pow2(149)) <= 20 * size + pow2(149)
                    &&& 20 * size <= 2 * (n * pow2(149)) + pow2(149)
                    &&& 2 * (n * pow2(149)) == 20 * size + pow2(149) || 20 * size == 2 * (n * pow2(
                        149,
                    )) + pow2(149) ==> n % 2 == 0
                }
        }),
{
    if x.finite() {
        let u = ieee::units(Format::Single, x.parts().mag as nat);
        lemma_pow2_pos(149);
        law_nearest_whole_number(u, pow2(149));
        law_nearest_whole_number(u * 10, pow2(149));
        let n = half_even(u, pow2(149));
        let t = half_even(u * 10, pow2(149));
        let sign = if x.bits >= 0x8000_0000 {
            seq!['-']
        } else {
            Seq::empty()
        };
        assert(fixed(x, false) == sign + text::decimal(n));
        assert(text::decimal(t % 10) =~= seq![text::digit_char(t % 10)]);
        assert(fixed(x, true) == sign + text::decimal(t / 10) + "."@ + text::decimal(t % 10));
    }
}

/// A text of a sign or none, digits, and perhaps a point and digits, of which there is one
/// at least, writes a number: the one nearest to all the digits, divided by ten for each
/// of them after the point, below zero where the sign is a minus.
pub proof fn law_written_decimals(sign: Seq<char>, whole: Seq<char>, after: Seq<char>)
    requires
        sign.len() == 0 || sign == seq!['-'] || sign == seq!['+'],
        text::all_digits(whole),
        text::all_digits(after),
        whole.len() + after.len() > 0,
    ensures
        whole.len() > 0 ==> decimal_number(sign + whole) == Some(
            single(
                Parts {
                    neg: sign == seq!['-'],
                    mag: ieee::nearest(
                        Format::Single,
                        text::digits_value(whole) * pow2(149),
                        1,
                    ) as u64,
                },
            ),
        ),
        decimal_number(sign + (whole + seq!['.'] + after)) == Some(
            single(
                Parts {
                    neg: sign == seq!['-'],
                    mag: ieee::nearest(
                        Format::Single,
                        text::digits_value(whole + after) * pow2(149),
                        pow(10, after.len()) as nat,
                    ) as u64,
                },
            ),
        ),
{
    let pointed = whole + seq!['.'] + after;
    assert forall|i: int| 0 <= i < whole.len() implies whole[i] != '.' && whole[i] != '-'
        && whole[i] != '+' by {
        assert(text::is_digit(whole[i]));
    }
    assert forall|i: int| 0 <= i < whole.len() implies pointed[i] != '.' by {
        assert(pointed[i] == whole[i]);
    }
    assert(pointed[whole.len() as int] == '.');
    text::lemma_first_position(pointed, '.', whole.len() as int);
    text::lemma_first_position(whole, '.', whole.len() as int);
    assert(pointed.take(whole.len() as int) + pointed.skip(whole.len() as int + 1) =~= whole + after);
    assert(text::all_digits(whole + after)) by {
        assert forall|i: int| 0 <= i < (whole + after).len() implies text::is_digit(
            #[trigger] (whole + after)[i],
        ) by {
            if i < whole.len() {
                assert((whole + after)[i] == whole[i]);
            } else {
                assert((whole + after)[i] == after[i - whole.len()]);
            }
        }
    }
    if sign.len() == 0 {
        assert(sign + whole =~= whole);
        assert(sign + pointed =~= pointed);
        assert(sign != seq!['-']);
        if whole.len() > 0 {
            assert(pointed[0] == whole[0]);
        }
    } else {
        assert((sign + whole).drop_first() =~= whole);
        assert((sign + pointed).drop_first() =~= pointed);
        assert((sign + whole)[0] == sign[0]);
        assert((sign + pointed)[0] == sign[0]);
        if sign == seq!['+'] {
            assert(seq!['+'][0] == '+' && seq!['-'][0] == '-');
        }
    }
    lemma_pow0(10);
}

/// Only such texts write a number.
pub proof fn law_only_decimals_are_numbers(s: Seq<char>)
    requires
        decimal_number(s) is Some,
    ensures
        exists|sign: Seq<char>, whole: Seq<char>, after: Seq<char>|
            {
                &&& sign.len() == 0 || sign == seq!['-'] || sign == seq!['+']
                &&& text::all_digits(whole) && text::all_digits(after)
                &&& whole.len() + after.len() > 0
                &&& s == sign + whole || s == #[trigger] (sign + (whole + seq!['.'] + after))
            },
{
    let signed = s.len() > 0 && (s[0] == '-' || s[0] == '+');
    let sign = if signed {
        seq![s[0]]
    } else {
        Seq::empty()
    };
    let body = if signed {
        s.drop_first()
    } else {
        s
    };
    assert(sign + body =~= s);
    let point = text::position(body, '.');
    text::lemma_position(body, '.');
    if point < body.len() {
        let whole = body.take(point);
        let after = body.skip(point + 1);
        let digits = whole + after;
        assert forall|i: int| 0 <= i < whole.len() implies text::is_digit(#[trigger] whole[i]) by {
            assert(digits[i] == whole[i]);
        }
        assert forall|i: int| 0 <= i < after.len() implies text::is_digit(#[trigger] after[i]) by {
            assert(digits[i + whole.len()] == after[i]);
        }
        assert(whole + seq!['.'] + after =~= body);
        assert(s == sign + (whole + seq!['.'] + after));
    } else {
        let after = Seq::<char>::empty();
        assert(text::all_digits(after));
        assert(s == sign + body);
        let t = sign + (body + seq!['.'] + after);
        assert(t == sign + (body + seq!['.'] + after));
    }
}

/// A number without its fraction: none for a number below zero and for what is none, and
/// never more than the largest `u64`.
pub proof fn law_without_its_fraction(x: Double)
    ensures
        x.nan() || x.bits >= 0x8000_0000_0000_0000 ==> to_u64(x) == 0,
        !x.nan() && x.bits < 0x8000_0000_0000_0000 ==> {
            let n = to_u64(x);
            let u = ieee::units(Format::Double, x.bits as nat);
            &&& 0 <= n <= u64::MAX
            &&& n * pow2(1074) <= u
            &&& n < u64::MAX ==> u < (n + 1) * pow2(1074)
        },
{
    if !x.nan() && x.bits < 0x8000_0000_0000_0000 {
        let u = ieee::units(Format::Double, x.bits as nat);
        let p = pow2(1074);
        lemma_pow2_pos(1074);
        vstd::arithmetic::div_mod::lemma_fundamental_div_mod(u as int, p as int);
        let all = u / p;
        assert(all * p <= u < (all + 1) * p) by (nonlinear_arith)
            requires
                u == p * all + u % p,
                0 <= u % p < p,
        ;
        if all > u64::MAX {
            assert(u64::MAX * p <= all * p) by (nonlinear_arith)
                requires
                    u64::MAX < all,
            ;
        }
    }
}

/// The whole number nearest to a number is off by half at most, and lies away from zero
/// where it is off by half. It is zero for what is no number.
pub proof fn law_to_the_nearest_whole(x: Double)
    ensures
        x.nan() ==> rounded(x) == 0,
        !x.nan() && x.bits < 0x8000_0000_0000_0000 ==> {
            let u = x.parts().scaled(Format::Double);
            &&& (2 * rounded(x) - 1) * pow2(1074) <= 2 * u
            &&& 2 * u < (2 * rounded(x) + 1) * pow2(1074)
        },
        !x.nan() && x.bits >= 0x8000_0000_0000_0000 ==> {
            let u = x.parts().scaled(Format::Double);
            &&& (2 * rounded(x) - 1) * pow2(1074) < 2 * u
            &&& 2 * u <= (2 * rounded(x) + 1) * pow2(1074)
        },
{
    let u = ieee::units(Format::Double, x.parts().mag as nat) as int;
    let p = pow2(1074) as int;
    lemma_pow2_pos(1074);
    let n = (2 * u + p) / (2 * p);
    vstd::arithmetic::div_mod::lemma_fundamental_div_mod(2 * u + p, 2 * p);
    vstd::arithmetic::div_mod::lemma_mod_bound(2 * u + p, 2 * p);
    assert((2 * n - 1) * p <= 2 * u < (2 * n + 1) * p) by (nonlinear_arith)
        requires
            2 * u + p == (2 * p) * n + (2 * u + p) % (2 * p),
            0 <= (2 * u + p) % (2 * p) < 2 * p,
    ;
    assert((2 * (-n) - 1) * p == -((2 * n + 1) * p)) by (nonlinear_arith);
    assert((2 * (-n) + 1) * p == -((2 * n - 1) * p)) by (nonlinear_arith);
}

/// A number held in a range is itself there, and the end of the range that it lies beyond
/// elsewhere.
pub proof fn law_held_in_a_range(n: int, low: int, high: int)
    ensures
        n < low ==> within(n, low, high) == low,
        low <= n <= high ==> within(n, low, high) == n,
        low <= n && n > high ==> within(n, low, high) == high,
{
}

/// A number in single precision is the nearest one of the same sign.
pub proof fn law_in_single_precision(x: Double)
    ensures
        x.nan() ==> to_single(x).nan(),
        x.parts().mag == 0x7ff0_0000_0000_0000 ==> to_single(x).parts() == (Parts {
            neg: x.parts().neg,
            mag: 0x7f80_0000,
        }),
        x.parts().mag < 0x7ff0_0000_0000_0000 ==> to_single(x).parts() == (Parts {
            neg: x.parts().neg,
            mag: ieee::nearest(
                Format::Single,
                ieee::units(Format::Double, x.parts().mag as nat),
                pow2(925),
            ) as u64,
        }),
{
    lemma_pow2_pos(925);
    ieee::law_rounding_overflows(
        Format::Single,
        ieee::units(Format::Double, x.parts().mag as nat),
        pow2(925),
    );
}

/// A whole number is the fraction of itself and one, below zero with its sign.
pub proof fn law_whole_numbers(n: nat)
    ensures
        single_whole(n) == single(ieee::fraction(Format::Single, n, 1)),
        double_whole(n) == double(ieee::fraction(Format::Double, n, 1)),
        double_int(n as int) == double_whole(n),
        n > 0 ==> double_int(-(n as int)) == double(
            Parts { neg: true, mag: double_whole(n).parts().mag },
        ),
{
    ieee::law_rounding_overflows(Format::Double, n * pow2(1074), 1);
}

} // verus!
