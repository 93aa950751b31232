//! Binary floating-point numbers of IEEE 754, held as a sign and a magnitude.
//!
//! Every finite number of a format is a whole multiple of the format's smallest
//! positive number, its unit. An operation is computed exactly and then rounded
//! to the nearest number of the format, a tie going to the even magnitude.

use crate::bignat::{BigNat, Side};
use vstd::arithmetic::power2::*;
use vstd::prelude::*;

verus! {

/// The two interchange formats in use.
#[derive(Clone, Copy, PartialEq, Eq, Structural, Debug)]
pub enum Format {
    Single,
    Double,
}

impl Format {
    /// The weight of the leading bit of a significand.
    pub open spec fn lead(self) -> nat {
        match self {
            Format::Single => 0x80_0000,
            Format::Double => 0x10_0000_0000_0000,
        }
    }

    /// The magnitude of the infinities; the magnitudes above are not numbers.
    pub open spec fn infinity(self) -> nat {
        match self {
            Format::Single => 0x7f80_0000,
            Format::Double => 0x7ff0_0000_0000_0000,
        }
    }

    /// The unit of the format is two to the power of minus this.
    pub open spec fn unit(self) -> nat {
        match self {
            Format::Single => 149,
            Format::Double => 1074,
        }
    }

    pub fn lead_bit(self) -> (r: u64)
        ensures
            r == self.lead(),
    {
        match self {
            Format::Single => 0x80_0000,
            Format::Double => 0x10_0000_0000_0000,
        }
    }

    pub fn infinity_mag(self) -> (r: u64)
        ensures
            r == self.infinity(),
    {
        match self {
            Format::Single => 0x7f80_0000,
            Format::Double => 0x7ff0_0000_0000_0000,
        }
    }

    pub fn unit_shift(self) -> (r: u32)
        ensures
            r == self.unit(),
    {
        match self {
            Format::Single => 149,
            Format::Double => 1074,
        }
    }
}

/// How many units the magnitude `mag` amounts to. The infinity counts as the
/// number that would follow the largest finite one.
pub open spec fn units(f: Format, mag: nat) -> nat {
    if mag < f.lead() {
        mag
    } else {
        (mag % f.lead() + f.lead()) * pow2((mag / f.lead() - 1) as nat)
    }
}

proof fn lemma_units_step(f: Format, mag: nat)
    ensures
        units(f, mag) < units(f, mag + 1),
{
    lemma2_to64();
    let lead = f.lead();
    if mag + 1 < lead {
    } else if mag + 1 == lead {
        assert((mag + 1) / lead == 1);
        assert((mag + 1) % lead == 0);
        assert(lead * pow2(0) == lead);
    } else {
        let q = mag / lead;
        let h = mag % lead;
        let p = pow2((q - 1) as nat);
        lemma_pow2_pos((q - 1) as nat);
        if h + 1 < lead {
            assert((mag + 1) / lead == q);
            assert((mag + 1) % lead == h + 1);
            assert((h + lead) * p < (h + 1 + lead) * p) by (nonlinear_arith)
                requires
                    p > 0,
            ;
        } else {
            assert((mag + 1) / lead == q + 1);
            assert((mag + 1) % lead == 0);
            lemma_pow2_unfold(q);
            assert((h + lead) * p < lead * (2 * p)) by (nonlinear_arith)
                requires
                    p > 0,
                    h + 1 == lead,
            ;
        }
    }
}

/// A larger magnitude amounts to more units.
pub proof fn lemma_units_increase(f: Format, a: nat, b: nat)
    requires
        a < b,
    ensures
        units(f, a) < units(f, b),
    decreases b - a,
{
    lemma_units_step(f, a);
    if a + 1 < b {
        lemma_units_increase(f, a + 1, b);
    }
}

/// Whether `num / den` units round to the magnitude `mag` or to a larger one:
/// they lie beyond the middle between `mag` and the magnitude before it, or on
/// that middle with `mag` even.
pub open spec fn reaches(f: Format, num: nat, den: nat, mag: nat) -> bool {
    ||| mag == 0
    ||| 2 * num > (units(f, (mag - 1) as nat) + units(f, mag)) * den
    ||| 2 * num == (units(f, (mag - 1) as nat) + units(f, mag)) * den && mag % 2 == 0
}

/// Whether `mag` is the magnitude nearest to `num / den` units, ties to even,
/// and the infinity where that lies beyond the largest finite number.
pub open spec fn rounds_to(f: Format, num: nat, den: nat, mag: nat) -> bool {
    &&& mag <= f.infinity()
    &&& reaches(f, num, den, mag)
    &&& mag < f.infinity() ==> !reaches(f, num, den, mag + 1)
}

/// The magnitude nearest to `num / den` units.
pub open spec fn nearest(f: Format, num: nat, den: nat) -> nat {
    choose|mag: nat| rounds_to(f, num, den, mag)
}

proof fn lemma_reaches_below(f: Format, num: nat, den: nat, a: nat, b: nat)
    requires
        den > 0,
        a <= b,
        reaches(f, num, den, b),
    ensures
        reaches(f, num, den, a),
{
    if 0 < a < b {
        lemma_units_increase(f, (a - 1) as nat, (b - 1) as nat);
        lemma_units_increase(f, a, b);
        let x = units(f, (a - 1) as nat) + units(f, a);
        let y = units(f, (b - 1) as nat) + units(f, b);
        assert(x * den < y * den) by (nonlinear_arith)
            requires
                x < y,
                den > 0,
        ;
    }
}

/// At most one magnitude is the nearest.
pub proof fn law_rounding_is_unique(f: Format, num: nat, den: nat, mag: nat)
    requires
        den > 0,
        rounds_to(f, num, den, mag),
    ensures
        nearest(f, num, den) == mag,
{
    let other = nearest(f, num, den);
    assert(rounds_to(f, num, den, other));
    if other < mag {
        lemma_reaches_below(f, num, den, other + 1, mag);
    } else if mag < other {
        lemma_reaches_below(f, num, den, mag + 1, other);
    }
}

proof fn lemma_largest_reached(f: Format, num: nat, den: nat, high: nat)
    ensures
        exists|mag: nat|
            mag <= high && #[trigger] reaches(f, num, den, mag) && (mag < high ==> !reaches(
                f,
                num,
                den,
                mag + 1,
            )),
    decreases high,
{
    if !reaches(f, num, den, high) {
        lemma_largest_reached(f, num, den, (high - 1) as nat);
        let mag = choose|mag: nat|
            mag <= high - 1 && #[trigger] reaches(f, num, den, mag) && (mag < high - 1
                ==> !reaches(f, num, den, mag + 1));
        assert(mag <= high && reaches(f, num, den, mag));
    }
}

/// Every fraction has a nearest magnitude.
pub proof fn law_rounding_exists(f: Format, num: nat, den: nat)
    ensures
        rounds_to(f, num, den, nearest(f, num, den)),
{
    lemma_largest_reached(f, num, den, f.infinity());
    let mag = choose|mag: nat|
        mag <= f.infinity() && #[trigger] reaches(f, num, den, mag) && (mag < f.infinity()
            ==> !reaches(f, num, den, mag + 1));
    assert(rounds_to(f, num, den, mag));
}

/// A larger number does not round to a smaller magnitude.
pub proof fn law_rounding_is_monotone(f: Format, small: nat, large: nat, den: nat)
    requires
        den > 0,
        small <= large,
    ensures
        nearest(f, small, den) <= nearest(f, large, den),
{
    law_rounding_exists(f, small, den);
    law_rounding_exists(f, large, den);
    let a = nearest(f, small, den);
    let b = nearest(f, large, den);
    if a > b {
        assert(reaches(f, large, den, a));
        lemma_reaches_below(f, large, den, b + 1, a);
    }
}

/// What is at most a number rounds to at most that number.
pub proof fn law_rounding_is_bounded(f: Format, num: nat, den: nat, mag: nat)
    requires
        den > 0,
        mag <= f.infinity(),
        num <= units(f, mag) * den,
    ensures
        nearest(f, num, den) <= mag,
{
    law_rounding_is_monotone(f, num, units(f, mag) * den, den);
    law_rounding_keeps_numbers(f, mag, den);
}

/// From a magnitude to the next one it is a unit, or a part of the leading bit's size.
proof fn lemma_gap(f: Format, mag: nat)
    ensures
        (units(f, mag + 1) - units(f, mag)) * f.lead() <= f.lead() + units(f, mag),
{
    lemma2_to64();
    let lead = f.lead();
    if mag + 1 < lead {
    } else if mag + 1 == lead {
        assert((mag + 1) / lead == 1);
        assert((mag + 1) % lead == 0);
        assert(lead * pow2(0) == lead);
    } else {
        let q = mag / lead;
        let h = mag % lead;
        let p = pow2((q - 1) as nat);
        if h + 1 < lead {
            assert((mag + 1) / lead == q);
            assert((mag + 1) % lead == h + 1);
            assert((h + 1 + lead) * p - (h + lead) * p == p) by (nonlinear_arith);
        } else {
            assert((mag + 1) / lead == q + 1);
            assert((mag + 1) % lead == 0);
            lemma_pow2_unfold(q);
            assert(lead * (2 * p) - (h + lead) * p == p) by (nonlinear_arith)
                requires
                    h + 1 == lead,
            ;
        }
        assert(p * lead <= (h + lead) * p) by (nonlinear_arith)
            requires
                h >= 0,
                p >= 0,
        ;
    }
}

/// Rounding to a finite number is off by half a unit at most, or by half the last bit.
pub proof fn law_rounding_error(f: Format, num: nat, den: nat)
    requires
        den > 0,
        nearest(f, num, den) < f.infinity(),
    ensures
        ({
            let u = units(f, nearest(f, num, den));
            &&& 2 * f.lead() * (num - u * den) <= (f.lead() + u) * den
            &&& 2 * f.lead() * (u * den - num) <= (f.lead() + u) * den
        }),
{
    law_rounding_exists(f, num, den);
    let m = nearest(f, num, den);
    let u = units(f, m);
    let lead = f.lead();
    lemma_gap(f, m);
    let up = units(f, m + 1) - u;
    assert(2 * lead * (num - u * den) <= (lead + u) * den) by (nonlinear_arith)
        requires
            2 * num <= (u + (u + up)) * den,
            up * lead <= lead + u,
            lead > 0,
            den > 0,
    ;
    if m == 0 {
        assert(u == 0);
        assert(2 * lead * (u * den - num) <= (lead + u) * den) by (nonlinear_arith)
            requires
                u == 0,
                lead > 0,
                den > 0,
        ;
    } else {
        let below = units(f, (m - 1) as nat);
        lemma_units_step(f, (m - 1) as nat);
        lemma_gap(f, (m - 1) as nat);
        assert(2 * lead * (u * den - num) <= (lead + u) * den) by (nonlinear_arith)
            requires
                2 * num >= (below + u) * den,
                (u - below) * lead <= lead + below,
                below < u,
                lead > 0,
                den > 0,
        ;
    }
}

/// A whole number of units is its own nearest magnitude.
pub proof fn law_rounding_keeps_numbers(f: Format, mag: nat, den: nat)
    requires
        den > 0,
        mag <= f.infinity(),
    ensures
        nearest(f, units(f, mag) * den, den) == mag,
{
    let num = units(f, mag) * den;
    if mag > 0 {
        lemma_units_step(f, (mag - 1) as nat);
        let below = units(f, (mag - 1) as nat);
        assert(2 * num > (below + units(f, mag)) * den) by (nonlinear_arith)
            requires
                num == units(f, mag) * den,
                below < units(f, mag),
                den > 0,
        ;
    }
    lemma_units_step(f, mag);
    let above = units(f, mag + 1);
    assert(2 * num < (units(f, mag) + above) * den) by (nonlinear_arith)
        requires
            num == units(f, mag) * den,
            units(f, mag) < above,
            den > 0,
    ;
    assert(rounds_to(f, num, den, mag));
    law_rounding_is_unique(f, num, den, mag);
}

/// The units of a magnitude.
pub fn units_of(f: Format, mag: u64) -> (r: BigNat)
    requires
        mag <= f.infinity(),
    ensures
        r@ == units(f, mag as nat),
{
    let lead = f.lead_bit();
    if mag < lead {
        BigNat::from_u64(mag)
    } else {
        BigNat::from_u64(mag % lead + lead).shifted((mag / lead - 1) as u32)
    }
}

/// Twice the middle between the magnitude before `mag` and `mag`, times `den`.
fn middle(f: Format, mag: u64, den: &BigNat) -> (r: BigNat)
    requires
        0 < mag <= f.infinity(),
    ensures
        r@ == (units(f, (mag - 1) as nat) + units(f, mag as nat)) * den@,
{
    let lead = f.lead_bit();
    proof {
        lemma2_to64();
    }
    if mag <= lead {
        proof {
            assert(mag == lead ==> mag / lead == 1 && mag % lead == 0);
            assert(lead * pow2(0) == lead);
        }
        assert(den@ * (2 * mag - 1) + 0 == (units(f, (mag - 1) as nat) + units(f, mag as nat))
            * den@) by (nonlinear_arith)
            requires
                units(f, (mag - 1) as nat) + units(f, mag as nat) == 2 * mag - 1,
        ;
        den.times_plus(2 * mag - 1, 0)
    } else {
        let e = (mag / lead - 1) as u32;
        let h = mag % lead;
        let ghost p = pow2(e as nat);
        if h > 0 {
            proof {
                assert((mag - 1) as nat / f.lead() == mag / lead);
                assert((mag - 1) as nat % f.lead() == h - 1);
                let s = units(f, (mag - 1) as nat) + units(f, mag as nat);
                let m = 2 * (h + lead) - 1;
                assert(s == m * p) by (nonlinear_arith)
                    requires
                        s == (h - 1 + lead) * p + (h + lead) * p,
                        m == 2 * (h + lead) - 1,
                ;
                assert((den@ * m + 0) * p == s * den@) by (nonlinear_arith)
                    requires
                        s == m * p,
                ;
            }
            den.times_plus(2 * (h + lead) - 1, 0).shifted(e)
        } else {
            proof {
                assert((mag - 1) as nat / f.lead() == mag / lead - 1);
                assert((mag - 1) as nat % f.lead() == lead - 1);
                lemma_pow2_unfold(e as nat);
                let half = pow2((e - 1) as nat);
                let s = units(f, (mag - 1) as nat) + units(f, mag as nat);
                let m = 4 * lead - 1;
                assert(s == m * half) by (nonlinear_arith)
                    requires
                        s == (lead - 1 + lead) * half + lead * p,
                        p == 2 * half,
                        m == 4 * lead - 1,
                ;
                assert((den@ * m + 0) * half == s * den@) by (nonlinear_arith)
                    requires
                        s == m * half,
                ;
            }
            den.times_plus(4 * lead - 1, 0).shifted(e - 1)
        }
    }
}

/// Rounds `num / den` units to the nearest magnitude.
pub fn round(f: Format, num: &BigNat, den: &BigNat) -> (r: u64)
    requires
        den@ > 0,
    ensures
        r <= f.infinity(),
        r == nearest(f, num@, den@),
        rounds_to(f, num@, den@, r as nat),
{
    let twice = num.times_plus(2, 0);
    let mut low: u64 = 0;
    let mut high: u64 = f.infinity_mag() + 1;
    while low + 1 < high
        invariant
            den@ > 0,
            twice@ == 2 * num@,
            low < high <= f.infinity() + 1,
            reaches(f, num@, den@, low as nat),
            high <= f.infinity() ==> !reaches(f, num@, den@, high as nat),
        decreases high - low,
    {
        let mid = low + (high - low) / 2;
        let bound = middle(f, mid, den);
        let side = twice.compare(&bound);
        let reached = match side {
            Side::Above => true,
            Side::Equal => mid % 2 == 0,
            Side::Below => false,
        };
        if reached {
            low = mid;
        } else {
            high = mid;
        }
    }
    proof {
        law_rounding_is_unique(f, num@, den@, low as nat);
    }
    low
}

/// The largest whole number that `units(f, mag) / 2^k` holds, and the largest
/// `u128` where that is larger still.
pub open spec fn whole_part(f: Format, mag: nat, k: nat) -> nat {
    let whole = units(f, mag) / pow2(k);
    if whole <= u128::MAX {
        whole
    } else {
        u128::MAX as nat
    }
}

/// `n * 2^k`, or the largest `u128` where that is larger.
pub fn doubled(n: u64, k: u32) -> (r: u128)
    ensures
        r == (if n * pow2(k as nat) <= u128::MAX {
            n * pow2(k as nat)
        } else {
            u128::MAX as int
        }),
{
    let mut r: u128 = n as u128;
    let mut i: u32 = 0;
    proof {
        lemma2_to64();
        assert(n * pow2(0) == n);
    }
    while i < k
        invariant
            i <= k,
            r == n * pow2(i as nat),
        decreases k - i,
    {
        proof {
            lemma_pow2_unfold((i + 1) as nat);
            assert(n * (2 * pow2(i as nat)) == 2 * (n * pow2(i as nat))) by (nonlinear_arith);
            lemma_pow2_adds((i + 1) as nat, (k - i - 1) as nat);
            lemma_pow2_pos((k - i - 1) as nat);
            let a = pow2((i + 1) as nat);
            let b = pow2((k - i - 1) as nat);
            assert((i + 1) as nat + (k - i - 1) as nat == k);
            assert(n * a <= n * (a * b)) by (nonlinear_arith)
                requires
                    b >= 1,
            ;
        }
        if r > u128::MAX / 2 {
            return u128::MAX;
        }
        r = r * 2;
        i = i + 1;
    }
    r
}

/// `n / 2^k` without its fraction.
fn halved(n: u64, k: u32) -> (r: u64)
    ensures
        r == n as nat / pow2(k as nat),
{
    let mut r: u64 = n;
    let mut i: u32 = 0;
    proof {
        lemma2_to64();
    }
    while i < k
        invariant
            i <= k,
            r == n as nat / pow2(i as nat),
        decreases k - i,
    {
        proof {
            lemma_pow2_unfold((i + 1) as nat);
            lemma_pow2_pos(i as nat);
            vstd::arithmetic::div_mod::lemma_div_denominator(
                n as int,
                pow2(i as nat) as int,
                2,
            );
            assert(pow2(i as nat) * 2 == pow2((i + 1) as nat));
        }
        r = r / 2;
        i = i + 1;
    }
    r
}

/// The whole part of `units(f, mag) / 2^k`.
pub fn whole(f: Format, mag: u64, k: u32) -> (r: u128)
    requires
        mag <= f.infinity(),
    ensures
        r == whole_part(f, mag as nat, k as nat),
{
    let lead = f.lead_bit();
    let (m, e): (u64, u32) = if mag < lead {
        (mag, 0)
    } else {
        (mag % lead + lead, (mag / lead - 1) as u32)
    };
    proof {
        lemma2_to64();
        assert(mag < lead ==> m * pow2(0) == mag);
        assert(m * pow2(e as nat) == units(f, mag as nat));
        lemma_pow2_pos(k as nat);
        lemma_pow2_pos(e as nat);
    }
    if e >= k {
        proof {
            lemma_pow2_adds((e - k) as nat, k as nat);
            let a = pow2((e - k) as nat);
            let b = pow2(k as nat);
            assert(m * (a * b) == (m * a) * b) by (nonlinear_arith);
            vstd::arithmetic::div_mod::lemma_div_by_multiple(m * a, b as int);
        }
        doubled(m, e - k)
    } else {
        proof {
            lemma_pow2_adds((k - e) as nat, e as nat);
            lemma_pow2_pos((k - e) as nat);
            let a = pow2((k - e) as nat);
            let b = pow2(e as nat);
            vstd::arithmetic::div_mod::lemma_div_multiples_vanish_quotient(
                b as int,
                m as int,
                a as int,
            );
            assert(b * m == m * b) by (nonlinear_arith);
            assert(b * a == a * b) by (nonlinear_arith);
            vstd::arithmetic::div_mod::lemma_div_nonincreasing(m as int, a as int);
        }
        halved(m, k - e) as u128
    }
}

/// A number, an infinity or no number, by its sign and its magnitude.
#[derive(Clone, Copy, PartialEq, Eq, Structural, Debug)]
pub struct Parts {
    pub neg: bool,
    pub mag: u64,
}

impl Parts {
    /// Whether this is no number.
    pub open spec fn nan(self, f: Format) -> bool {
        self.mag > f.infinity()
    }

    pub open spec fn finite(self, f: Format) -> bool {
        self.mag < f.infinity()
    }

    /// The number of units, below zero for a negative number.
    pub open spec fn scaled(self, f: Format) -> int {
        if self.neg {
            -(units(f, self.mag as nat) as int)
        } else {
            units(f, self.mag as nat) as int
        }
    }
}

/// The quiet value that stands for no number.
pub open spec fn not_a_number(f: Format) -> Parts {
    Parts { neg: false, mag: (f.infinity() + f.lead() / 2) as u64 }
}

/// `a < b`; false where either is no number.
pub open spec fn below(f: Format, a: Parts, b: Parts) -> bool {
    !a.nan(f) && !b.nan(f) && a.scaled(f) < b.scaled(f)
}

/// `a <= b`; false where either is no number.
pub open spec fn at_most(f: Format, a: Parts, b: Parts) -> bool {
    !a.nan(f) && !b.nan(f) && a.scaled(f) <= b.scaled(f)
}

/// `a + b`.
pub open spec fn sum(f: Format, a: Parts, b: Parts) -> Parts {
    if a.nan(f) || b.nan(f) {
        not_a_number(f)
    } else if a.mag == f.infinity() {
        if b.mag == f.infinity() && a.neg != b.neg {
            not_a_number(f)
        } else {
            a
        }
    } else if b.mag == f.infinity() {
        b
    } else {
        let exact = a.scaled(f) + b.scaled(f);
        if exact == 0 {
            Parts { neg: a.neg && b.neg, mag: 0 }
        } else if exact < 0 {
            Parts { neg: true, mag: nearest(f, (-exact) as nat, 1) as u64 }
        } else {
            Parts { neg: false, mag: nearest(f, exact as nat, 1) as u64 }
        }
    }
}

pub open spec fn negated(a: Parts) -> Parts {
    Parts { neg: !a.neg, mag: a.mag }
}

/// `a * b`.
pub open spec fn product(f: Format, a: Parts, b: Parts) -> Parts {
    let neg = a.neg != b.neg;
    if a.nan(f) || b.nan(f) {
        not_a_number(f)
    } else if a.mag == f.infinity() || b.mag == f.infinity() {
        if a.mag == 0 || b.mag == 0 {
            not_a_number(f)
        } else {
            Parts { neg, mag: f.infinity() as u64 }
        }
    } else {
        Parts {
            neg,
            mag: nearest(
                f,
                units(f, a.mag as nat) * units(f, b.mag as nat),
                pow2(f.unit()),
            ) as u64,
        }
    }
}

/// `a / b`.
pub open spec fn quotient(f: Format, a: Parts, b: Parts) -> Parts {
    let neg = a.neg != b.neg;
    if a.nan(f) || b.nan(f) {
        not_a_number(f)
    } else if a.mag == f.infinity() {
        if b.mag == f.infinity() {
            not_a_number(f)
        } else {
            Parts { neg, mag: f.infinity() as u64 }
        }
    } else if b.mag == f.infinity() {
        Parts { neg, mag: 0 }
    } else if b.mag == 0 {
        if a.mag == 0 {
            not_a_number(f)
        } else {
            Parts { neg, mag: f.infinity() as u64 }
        }
    } else {
        Parts {
            neg,
            mag: nearest(
                f,
                units(f, a.mag as nat) * pow2(f.unit()),
                units(f, b.mag as nat),
            ) as u64,
        }
    }
}

/// The number nearest to `num / den`.
pub open spec fn fraction(f: Format, num: nat, den: nat) -> Parts {
    Parts { neg: false, mag: nearest(f, num * pow2(f.unit()), den) as u64 }
}

pub fn is_below(f: Format, a: Parts, b: Parts) -> (r: bool)
    ensures
        r == below(f, a, b),
{
    let inf = f.infinity_mag();
    proof {
        lemma_order(f, a, b);
    }
    if a.mag > inf || b.mag > inf {
        false
    } else if a.neg {
        if b.neg {
            b.mag < a.mag
        } else {
            a.mag > 0 || b.mag > 0
        }
    } else {
        !b.neg && a.mag < b.mag
    }
}

pub fn is_at_most(f: Format, a: Parts, b: Parts) -> (r: bool)
    ensures
        r == at_most(f, a, b),
{
    let inf = f.infinity_mag();
    if a.mag > inf || b.mag > inf {
        false
    } else {
        !is_below(f, b, a)
    }
}

proof fn lemma_order(f: Format, a: Parts, b: Parts)
    ensures
        units(f, 0) == 0,
        a.mag > 0 ==> units(f, a.mag as nat) > 0,
        b.mag > 0 ==> units(f, b.mag as nat) > 0,
        a.mag < b.mag ==> units(f, a.mag as nat) < units(f, b.mag as nat),
        b.mag < a.mag ==> units(f, b.mag as nat) < units(f, a.mag as nat),
{
    if a.mag > 0 {
        lemma_units_increase(f, 0, a.mag as nat);
    }
    if b.mag > 0 {
        lemma_units_increase(f, 0, b.mag as nat);
    }
    if a.mag < b.mag {
        lemma_units_increase(f, a.mag as nat, b.mag as nat);
    }
    if b.mag < a.mag {
        lemma_units_increase(f, b.mag as nat, a.mag as nat);
    }
}

pub fn no_number(f: Format) -> (r: Parts)
    ensures
        r == not_a_number(f),
{
    Parts { neg: false, mag: f.infinity_mag() + f.lead_bit() / 2 }
}

pub fn plus(f: Format, a: Parts, b: Parts) -> (r: Parts)
    ensures
        r == sum(f, a, b),
        r.mag <= f.infinity() + f.lead() / 2,
{
    let inf = f.infinity_mag();
    if a.mag > inf || b.mag > inf {
        return no_number(f);
    }
    if a.mag == inf {
        if b.mag == inf && a.neg != b.neg {
            return no_number(f);
        }
        return a;
    }
    if b.mag == inf {
        return b;
    }
    let one = BigNat::from_u64(1);
    let x = units_of(f, a.mag);
    let y = units_of(f, b.mag);
    if a.neg == b.neg {
        proof {
            lemma_order(f, a, b);
        }
        if a.mag == 0 && b.mag == 0 {
            return Parts { neg: a.neg, mag: 0 };
        }
        return Parts { neg: a.neg, mag: round(f, &x.plus(&y), &one) };
    }
    match x.compare(&y) {
        Side::Equal => Parts { neg: false, mag: 0 },
        Side::Above => Parts { neg: a.neg, mag: round(f, &x.minus(&y), &one) },
        Side::Below => Parts { neg: b.neg, mag: round(f, &y.minus(&x), &one) },
    }
}

pub fn minus(f: Format, a: Parts, b: Parts) -> (r: Parts)
    ensures
        r == sum(f, a, negated(b)),
        r.mag <= f.infinity() + f.lead() / 2,
{
    plus(f, a, Parts { neg: !b.neg, mag: b.mag })
}

pub fn times(f: Format, a: Parts, b: Parts) -> (r: Parts)
    ensures
        r == product(f, a, b),
        r.mag <= f.infinity() + f.lead() / 2,
{
    let inf = f.infinity_mag();
    let neg = a.neg != b.neg;
    if a.mag > inf || b.mag > inf {
        return no_number(f);
    }
    if a.mag == inf || b.mag == inf {
        if a.mag == 0 || b.mag == 0 {
            return no_number(f);
        }
        return Parts { neg, mag: inf };
    }
    let num = units_of(f, a.mag).times(&units_of(f, b.mag));
    let den = BigNat::from_u64(1).shifted(f.unit_shift());
    proof {
        lemma_pow2_pos(f.unit());
        assert(1 * pow2(f.unit()) == pow2(f.unit()));
    }
    Parts { neg, mag: round(f, &num, &den) }
}

pub fn over(f: Format, a: Parts, b: Parts) -> (r: Parts)
    ensures
        r == quotient(f, a, b),
        r.mag <= f.infinity() + f.lead() / 2,
{
    let inf = f.infinity_mag();
    let neg = a.neg != b.neg;
    if a.mag > inf || b.mag > inf {
        return no_number(f);
    }
    if a.mag == inf {
        if b.mag == inf {
            return no_number(f);
        }
        return Parts { neg, mag: inf };
    }
    if b.mag == inf {
        return Parts { neg, mag: 0 };
    }
    if b.mag == 0 {
        if a.mag == 0 {
            return no_number(f);
        }
        return Parts { neg, mag: inf };
    }
    let num = units_of(f, a.mag).shifted(f.unit_shift());
    let den = units_of(f, b.mag);
    proof {
        lemma_order(f, b, b);
    }
    Parts { neg, mag: round(f, &num, &den) }
}

pub fn from_fraction(f: Format, num: u64, den: u64) -> (r: Parts)
    requires
        den > 0,
    ensures
        r == fraction(f, num as nat, den as nat),
        r.mag <= f.infinity(),
{
    let n = BigNat::from_u64(num).shifted(f.unit_shift());
    Parts { neg: false, mag: round(f, &n, &BigNat::from_u64(den)) }
}

/// What the bits of a magnitude are worth, in the smallest number of the format: with a
/// zero exponent the significand, else the significand with its leading bit, doubled for
/// every exponent above one.
pub proof fn law_worth_of_magnitudes(mag: nat)
    ensures
        mag / 0x80_0000 == 0 ==> units(Format::Single, mag) == mag % 0x80_0000,
        mag / 0x80_0000 > 0 ==> units(Format::Single, mag) == (0x80_0000 + mag % 0x80_0000) * pow2(
            (mag / 0x80_0000 - 1) as nat,
        ),
        mag / 0x10_0000_0000_0000 == 0 ==> units(Format::Double, mag) == mag % 0x10_0000_0000_0000,
        mag / 0x10_0000_0000_0000 > 0 ==> units(Format::Double, mag) == (0x10_0000_0000_0000 + mag
            % 0x10_0000_0000_0000) * pow2((mag / 0x10_0000_0000_0000 - 1) as nat),
{
}

/// The largest exponent with no significand is an infinity, and with one it is no number;
/// a number of the sign bit is below zero.
pub proof fn law_kinds_of_magnitudes(p: Parts)
    ensures
        p.finite(Format::Single) <==> p.mag < 0x7f80_0000,
        p.nan(Format::Single) <==> p.mag > 0x7f80_0000,
        p.finite(Format::Double) <==> p.mag < 0x7ff0_0000_0000_0000,
        p.nan(Format::Double) <==> p.mag > 0x7ff0_0000_0000_0000,
        !p.neg ==> p.scaled(Format::Single) == units(Format::Single, p.mag as nat) && p.scaled(
            Format::Double,
        ) == units(Format::Double, p.mag as nat),
        p.neg ==> p.scaled(Format::Single) == -(units(Format::Single, p.mag as nat) as int)
            && p.scaled(Format::Double) == -(units(Format::Double, p.mag as nat) as int),
{
}

/// Of two numbers one is below the other by what they are worth; what is no number is
/// neither below nor at most another, nor the other way.
pub proof fn law_order_of_numbers(f: Format, a: Parts, b: Parts)
    ensures
        a.mag > f.infinity() || b.mag > f.infinity() ==> !below(f, a, b) && !at_most(f, a, b),
        a.mag <= f.infinity() && b.mag <= f.infinity() ==> {
            &&& below(f, a, b) <==> a.scaled(f) < b.scaled(f)
            &&& at_most(f, a, b) <==> a.scaled(f) <= b.scaled(f)
        },
{
}

/// No magnitude is nearer to a fraction than the one it is rounded to, and where another
/// one is as near, that one is even.
pub proof fn law_rounding_is_nearest(f: Format, num: nat, den: nat, other: nat)
    requires
        den > 0,
        nearest(f, num, den) < f.infinity(),
        other != nearest(f, num, den),
    ensures
        ({
            let u = units(f, nearest(f, num, den)) * den;
            let v = units(f, other) * den;
            let off = if num < u {
                u - num
            } else {
                num - u
            };
            let other_off = if num < v {
                v - num
            } else {
                num - v
            };
            &&& off <= other_off
            &&& off == other_off ==> nearest(f, num, den) % 2 == 0
        }),
{
    law_rounding_exists(f, num, den);
    let m = nearest(f, num, den);
    let u = units(f, m);
    let v = units(f, other);
    lemma_units_step(f, m);
    let up = units(f, m + 1);
    assert((u + up) * den == u * den + up * den) by (nonlinear_arith);
    if other > m {
        if other > m + 1 {
            lemma_units_increase(f, m + 1, other);
        }
        assert(up * den <= v * den && u * den < up * den) by (nonlinear_arith)
            requires
                up <= v,
                u < up,
                den > 0,
        ;
        assert(2 * num <= u * den + up * den);
        if 2 * num == u * den + up * den {
            assert((m + 1) % 2 != 0);
        }
    } else {
        let below = units(f, (m - 1) as nat);
        lemma_units_step(f, (m - 1) as nat);
        if other < m - 1 {
            lemma_units_increase(f, other, (m - 1) as nat);
        }
        assert((below + u) * den == below * den + u * den) by (nonlinear_arith);
        assert(v * den <= below * den && below * den < u * den) by (nonlinear_arith)
            requires
                v <= below,
                below < u,
                den > 0,
        ;
        assert(2 * num >= below * den + u * den);
    }
}

/// A fraction is rounded to an infinity from the middle on between the largest number and
/// what would follow it.
pub proof fn law_rounding_overflows(f: Format, num: nat, den: nat)
    requires
        den > 0,
    ensures
        nearest(f, num, den) == f.infinity() <==> 2 * num >= (units(f, (f.infinity() - 1) as nat)
            + units(f, f.infinity())) * den,
        nearest(f, num, den) <= f.infinity(),
{
    law_rounding_exists(f, num, den);
    let m = nearest(f, num, den);
    assert(f.infinity() % 2 == 0);
    if m < f.infinity() && reaches(f, num, den, f.infinity()) {
        lemma_reaches_below(f, num, den, m + 1, f.infinity());
    }
}

/// A sum: that of two numbers is what they are worth together, rounded, and a zero of it
/// has a sign only where both have. An infinity stays one, unless the other is the
/// opposite one, which makes no number, as what is no number does.
pub proof fn law_sums(f: Format, a: Parts, b: Parts)
    ensures
        ({
            let r = sum(f, a, b);
            let inf = f.infinity();
            let exact = a.scaled(f) + b.scaled(f);
            &&& a.mag > inf || b.mag > inf ==> r.mag > inf
            &&& a.mag == inf && b.mag == inf && a.neg != b.neg ==> r.mag > inf
            &&& a.mag == inf && b.mag == inf && a.neg == b.neg ==> r == a
            &&& a.mag == inf && b.mag < inf ==> r == a
            &&& a.mag < inf && b.mag == inf ==> r == b
            &&& a.mag < inf && b.mag < inf && exact > 0 ==> r == (Parts {
                neg: false,
                mag: nearest(f, exact as nat, 1) as u64,
            })
            &&& a.mag < inf && b.mag < inf && exact < 0 ==> r == (Parts {
                neg: true,
                mag: nearest(f, (-exact) as nat, 1) as u64,
            })
            &&& a.mag < inf && b.mag < inf && exact == 0 ==> r == (Parts {
                neg: a.neg && b.neg,
                mag: 0,
            })
        }),
        negated(a).neg == !a.neg,
        negated(a).mag == a.mag,
{
}

/// A product: that of two numbers is the product of what they are worth, rounded, and
/// negative where one of them is. An infinity times anything but zero is one; times zero
/// it is no number, as what is no number is times anything.
pub proof fn law_products(f: Format, a: Parts, b: Parts)
    ensures
        ({
            let r = product(f, a, b);
            let inf = f.infinity();
            &&& a.mag > inf || b.mag > inf ==> r.mag > inf
            &&& a.mag == inf && b.mag == 0 ==> r.mag > inf
            &&& a.mag == 0 && b.mag == inf ==> r.mag > inf
            &&& a.mag == inf && 0 < b.mag <= inf ==> r == (Parts {
                neg: a.neg != b.neg,
                mag: inf as u64,
            })
            &&& 0 < a.mag <= inf && b.mag == inf ==> r == (Parts {
                neg: a.neg != b.neg,
                mag: inf as u64,
            })
            &&& a.mag < inf && b.mag < inf ==> r == (Parts {
                neg: a.neg != b.neg,
                mag: nearest(
                    f,
                    units(f, a.mag as nat) * units(f, b.mag as nat),
                    pow2(f.unit()),
                ) as u64,
            })
        }),
{
}

/// A quotient: that of two numbers is the quotient of what they are worth, rounded, and
/// negative where one of them is. By zero it is an infinity, and zero by zero is no
/// number; an infinity by a number is one, a number by an infinity is zero, and an infinity
/// by an infinity is no number, as what is no number is by anything.
pub proof fn law_quotients(f: Format, a: Parts, b: Parts)
    ensures
        ({
            let r = quotient(f, a, b);
            let inf = f.infinity();
            &&& a.mag > inf || b.mag > inf ==> r.mag > inf
            &&& a.mag == inf && b.mag == inf ==> r.mag > inf
            &&& a.mag == 0 && b.mag == 0 ==> r.mag > inf
            &&& a.mag == inf && b.mag < inf ==> r == (Parts {
                neg: a.neg != b.neg,
                mag: inf as u64,
            })
            &&& a.mag < inf && b.mag == inf ==> r == (Parts { neg: a.neg != b.neg, mag: 0 })
            &&& 0 < a.mag < inf && b.mag == 0 ==> r == (Parts {
                neg: a.neg != b.neg,
                mag: inf as u64,
            })
            &&& a.mag < inf && 0 < b.mag < inf ==> r == (Parts {
                neg: a.neg != b.neg,
                mag: nearest(
                    f,
                    units(f, a.mag as nat) * pow2(f.unit()),
                    units(f, b.mag as nat),
                ) as u64,
            })
        }),
{
}

/// The number of a fraction is the nearest to it, and not negative.
pub proof fn law_fractions(num: nat, den: nat)
    ensures
        fraction(Format::Single, num, den) == (Parts {
            neg: false,
            mag: nearest(Format::Single, num * pow2(149), den) as u64,
        }),
        fraction(Format::Double, num, den) == (Parts {
            neg: false,
            mag: nearest(Format::Double, num * pow2(1074), den) as u64,
        }),
{
}

} // verus!
