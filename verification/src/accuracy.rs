//! How near percentages, rates and temperatures come to what they stand for.

use crate::ieee;
use crate::ieee::{Format, Parts};
use crate::number;
use crate::number::Single;
use crate::temperature;
use vstd::arithmetic::power2::*;
use vstd::prelude::*;

verus! {

/// The numbers through which a part in percent of a whole is computed, each in units of
/// its format: the part, the whole, their quotient, that times a hundred, and the result.
ghost struct Steps {
    part: int,
    whole: int,
    quotient: int,
    product: int,
    result: int,
}

proof fn lemma_lengths()
    ensures
        pow2(1074) == pow2(149) * pow2(925),
        0x10_0000_0000_0000 <= pow2(925),
        0 < pow2(149),
        0x10_0000_0000_0000 <= pow2(149),
        0 < pow2(925),
        0x80_0000 * pow2(925) <= pow2(1074),
        0x10_0000_0000_0000 <= pow2(1074),
{
    lemma2_to64();
    lemma2_to64_rest();
    lemma_pow2_adds(149, 925);
    lemma_pow2_strictly_increases(52, 925);
    lemma_pow2_strictly_increases(52, 149);
    lemma_pow2_strictly_increases(52, 1074);
    assert(0x80_0000 * pow2(925) <= pow2(149) * pow2(925)) by (nonlinear_arith)
        requires
            0x80_0000 <= pow2(149),
    ;
}

/// The magnitudes of 1 and of 100.
proof fn lemma_one_and_hundred()
    ensures
        ieee::units(Format::Double, 0x3ff0_0000_0000_0000) == pow2(1074),
        ieee::units(Format::Double, 0x4059_0000_0000_0000) == 100 * pow2(1074),
        ieee::units(Format::Single, 0x42c8_0000) == 100 * pow2(149),
{
    lemma2_to64();
    lemma2_to64_rest();
    lemma_pow2_adds(52, 1022);
    lemma_pow2_adds(46, 1028);
    lemma_pow2_adds(17, 132);
    let lead = Format::Double.lead();
    assert(0x3ff0_0000_0000_0000nat / lead == 1023 && 0x3ff0_0000_0000_0000nat % lead == 0);
    assert(0x4059_0000_0000_0000nat / lead == 1029 && 0x4059_0000_0000_0000nat % lead
        == 0x9_0000_0000_0000);
    assert(0x42c8_0000nat / 0x80_0000 == 133 && 0x42c8_0000nat % 0x80_0000 == 0x48_0000);
    assert(100 * pow2(46) * pow2(1028) == 100 * (pow2(46) * pow2(1028))) by (nonlinear_arith);
    assert(100 * pow2(17) * pow2(132) == 100 * (pow2(17) * pow2(132))) by (nonlinear_arith);
}

/// A whole number up to the largest `u64` is a finite number, off by half its last bit at
/// most, and a larger one is no smaller.
proof fn lemma_counted(n: nat) -> (u: int)
    requires
        n <= u64::MAX,
    ensures
        number::double_whole(n).parts() == (Parts {
            neg: false,
            mag: number::double_whole(n).parts().mag,
        }),
        number::double_whole(n).parts().mag < Format::Double.infinity(),
        u == ieee::units(Format::Double, number::double_whole(n).parts().mag as nat),
        u >= 0,
        0x20_0000_0000_0000 * (n * pow2(1074) - u) <= 0x10_0000_0000_0000 + u,
        0x20_0000_0000_0000 * (u - n * pow2(1074)) <= 0x10_0000_0000_0000 + u,
        n > 0 ==> u >= pow2(1074),
{
    let f = Format::Double;
    let unit = pow2(1074);
    number::lemma_two_to_64();
    lemma_one_and_hundred();
    assert(n * unit <= 0x1_0000_0000_0000_0000 * unit) by (nonlinear_arith)
        requires
            n <= 0x1_0000_0000_0000_0000,
    ;
    ieee::law_rounding_is_bounded(f, n * unit, 1, 0x43f0_0000_0000_0000);
    let m = ieee::nearest(f, n * unit, 1);
    ieee::law_rounding_error(f, n * unit, 1);
    assert(number::double_whole(n).parts() == (Parts { neg: false, mag: m as u64 }));
    let u = ieee::units(f, m) as int;
    assert(u * 1 == u);
    assert((0x10_0000_0000_0000 + u) * 1 == 0x10_0000_0000_0000 + u);
    if n > 0 {
        assert(unit <= n * unit) by (nonlinear_arith)
            requires
                1 <= n,
        ;
        ieee::law_rounding_is_monotone(f, unit, n * unit, 1);
        ieee::law_rounding_keeps_numbers(f, 0x3ff0_0000_0000_0000, 1);
        assert(ieee::units(f, 0x3ff0_0000_0000_0000) * 1 == unit);
        if 0x3ff0_0000_0000_0000 < m {
            ieee::lemma_units_increase(f, 0x3ff0_0000_0000_0000, m);
        }
    }
    u
}

/// A span of nanoseconds in seconds is off by the last bits at most.
proof fn lemma_seconds(nanos: nat) -> (t: int)
    requires
        nanos <= u64::MAX,
    ensures
        t >= 0,
        number::seconds(nanos).parts().mag < Format::Double.infinity(),
        !number::seconds(nanos).parts().neg,
        number::seconds(nanos).parts().scaled(Format::Double) == t,
        0x20_0000_0000_0000 * (1_000_000_000 * t - nanos * pow2(1074)) <= 8 * (nanos * pow2(1074)),
        0x20_0000_0000_0000 * (nanos * pow2(1074) - 1_000_000_000 * t) <= 8 * (nanos * pow2(1074)),
{
    let f = Format::Double;
    let unit = pow2(1074);
    let g = 1_000_000_000nat;
    let k = nanos / g;
    let m = nanos % g;
    lemma_lengths();
    lemma_one_and_hundred();
    number::lemma_two_to_64();
    lemma2_to64();
    lemma2_to64_rest();
    lemma_pow2_strictly_increases(64, 1074);
    number::lemma_whole_double(k);
    number::lemma_whole_double(m);
    number::lemma_whole_double(g);
    let a = number::double_whole(m).parts();
    let b = number::double_whole(g).parts();
    let w = number::double_whole(k).parts();
    let ub = g * unit;
    assert(ub > 0) by (nonlinear_arith)
        requires
            ub == g * unit,
            g > 0,
            unit > 0,
    ;
    assert(b.mag != 0) by {
        assert(ieee::units(f, 0) == 0);
    }
    let num = (m * unit) * unit;
    assert(num <= unit * ub) by (nonlinear_arith)
        requires
            num == (m * unit) * unit,
            ub == g * unit,
            m <= g,
    ;
    let q = ieee::nearest(f, num, ub);
    ieee::law_rounding_is_bounded(f, num, ub, 0x3ff0_0000_0000_0000);
    ieee::law_rounding_error(f, num, ub);
    let part = number::double_whole(m).quotient(number::double_whole(g));
    assert(part.parts() == (Parts { neg: false, mag: q as u64 }));
    let uf = ieee::units(f, q);
    if q < 0x3ff0_0000_0000_0000 {
        ieee::lemma_units_increase(f, q, 0x3ff0_0000_0000_0000);
    }
    let e1: int = 0x20_0000_0000_0000 * (m * unit - uf * g);
    assert(-((0x10_0000_0000_0000 + uf) * g) <= e1 <= (0x10_0000_0000_0000 + uf) * g)
        by (nonlinear_arith)
        requires
            0x20_0000_0000_0000 * (num - uf * ub) <= (0x10_0000_0000_0000 + uf) * ub,
            0x20_0000_0000_0000 * (uf * ub - num) <= (0x10_0000_0000_0000 + uf) * ub,
            num == (m * unit) * unit,
            ub == g * unit,
            unit > 0,
            e1 == 0x20_0000_0000_0000 * (m * unit - uf * g),
    ;
    let exact = k * unit + uf;
    assert(nanos * unit == g * (k * unit) + m * unit) by (nonlinear_arith)
        requires
            nanos == g * k + m,
    ;
    if exact == 0 {
        assert(number::seconds(nanos).parts() == (Parts { neg: false, mag: 0 }));
        assert(ieee::units(f, 0) == 0);
        assert(uf == 0);
        assert(m == 0) by (nonlinear_arith)
            requires
                e1 == 0x20_0000_0000_0000 * (m * unit - uf * g),
                e1 <= (0x10_0000_0000_0000 + uf) * g,
                uf == 0,
                g == 1_000_000_000,
                unit > 0x1_0000_0000_0000_0000,
        ;
        assert(k == 0) by (nonlinear_arith)
            requires
                k * unit == 0,
                unit > 0,
        ;
        assert(nanos * unit == 0) by (nonlinear_arith)
            requires
                nanos == 0,
        ;
        0
    } else {
        let n = ieee::nearest(f, exact, 1);
        assert(exact <= 0x1_0000_0000_0000_0000 * unit) by (nonlinear_arith)
            requires
                exact == k * unit + uf,
                uf <= unit,
                k + 1 <= 0x1_0000_0000_0000_0000,
        ;
        ieee::law_rounding_is_bounded(f, exact, 1, 0x43f0_0000_0000_0000);
        ieee::law_rounding_error(f, exact, 1);
        let t = ieee::units(f, n) as int;
        assert(number::seconds(nanos).parts() == (Parts { neg: false, mag: n as u64 }));
        assert(t * 1 == t && (0x10_0000_0000_0000 + t) * 1 == 0x10_0000_0000_0000 + t);
        let all = nanos * unit as int;
        if nanos == 0 {
            assert(num == 0) by (nonlinear_arith)
                requires
                    num == (m * unit) * unit,
                    m == 0,
            ;
            assert(ieee::units(f, 0) * ub == 0) by (nonlinear_arith)
                requires
                    ieee::units(f, 0) == 0,
            ;
            ieee::law_rounding_keeps_numbers(f, 0, ub);
            assert(k * unit == 0) by (nonlinear_arith)
                requires
                    k == 0,
            ;
        }
        assert(all >= unit) by (nonlinear_arith)
            requires
                all == nanos * unit,
                nanos >= 1,
        ;
        assert(uf * g == uf * 1_000_000_000);
        lemma_pow2_strictly_increases(100, 1074);
        lemma_pow2_adds(64, 36);
        assert(0x10_0000_0000_0000_0000_0000_0000 <= unit);
        lemma_seconds_error(all, t, uf as int, k * unit as int, m * unit as int, unit as int);
        t
    }
}

/// The errors of a quotient and of a sum, together.
proof fn lemma_seconds_error(all: int, t: int, uf: int, ku: int, mu: int, unit: int)
    requires
        all == 1_000_000_000 * ku + mu,
        0 <= mu,
        0 <= ku,
        0 <= uf,
        0 <= t,
        unit <= all,
        0x10_0000_0000_0000_0000_0000_0000 <= unit,
        0x20_0000_0000_0000 * (mu - uf * 1_000_000_000) <= (0x10_0000_0000_0000 + uf)
            * 1_000_000_000,
        0x20_0000_0000_0000 * (uf * 1_000_000_000 - mu) <= (0x10_0000_0000_0000 + uf)
            * 1_000_000_000,
        0x20_0000_0000_0000 * (ku + uf - t) <= 0x10_0000_0000_0000 + t,
        0x20_0000_0000_0000 * (t - (ku + uf)) <= 0x10_0000_0000_0000 + t,
    ensures
        0x20_0000_0000_0000 * (1_000_000_000 * t - all) <= 8 * all,
        0x20_0000_0000_0000 * (all - 1_000_000_000 * t) <= 8 * all,
{
}

/// A thousandth, in units.
proof fn lemma_thousandth() -> (l: int)
    ensures
        number::double(ieee::fraction(Format::Double, 1, 1000)).parts().mag
            < Format::Double.infinity(),
        number::double(ieee::fraction(Format::Double, 1, 1000)).parts().scaled(Format::Double) == l,
        0 <= l <= pow2(1074),
        0x20_0000_0000_0000 * (1_000_000_000 * l - 1_000_000 * pow2(1074)) <= 8 * (1_000_000 * pow2(
            1074,
        )),
        0x20_0000_0000_0000 * (1_000_000 * pow2(1074) - 1_000_000_000 * l) <= 8 * (1_000_000 * pow2(
            1074,
        )),
{
    let f = Format::Double;
    let unit = pow2(1074);
    lemma_lengths();
    lemma_one_and_hundred();
    lemma2_to64();
    lemma2_to64_rest();
    lemma_pow2_strictly_increases(100, 1074);
    lemma_pow2_adds(64, 36);
    let num = 1 * unit;
    assert(num == unit);
    ieee::law_rounding_is_bounded(f, num, 1000, 0x3ff0_0000_0000_0000);
    ieee::law_rounding_error(f, num, 1000);
    let n = ieee::nearest(f, num, 1000);
    if n < 0x3ff0_0000_0000_0000 {
        ieee::lemma_units_increase(f, n, 0x3ff0_0000_0000_0000);
    }
    assert(number::double(ieee::fraction(f, 1, 1000)).parts() == (Parts {
        neg: false,
        mag: n as u64,
    }));
    let l = ieee::units(f, n) as int;
    assert(0x20_0000_0000_0000 * (unit - l * 1000) <= (0x10_0000_0000_0000 + l) * 1000);
    assert(0x20_0000_0000_0000 * (l * 1000 - unit) <= (0x10_0000_0000_0000 + l) * 1000);
    lemma_thousandth_error(l, unit as int);
    l
}

proof fn lemma_thousandth_error(l: int, u: int)
    requires
        0x10_0000_0000_0000_0000_0000_0000 <= u,
        0x20_0000_0000_0000 * (u - l * 1000) <= (0x10_0000_0000_0000 + l) * 1000,
        0x20_0000_0000_0000 * (l * 1000 - u) <= (0x10_0000_0000_0000 + l) * 1000,
    ensures
        0x20_0000_0000_0000 * (1_000_000_000 * l - 1_000_000 * u) <= 8 * (1_000_000 * u),
        0x20_0000_0000_0000 * (1_000_000 * u - 1_000_000_000 * l) <= 8 * (1_000_000 * u),
{
}

/// The span that a rate counts, at least a thousandth of a second.
proof fn lemma_span(nanos: nat, t: int, l: int, x: int, u: int)
    requires
        u > 0,
        0x20_0000_0000_0000 * (1_000_000_000 * t - nanos * u) <= 8 * (nanos * u),
        0x20_0000_0000_0000 * (nanos * u - 1_000_000_000 * t) <= 8 * (nanos * u),
        0x20_0000_0000_0000 * (1_000_000_000 * l - 1_000_000 * u) <= 8 * (1_000_000 * u),
        0x20_0000_0000_0000 * (1_000_000 * u - 1_000_000_000 * l) <= 8 * (1_000_000 * u),
        x == (if t < l {
            l
        } else {
            t
        }),
    ensures
        ({
            let n: int = if nanos < 1_000_000 {
                1_000_000
            } else {
                nanos as int
            };
            &&& 0x1000_0000_0000 * (1_000_000_000 * x - n * u) <= n * u
            &&& 0x1000_0000_0000 * (n * u - 1_000_000_000 * x) <= n * u
            &&& x > 0
        }),
{
    let all = nanos * u;
    if nanos < 1_000_000 {
        assert(all <= 1_000_000 * u) by (nonlinear_arith)
            requires
                all == nanos * u,
                nanos <= 1_000_000,
                u > 0,
        ;
    } else {
        assert(all >= 1_000_000 * u) by (nonlinear_arith)
            requires
                all == nanos * u,
                nanos >= 1_000_000,
                u > 0,
        ;
    }
}

/// What the errors of the amount, of the span and of their quotient come to.
proof fn lemma_rate_error(
    amount: int,
    n: int,
    rate: int,
    u: int,
    ua: int,
    x: int,
    v: int,
    most: int,
)
    requires
        0x10_0000_0000_0000_0000_0000_0000 <= u,
        0 <= amount,
        1_000_000 <= n,
        0 <= rate,
        0 <= ua,
        0 < x,
        0 <= v,
        0x20_0000_0000_0000 * (amount * u - ua) <= 0x10_0000_0000_0000 + ua,
        0x20_0000_0000_0000 * (ua - amount * u) <= 0x10_0000_0000_0000 + ua,
        0x20_0000_0000_0000 * (ua * u - v * x) <= (0x10_0000_0000_0000 + v) * x,
        0x20_0000_0000_0000 * (v * x - ua * u) <= (0x10_0000_0000_0000 + v) * x,
        0x1000_0000_0000 * (1_000_000_000 * x - n * u) <= n * u,
        0x1000_0000_0000 * (n * u - 1_000_000_000 * x) <= n * u,
        rate * u <= v,
        rate < most ==> v < (rate + 1) * u,
    ensures
        0x100_0000_0000 * (rate * n - amount * 1_000_000_000) <= amount * 1_000_000_000 + n,
        rate < most ==> 0x100_0000_0000 * (amount * 1_000_000_000 - (rate + 1) * n) <= amount
            * 1_000_000_000 + n,
{
    let c: int = 0x1000_0000_0000;
    let d: int = 0x10_0000_0000_0000;
    let g: int = 1_000_000_000;
    let uu = u * u;
    let a = amount * g * uu;
    let m = n * uu;
    let gx = g * x;
    let nu = n * u;
    assert(uu > 0) by (nonlinear_arith)
        requires
            uu == u * u,
            u > 0,
    ;
    // The amount.
    let au = amount * u;
    assert(au >= 0) by (nonlinear_arith)
        requires
            au == amount * u,
            amount >= 0,
            u > 0,
    ;
    assert(c * (ua - au) <= au + d && c * (au - ua) <= au + d);
    let gw = g * (ua * u);
    let gud = g * u * d;
    assert(gw == ua * (g * u) && a == au * (g * u) && gud == d * (g * u)) by (nonlinear_arith)
        requires
            gw == g * (ua * u),
            gud == g * u * d,
            a == amount * g * (u * u),
            au == amount * u,
    ;
    let gu = g * u;
    assert(gu > 0);
    assert(c * (gw - a) <= a + gud && c * (a - gw) <= a + gud) by (nonlinear_arith)
        requires
            gw == ua * gu,
            a == au * gu,
            gud == d * gu,
            gu > 0,
            c * (ua - au) <= au + d,
            c * (au - ua) <= au + d,
    ;
    assert(a >= 0) by (nonlinear_arith)
        requires
            a == au * gu,
            au >= 0,
            gu > 0,
    ;
    // The quotient.
    let p = v * x;
    let w = ua * u;
    let dx = d * x;
    assert((d + v) * x == dx + p) by (nonlinear_arith)
        requires
            p == v * x,
            dx == d * x,
    ;
    assert(w >= 0 && p >= 0) by (nonlinear_arith)
        requires
            w == ua * u,
            ua >= 0,
            u > 0,
            p == v * x,
            v >= 0,
            x > 0,
    ;
    assert(c * (p - w) <= w + dx && c * (w - p) <= w + dx);
    let gp = g * p;
    let gdx = d * gx;
    assert(gdx == g * dx) by (nonlinear_arith)
        requires
            gdx == d * (g * x),
            dx == d * x,
    ;
    assert(c * (gp - gw) <= gw + gdx && c * (gw - gp) <= gw + gdx);
    // What is small.
    assert(gud <= m) by (nonlinear_arith)
        requires
            gud == d * (g * u),
            d == 0x10_0000_0000_0000,
            g == 1_000_000_000,
            m == n * (u * u),
            n >= 1_000_000,
            u >= 0x10_0000_0000_0000_0000_0000_0000,
    ;
    assert(gdx <= m) by (nonlinear_arith)
        requires
            gdx == d * gx,
            gx <= 2 * (n * u),
            d == 0x10_0000_0000_0000,
            m == n * (u * u),
            n >= 1_000_000,
            u >= 0x10_0000_0000_0000_0000_0000_0000,
    ;
    assert(m > 0) by (nonlinear_arith)
        requires
            m == n * uu,
            n > 0,
            uu > 0,
    ;
    assert(gw <= 2 * a + m);
    assert(c * (gp - a) <= 3 * a + 4 * m);
    assert(c * (a - gp) <= 3 * a + 4 * m);
    // From above.
    let ru = rate * u;
    assert(ru >= 0) by (nonlinear_arith)
        requires
            ru == rate * u,
            rate >= 0,
            u > 0,
    ;
    let rx = ru * gx;
    assert(rx <= gp) by (nonlinear_arith)
        requires
            rx == ru * (g * x),
            gp == g * (v * x),
            ru <= v,
            g == 1_000_000_000,
            x > 0,
    ;
    let rm = rate * m;
    assert(rm == ru * nu) by (nonlinear_arith)
        requires
            rm == rate * (n * (u * u)),
            ru == rate * u,
            nu == n * u,
    ;
    assert(c * (rm - rx) <= rm) by (nonlinear_arith)
        requires
            rm == ru * nu,
            rx == ru * gx,
            c * (nu - gx) <= nu,
            ru >= 0,
    ;
    assert(0x100_0000_0000 * (rm - a) <= a + m);
    let over = 0x100_0000_0000 * (rate * n - amount * g) - (amount * g + n);
    assert(over <= 0) by (nonlinear_arith)
        requires
            0x100_0000_0000 * (rate * (n * uu) - amount * g * uu) <= amount * g * uu + n * uu,
            over == 0x100_0000_0000 * (rate * n - amount * g) - (amount * g + n),
            uu > 0,
    ;
    // From below.
    if rate < most {
        let su = (rate + 1) * u;
        let sx = su * gx;
        assert(gp <= sx) by (nonlinear_arith)
            requires
                sx == su * (g * x),
                gp == g * (v * x),
                v <= su,
                g == 1_000_000_000,
                x > 0,
        ;
        let sm = (rate + 1) * m;
        assert(sm == su * nu) by (nonlinear_arith)
            requires
                sm == (rate + 1) * (n * (u * u)),
                su == (rate + 1) * u,
                nu == n * u,
        ;
        assert(su >= 0);
        assert(c * (sx - sm) <= sm) by (nonlinear_arith)
            requires
                sm == su * nu,
                sx == su * gx,
                c * (gx - nu) <= nu,
                su >= 0,
        ;
        assert(0x100_0000_0000 * (a - sm) <= a + m);
        let under = 0x100_0000_0000 * (amount * g - (rate + 1) * n) - (amount * g + n);
        assert(under <= 0) by (nonlinear_arith)
            requires
                0x100_0000_0000 * (amount * g * uu - (rate + 1) * (n * uu)) <= amount * g * uu + n
                    * uu,
                under == 0x100_0000_0000 * (amount * g - (rate + 1) * n) - (amount * g + n),
                uu > 0,
        ;
    }
}

/// A rate is what the amount comes to in a second, without its fraction and but for one
/// part in 2^40; a span counts as a millisecond at least, and a rate that is larger than
/// the largest `u64` is that one.
pub proof fn law_rates_are_accurate(amount: nat, nanos: nat)
    requires
        amount <= u64::MAX,
        nanos <= u64::MAX,
    ensures
        ({
            let r = number::rate(amount, nanos);
            let n: int = if nanos < 1_000_000 {
                1_000_000
            } else {
                nanos as int
            };
            &&& 0 <= r <= u64::MAX
            &&& 0x100_0000_0000 * (r * n - amount * 1_000_000_000) <= amount * 1_000_000_000 + n
            &&& r < u64::MAX ==> 0x100_0000_0000 * (amount * 1_000_000_000 - (r + 1) * n) <= amount
                * 1_000_000_000 + n
        }),
{
    let f = Format::Double;
    let unit = pow2(1074);
    lemma_lengths();
    lemma2_to64();
    lemma2_to64_rest();
    lemma_pow2_strictly_increases(100, 1074);
    lemma_pow2_adds(64, 36);
    let ua = lemma_counted(amount) as nat;
    let t = lemma_seconds(nanos);
    let l = lemma_thousandth();
    let least = number::double(ieee::fraction(f, 1, 1000));
    let span = if number::seconds(nanos).below(least) {
        least
    } else {
        number::seconds(nanos)
    };
    let x = span.parts().scaled(f);
    let n: int = if nanos < 1_000_000 {
        1_000_000
    } else {
        nanos as int
    };
    lemma_span(nanos, t, l, x, unit as int);
    let b = span.parts();
    assert(!b.neg && b.mag != 0 && b.mag < f.infinity()) by {
        assert(ieee::units(f, 0) == 0);
    }
    let den = ieee::units(f, b.mag as nat);
    assert(den == x);
    let num = ua * unit;
    let top = f.infinity();
    lemma_largest();
    assert(n * unit >= unit) by (nonlinear_arith)
        requires
            n >= 1,
    ;
    assert(n * unit >= 1_000_000 * unit) by (nonlinear_arith)
        requires
            n >= 1_000_000,
    ;
    assert(unit <= 2000 * den);
    assert(amount * unit <= 0x1_0000_0000_0000_0000 * unit) by (nonlinear_arith)
        requires
            amount <= 0x1_0000_0000_0000_0000,
    ;
    assert(ua <= 0x10_0000_0000_0000_0000 * unit);
    assert(2 * num < (ieee::units(f, (top - 1) as nat) + ieee::units(f, top)) * den)
        by (nonlinear_arith)
        requires
            num == ua * unit,
            ua <= 0x10_0000_0000_0000_0000 * unit,
            unit <= 2000 * den,
            unit > 0,
            den > 0,
            ieee::units(f, top) > 0x1000_0000_0000_0000_0000_0000 * unit,
            ieee::units(f, (top - 1) as nat) >= 0,
    ;
    ieee::law_rounding_overflows(f, num, den);
    ieee::law_rounding_error(f, num, den);
    let q = ieee::nearest(f, num, den);
    let result = number::double_whole(amount).quotient(span);
    assert(result.parts() == (Parts { neg: false, mag: q as u64 }));
    number::law_without_its_fraction(result);
    let v = ieee::units(f, q) as int;
    let r = number::rate(amount, nanos);
    assert(r == number::to_u64(result));
    assert(result.bits == q);
    lemma_rate_error(amount as int, n, r, unit as int, ua as int, x, v, u64::MAX as int);
}

/// The infinity counts as a number far beyond every amount.
proof fn lemma_largest()
    ensures
        ieee::units(Format::Double, Format::Double.infinity()) > 0x1000_0000_0000_0000_0000_0000
            * pow2(1074),
{
    let f = Format::Double;
    lemma2_to64();
    lemma2_to64_rest();
    assert(0x7ff0_0000_0000_0000nat / 0x10_0000_0000_0000 == 2047);
    assert(0x7ff0_0000_0000_0000nat % 0x10_0000_0000_0000 == 0);
    lemma_pow2_adds(972, 1074);
    lemma_pow2_strictly_increases(96, 972);
    lemma_pow2_adds(64, 32);
    lemma_pow2_pos(1074);
    let k = pow2(1074);
    assert(pow2(96) == 0x1_0000_0000_0000_0000_0000_0000);
    assert(0x10_0000_0000_0000 * (pow2(972) * k) > 0x1000_0000_0000_0000_0000_0000 * k)
        by (nonlinear_arith)
        requires
            pow2(972) > 0x1_0000_0000_0000_0000_0000_0000,
            k > 0,
    ;
}

/// The difference of two numbers that are not large, in units.
proof fn lemma_single_difference(a: Single, b: Single) -> (s: int)
    requires
        a.finite() && b.finite(),
        0 <= a.scaled() <= 0x100_0000 * pow2(149),
        0 <= b.scaled() <= 0x100_0000 * pow2(149),
    ensures
        a.difference(b).finite(),
        a.difference(b).scaled() == s,
        0x100_0000 * (a.scaled() - b.scaled() - s) <= 0x80_0000 + (if s < 0 {
            -s
        } else {
            s
        }),
        0x100_0000 * (s - (a.scaled() - b.scaled())) <= 0x80_0000 + (if s < 0 {
            -s
        } else {
            s
        }),
{
    let f = Format::Single;
    let x = a.parts();
    let y = ieee::negated(b.parts());
    assert(y.scaled(f) == -b.scaled());
    let exact = a.scaled() - b.scaled();
    let size = if exact < 0 {
        -exact
    } else {
        exact
    };
    number::lemma_small_whole(0x100_0000);
    let top = number::single_whole(0x100_0000);
    let m = top.parts().mag as nat;
    assert(ieee::units(f, m) == 0x100_0000 * pow2(149));
    assert(size as nat <= ieee::units(f, m) * 1);
    ieee::law_rounding_is_bounded(f, size as nat, 1, m);
    ieee::law_rounding_error(f, size as nat, 1);
    let n = ieee::nearest(f, size as nat, 1);
    let u = ieee::units(f, n) as int;
    assert(u * 1 == u && (0x80_0000 + u) * 1 == 0x80_0000 + u);
    assert(ieee::units(f, 0) == 0);
    assert(0x100_0000 * (size - u) <= 0x80_0000 + u);
    assert(0x100_0000 * (u - size) <= 0x80_0000 + u);
    let r = a.difference(b);
    if exact == 0 {
        assert(r.parts().mag == 0);
        assert(r.scaled() == 0);
        0
    } else if exact < 0 {
        assert(r.parts() == (Parts { neg: true, mag: n as u64 }));
        -u
    } else {
        assert(r.parts() == (Parts { neg: false, mag: n as u64 }));
        u
    }
}

/// 273.15, in units.
proof fn lemma_zero_celsius() -> (z: int)
    ensures
        temperature::zero_celsius().finite(),
        temperature::zero_celsius().scaled() == z,
        0 <= z <= 274 * pow2(149),
        0x100_0000 * (27315 * pow2(149) - 100 * z) <= (0x80_0000 + z) * 100,
        0x100_0000 * (100 * z - 27315 * pow2(149)) <= (0x80_0000 + z) * 100,
{
    let f = Format::Single;
    let unit = pow2(149);
    number::lemma_small_whole(274);
    let m = number::single_whole(274).parts().mag as nat;
    assert(ieee::units(f, m) == 274 * unit);
    let num = 27315 * unit;
    ieee::law_rounding_is_bounded(f, num, 100, m);
    ieee::law_rounding_error(f, num, 100);
    let n = ieee::nearest(f, num, 100);
    if n < m {
        ieee::lemma_units_increase(f, n, m);
    }
    assert(temperature::zero_celsius().parts() == (Parts { neg: false, mag: n as u64 }));
    ieee::units(f, n) as int
}

proof fn lemma_decikelvin_error(v: int, u: int, q: int, z: int, s: int)
    requires
        0 <= v,
        0x10_0000_0000_0000 <= u,
        0 <= q,
        0 <= z,
        0x100_0000 * (v * u - 10 * q) <= (0x80_0000 + q) * 10,
        0x100_0000 * (10 * q - v * u) <= (0x80_0000 + q) * 10,
        0x100_0000 * (27315 * u - 100 * z) <= (0x80_0000 + z) * 100,
        0x100_0000 * (100 * z - 27315 * u) <= (0x80_0000 + z) * 100,
        0x100_0000 * (q - z - s) <= 0x80_0000 + (if s < 0 {
            -s
        } else {
            s
        }),
        0x100_0000 * (s - (q - z)) <= 0x80_0000 + (if s < 0 {
            -s
        } else {
            s
        }),
    ensures
        0x8_0000 * (100 * s - (10 * (v * u) - 27315 * u)) <= 10 * (v * u) + 27315 * u,
        0x8_0000 * ((10 * (v * u) - 27315 * u) - 100 * s) <= 10 * (v * u) + 27315 * u,
{
    let w = v * u;
    assert(w >= 0) by (nonlinear_arith)
        requires
            w == v * u,
            v >= 0,
            u >= 0,
    ;
}

/// Tenths of a kelvin in degrees Celsius are a tenth of them less 273.15, but for one part
/// in 2^19 of the two together.
pub proof fn law_tenths_of_kelvins_are_accurate(value: u32)
    requires
        value <= 0x100_0000,
    ensures
        ({
            let s = temperature::celsius_of_decikelvin(value).scaled();
            let u = pow2(149) as int;
            &&& temperature::celsius_of_decikelvin(value).finite()
            &&& 0x8_0000 * (100 * s - (10 * (value * u) - 27315 * u)) <= 10 * (value * u) + 27315
                * u
            &&& 0x8_0000 * ((10 * (value * u) - 27315 * u) - 100 * s) <= 10 * (value * u) + 27315
                * u
        }),
{
    let f = Format::Single;
    let unit = pow2(149);
    lemma_lengths();
    number::lemma_small_whole(value as nat);
    number::lemma_small_whole(10);
    let a = number::single_whole(value as nat);
    let b = number::single_whole(10);
    let ua = ieee::units(f, a.parts().mag as nat);
    let ub = ieee::units(f, b.parts().mag as nat);
    assert(ua == value * unit && ub == 10 * unit);
    assert(b.parts().mag != 0) by {
        assert(ieee::units(f, 0) == 0);
    }
    let num = ua * unit;
    assert(num <= ua * ub) by (nonlinear_arith)
        requires
            num == ua * unit,
            ub == 10 * unit,
    ;
    ieee::law_rounding_is_bounded(f, num, ub, a.parts().mag as nat);
    ieee::law_rounding_error(f, num, ub);
    let n = ieee::nearest(f, num, ub);
    if n < a.parts().mag {
        ieee::lemma_units_increase(f, n, a.parts().mag as nat);
    }
    let quotient = a.quotient(b);
    assert(quotient.parts() == (Parts { neg: false, mag: n as u64 }));
    let q = ieee::units(f, n) as int;
    let e = 0x100_0000 * (ua - 10 * q);
    assert(-((0x80_0000 + q) * 10) <= e <= (0x80_0000 + q) * 10) by (nonlinear_arith)
        requires
            0x100_0000 * (num - q * ub) <= (0x80_0000 + q) * ub,
            0x100_0000 * (q * ub - num) <= (0x80_0000 + q) * ub,
            num == ua * unit,
            ub == 10 * unit,
            unit > 0,
            e == 0x100_0000 * (ua - 10 * q),
    ;
    assert(value * unit <= 0x100_0000 * unit) by (nonlinear_arith)
        requires
            value <= 0x100_0000,
    ;
    let z = lemma_zero_celsius();
    let s = lemma_single_difference(quotient, temperature::zero_celsius());
    lemma_decikelvin_error(value as int, unit as int, q, z, s);
}

/// Kelvins in degrees Celsius are that many less 273.15, but for one part in 2^19 of the
/// two together.
pub proof fn law_kelvins_are_accurate(value: u32)
    requires
        value <= 0x100_0000,
    ensures
        ({
            let s = temperature::celsius_of_kelvin(value).scaled();
            let u = pow2(149) as int;
            &&& temperature::celsius_of_kelvin(value).finite()
            &&& 0x8_0000 * (100 * s - (100 * (value * u) - 27315 * u)) <= 100 * (value * u) + 27315
                * u
            &&& 0x8_0000 * ((100 * (value * u) - 27315 * u) - 100 * s) <= 100 * (value * u) + 27315
                * u
        }),
{
    let unit = pow2(149);
    lemma_lengths();
    number::lemma_small_whole(value as nat);
    assert(value * unit <= 0x100_0000 * unit) by (nonlinear_arith)
        requires
            value <= 0x100_0000,
    ;
    assert(value * unit >= 0) by (nonlinear_arith);
    let z = lemma_zero_celsius();
    let s = lemma_single_difference(
        number::single_whole(value as nat),
        temperature::zero_celsius(),
    );
    let w = (value * unit) as int;
    lemma_kelvin_error(w, unit as int, z, s);
}

proof fn lemma_kelvin_error(w: int, u: int, z: int, s: int)
    requires
        0 <= w,
        0x10_0000_0000_0000 <= u,
        0 <= z,
        0x100_0000 * (27315 * u - 100 * z) <= (0x80_0000 + z) * 100,
        0x100_0000 * (100 * z - 27315 * u) <= (0x80_0000 + z) * 100,
        0x100_0000 * (w - z - s) <= 0x80_0000 + (if s < 0 {
            -s
        } else {
            s
        }),
        0x100_0000 * (s - (w - z)) <= 0x80_0000 + (if s < 0 {
            -s
        } else {
            s
        }),
    ensures
        0x8_0000 * (100 * s - (100 * w - 27315 * u)) <= 100 * w + 27315 * u,
        0x8_0000 * ((100 * w - 27315 * u) - 100 * s) <= 100 * w + 27315 * u,
{
}

/// The numbers through which any part in percent of a whole is computed, and how far each
/// is off.
proof fn lemma_percent_steps(part: nat, whole: nat) -> (s: Steps)
    requires
        0 < whole <= u64::MAX,
        part <= u64::MAX,
    ensures
        number::percent(part, whole).finite(),
        number::percent(part, whole).scaled() == s.result,
        0 <= s.part,
        pow2(1074) <= s.whole,
        0 <= s.quotient,
        0 <= s.product,
        0 <= s.result,
        0x20_0000_0000_0000 * (part * pow2(1074) - s.part) <= 0x10_0000_0000_0000 + s.part,
        0x20_0000_0000_0000 * (s.part - part * pow2(1074)) <= 0x10_0000_0000_0000 + s.part,
        0x20_0000_0000_0000 * (whole * pow2(1074) - s.whole) <= 0x10_0000_0000_0000 + s.whole,
        0x20_0000_0000_0000 * (s.whole - whole * pow2(1074)) <= 0x10_0000_0000_0000 + s.whole,
        0x20_0000_0000_0000 * (s.part * pow2(1074) - s.quotient * s.whole) <= (
        0x10_0000_0000_0000 + s.quotient) * s.whole,
        0x20_0000_0000_0000 * (s.quotient * s.whole - s.part * pow2(1074)) <= (
        0x10_0000_0000_0000 + s.quotient) * s.whole,
        0x20_0000_0000_0000 * (100 * s.quotient - s.product) <= 0x10_0000_0000_0000 + s.product,
        0x20_0000_0000_0000 * (s.product - 100 * s.quotient) <= 0x10_0000_0000_0000 + s.product,
        0x100_0000 * (s.product - s.result * pow2(925)) <= (0x80_0000 + s.result) * pow2(925),
        0x100_0000 * (s.result * pow2(925) - s.product) <= (0x80_0000 + s.result) * pow2(925),
{
    let f = Format::Double;
    let unit = pow2(1074);
    let hundred = 0x4059_0000_0000_0000nat;
    lemma_lengths();
    lemma_one_and_hundred();
    lemma_largest();
    lemma_largest_single();
    let ua = lemma_counted(part) as nat;
    let ub = lemma_counted(whole) as nat;
    let b = number::double_whole(whole).parts().mag as nat;
    assert(b > 0) by {
        assert(ieee::units(f, 0) == 0);
    }
    assert(part * unit <= 0x1_0000_0000_0000_0000 * unit) by (nonlinear_arith)
        requires
            part <= 0x1_0000_0000_0000_0000,
    ;
    assert(ua <= 0x4_0000_0000_0000_0000 * unit);
    let top = f.infinity();
    let high = ieee::units(f, top);
    let beyond = ieee::units(f, (top - 1) as nat);

    let num = ua * unit;
    assert(2 * num < (beyond + high) * ub) by (nonlinear_arith)
        requires
            num == ua * unit,
            ua <= 0x4_0000_0000_0000_0000 * unit,
            unit <= ub,
            unit > 0,
            beyond >= 0,
            high > 0x1000_0000_0000_0000_0000_0000 * unit,
    ;
    ieee::law_rounding_overflows(f, num, ub);
    ieee::law_rounding_error(f, num, ub);
    let q = ieee::nearest(f, num, ub);
    let uq = ieee::units(f, q);
    let quotient = number::double_whole(part).quotient(number::double_whole(whole));
    assert(quotient.parts() == (Parts { neg: false, mag: q as u64 }));
    assert(uq <= 2 * ua + 1) by (nonlinear_arith)
        requires
            0x20_0000_0000_0000 * (uq * ub - num) <= (0x10_0000_0000_0000 + uq) * ub,
            num == ua * unit,
            unit <= ub,
            unit > 0,
            ua >= 0,
    ;

    ieee::law_rounding_keeps_numbers(f, hundred, 1);
    assert(ieee::units(f, hundred) * 1 == 100 * unit);
    assert(number::double_whole(100).parts() == (Parts { neg: false, mag: hundred as u64 }));
    let times = uq * (100 * unit);
    assert(2 * times < (beyond + high) * unit) by (nonlinear_arith)
        requires
            times == uq * (100 * unit),
            uq <= 0x8_0000_0000_0000_0000 * unit + 1,
            unit > 0,
            beyond >= 0,
            high > 0x1000_0000_0000_0000_0000_0000 * unit,
    ;
    ieee::law_rounding_overflows(f, times, unit);
    ieee::law_rounding_error(f, times, unit);
    let r = ieee::nearest(f, times, unit);
    let ur = ieee::units(f, r);
    let product = quotient.product(number::double_whole(100));
    assert(product.parts() == (Parts { neg: false, mag: r as u64 }));
    let e: int = 0x20_0000_0000_0000 * (100 * uq - ur);
    assert(-(0x10_0000_0000_0000 + ur) <= e <= 0x10_0000_0000_0000 + ur) by (nonlinear_arith)
        requires
            0x20_0000_0000_0000 * (times - ur * unit) <= (0x10_0000_0000_0000 + ur) * unit,
            0x20_0000_0000_0000 * (ur * unit - times) <= (0x10_0000_0000_0000 + ur) * unit,
            times == uq * (100 * unit),
            unit > 0,
            e == 0x20_0000_0000_0000 * (100 * uq - ur),
    ;

    let p = pow2(925);
    let edge = Format::Single.infinity();
    let wide = ieee::units(Format::Single, edge);
    let below = ieee::units(Format::Single, (edge - 1) as nat);
    assert(ur <= 0x1000_0000_0000_0000_0000_0000 * unit);
    assert(2 * ur < (below + wide) * p) by (nonlinear_arith)
        requires
            ur <= 0x1000_0000_0000_0000_0000_0000 * unit,
            unit == pow2(149) * p,
            p > 0,
            below >= 0,
            wide > 0x1_0000_0000_0000_0000_0000_0000_0000 * pow2(149),
            pow2(149) > 0,
    ;
    ieee::law_rounding_overflows(Format::Single, ur, p);
    ieee::law_rounding_error(Format::Single, ur, p);
    let n = ieee::nearest(Format::Single, ur, p);
    assert(number::percent(part, whole).parts() == (Parts { neg: false, mag: n as u64 }));
    Steps {
        part: ua as int,
        whole: ub as int,
        quotient: uq as int,
        product: ur as int,
        result: ieee::units(Format::Single, n) as int,
    }
}

proof fn lemma_largest_single()
    ensures
        ieee::units(Format::Single, Format::Single.infinity())
            > 0x1_0000_0000_0000_0000_0000_0000_0000 * pow2(149),
{
    lemma2_to64();
    lemma2_to64_rest();
    assert(0x7f80_0000nat / 0x80_0000 == 255 && 0x7f80_0000nat % 0x80_0000 == 0);
    lemma_pow2_adds(105, 149);
    lemma_pow2_adds(64, 41);
    lemma_pow2_pos(149);
    let k = pow2(149);
    assert(0x80_0000 * (pow2(105) * k) > 0x1_0000_0000_0000_0000_0000_0000_0000 * k)
        by (nonlinear_arith)
        requires
            pow2(105) == 0x200_0000_0000_0000_0000_0000_0000,
            k > 0,
    ;
}

/// The quotient times the whole is the part, but for one part in 2^34 of the two.
proof fn lemma_quotient_error(part: int, whole: int, u: int, a: int, b: int, q: int)
    requires
        0x10_0000_0000_0000_0000_0000_0000 <= u <= b,
        0 <= part,
        0 < whole,
        0 <= a,
        0 <= q,
        0x20_0000_0000_0000 * (part * u - a) <= 0x10_0000_0000_0000 + a,
        0x20_0000_0000_0000 * (a - part * u) <= 0x10_0000_0000_0000 + a,
        0x20_0000_0000_0000 * (whole * u - b) <= 0x10_0000_0000_0000 + b,
        0x20_0000_0000_0000 * (b - whole * u) <= 0x10_0000_0000_0000 + b,
        0x20_0000_0000_0000 * (a * u - q * b) <= (0x10_0000_0000_0000 + q) * b,
        0x20_0000_0000_0000 * (q * b - a * u) <= (0x10_0000_0000_0000 + q) * b,
    ensures
        0x4_0000_0000 * (whole * q - part * u) <= part * u + whole * u,
        0x4_0000_0000 * (part * u - whole * q) <= part * u + whole * u,
{
    let c: int = 0x1000_0000_0000;
    let d: int = 0x10_0000_0000_0000;
    let pu = part * u;
    let wu = whole * u;
    assert(pu >= 0 && wu >= u) by (nonlinear_arith)
        requires
            pu == part * u,
            wu == whole * u,
            part >= 0,
            whole >= 1,
            u > 0,
    ;
    assert(c * (a - pu) <= pu + d && c * (pu - a) <= pu + d);
    assert(c * (b - wu) <= wu + d && c * (wu - b) <= wu + d);
    let z = u * pu;
    let m = u * wu;
    let du = d * u;
    let w = a * u;
    assert(c * (w - z) <= z + du && c * (z - w) <= z + du) by (nonlinear_arith)
        requires
            c * (a - pu) <= pu + d,
            c * (pu - a) <= pu + d,
            w == a * u,
            z == u * pu,
            du == d * u,
            u > 0,
    ;
    let y = q * wu;
    let t = q * b;
    let dq = d * q;
    assert(c * (t - y) <= y + dq && c * (y - t) <= y + dq) by (nonlinear_arith)
        requires
            c * (b - wu) <= wu + d,
            c * (wu - b) <= wu + d,
            y == q * wu,
            t == q * b,
            dq == d * q,
            q >= 0,
    ;
    let db = d * b;
    assert((d + q) * b == db + t) by (nonlinear_arith)
        requires
            db == d * b,
            t == q * b,
    ;
    assert(t >= 0 && y >= 0 && z >= 0 && w >= 0) by (nonlinear_arith)
        requires
            t == q * b,
            y == q * wu,
            z == u * pu,
            w == a * u,
            q >= 0,
            b >= 0,
            wu >= 0,
            u > 0,
            pu >= 0,
            a >= 0,
    ;
    assert(c * (t - w) <= w + db && c * (w - t) <= w + db);
    assert(du <= m) by (nonlinear_arith)
        requires
            du == d * u,
            m == u * wu,
            d <= wu,
            u > 0,
    ;
    assert(db <= m) by (nonlinear_arith)
        requires
            db == d * b,
            m == u * wu,
            2 * d <= u,
            b <= 2 * wu,
            wu > 0,
            d > 0,
    ;
    assert(dq <= t) by (nonlinear_arith)
        requires
            dq == d * q,
            t == q * b,
            d <= b,
            q >= 0,
    ;
    assert(c * (y - z) <= 20 * (z + m));
    assert(c * (z - y) <= 20 * (z + m));
    let x = whole * q;
    assert(y == u * x) by (nonlinear_arith)
        requires
            y == q * wu,
            wu == whole * u,
            x == whole * q,
    ;
    assert(0x4_0000_0000 * (x - pu) <= pu + wu && 0x4_0000_0000 * (pu - x) <= pu + wu)
        by (nonlinear_arith)
        requires
            0x4_0000_0000 * (u * x - u * pu) <= u * pu + u * wu,
            0x4_0000_0000 * (u * pu - u * x) <= u * pu + u * wu,
            u > 0,
    ;
}

/// Any part in percent of a whole, also more than all of it, is off by less than one part
/// in 2^16 of the two together, the whole counted as one percent.
pub proof fn law_percentages_are_accurate(part: nat, whole: nat)
    requires
        0 < whole <= u64::MAX,
        part <= u64::MAX,
    ensures
        number::percent(part, whole).finite(),
        ({
            let r = number::percent(part, whole).scaled();
            let exact = 100 * (part * pow2(149));
            &&& 0x1_0000 * (r * whole - exact) <= exact + whole * pow2(149)
            &&& 0x1_0000 * (exact - r * whole) <= exact + whole * pow2(149)
        }),
{
    let s = lemma_percent_steps(part, whole);
    let u = pow2(1074) as int;
    let p = pow2(925) as int;
    let k = pow2(149) as int;
    let w = whole as int;
    lemma_lengths();
    lemma2_to64();
    lemma2_to64_rest();
    lemma_pow2_strictly_increases(100, 1074);
    lemma_pow2_adds(64, 36);
    lemma_quotient_error(part as int, w, u, s.part, s.whole, s.quotient);
    let pu = part * u;
    let wu = w * u;
    let x = w * s.quotient;
    assert(pu >= 0 && wu >= u && x >= 0) by (nonlinear_arith)
        requires
            pu == part * u,
            wu == w * u,
            x == w * s.quotient,
            part >= 0,
            w >= 1,
            u > 0,
            s.quotient >= 0,
    ;
    let d: int = 0x10_0000_0000_0000;
    let wr = w * s.product;
    let wd = w * d;
    assert(0x20_0000_0000_0000 * (100 * x - wr) <= wd + wr && 0x20_0000_0000_0000 * (wr - 100 * x)
        <= wd + wr) by (nonlinear_arith)
        requires
            0x20_0000_0000_0000 * (100 * s.quotient - s.product) <= d + s.product,
            0x20_0000_0000_0000 * (s.product - 100 * s.quotient) <= d + s.product,
            x == w * s.quotient,
            wr == w * s.product,
            wd == w * d,
            w > 0,
    ;
    assert(wd <= wu) by (nonlinear_arith)
        requires
            wd == w * d,
            wu == w * u,
            d <= u,
            w > 0,
    ;
    let np = s.result * p;
    assert((0x80_0000 + s.result) * p == 0x80_0000 * p + np) by (nonlinear_arith)
        requires
            np == s.result * p,
    ;
    let wn = w * np;
    assert(0x100_0000 * (wr - wn) <= wu + wn && 0x100_0000 * (wn - wr) <= wu + wn)
        by (nonlinear_arith)
        requires
            0x100_0000 * (s.product - np) <= u + np,
            0x100_0000 * (np - s.product) <= u + np,
            wr == w * s.product,
            wn == w * np,
            wu == w * u,
            w > 0,
    ;
    assert(wn >= 0) by (nonlinear_arith)
        requires
            wn == w * np,
            np == s.result * p,
            w > 0,
            s.result >= 0,
            p > 0,
    ;
    assert(0x1_0000 * (wn - 100 * pu) <= 100 * pu + wu);
    assert(0x1_0000 * (100 * pu - wn) <= 100 * pu + wu);
    let rw = s.result * w;
    let pk = part * k;
    let wk = w * k;
    assert(wn == rw * p && pu == pk * p && wu == wk * p) by (nonlinear_arith)
        requires
            wn == w * (s.result * p),
            rw == s.result * w,
            pu == part * u,
            pk == part * k,
            wu == w * u,
            wk == w * k,
            u == k * p,
    ;
    assert(0x1_0000 * (rw - 100 * pk) <= 100 * pk + wk) by (nonlinear_arith)
        requires
            0x1_0000 * (rw * p - 100 * (pk * p)) <= 100 * (pk * p) + wk * p,
            p > 0,
    ;
    assert(0x1_0000 * (100 * pk - rw) <= 100 * pk + wk) by (nonlinear_arith)
        requires
            0x1_0000 * (100 * (pk * p) - rw * p) <= 100 * (pk * p) + wk * p,
            p > 0,
    ;
}

/// A number that is not below another is not below it either once the same is taken away.
proof fn lemma_differences_are_ordered(a: Single, b: Single, z: Single)
    requires
        a.finite() && b.finite() && z.finite(),
        a.scaled() <= b.scaled(),
    ensures
        !a.difference(z).nan() && !b.difference(z).nan(),
        a.difference(z).scaled() <= b.difference(z).scaled(),
{
    let f = Format::Single;
    let x = a.scaled() - z.scaled();
    let y = b.scaled() - z.scaled();
    assert(ieee::negated(z.parts()).scaled(f) == -z.scaled());
    let xs = if x < 0 {
        -x
    } else {
        x
    };
    let ys = if y < 0 {
        -y
    } else {
        y
    };
    ieee::law_rounding_overflows(f, xs as nat, 1);
    ieee::law_rounding_overflows(f, ys as nat, 1);
    let m = ieee::nearest(f, xs as nat, 1);
    let n = ieee::nearest(f, ys as nat, 1);
    if xs <= ys {
        ieee::law_rounding_is_monotone(f, xs as nat, ys as nat, 1);
        if m < n {
            ieee::lemma_units_increase(f, m, n);
        }
    } else {
        ieee::law_rounding_is_monotone(f, ys as nat, xs as nat, 1);
        if n < m {
            ieee::lemma_units_increase(f, n, m);
        }
    }
    assert(ieee::units(f, 0) == 0);
    let p = a.difference(z);
    let q = b.difference(z);
    assert(x > 0 ==> p.parts() == (Parts { neg: false, mag: m as u64 }));
    assert(x < 0 ==> p.parts() == (Parts { neg: true, mag: m as u64 }));
    assert(x == 0 ==> p.parts().mag == 0);
    assert(y > 0 ==> q.parts() == (Parts { neg: false, mag: n as u64 }));
    assert(y < 0 ==> q.parts() == (Parts { neg: true, mag: n as u64 }));
    assert(y == 0 ==> q.parts().mag == 0);
}

/// A `u32` in single precision is finite and not below zero, and a larger one not smaller.
proof fn lemma_counts_are_ordered(a: u32, b: u32)
    requires
        a <= b,
    ensures
        number::single_whole(a as nat).finite(),
        number::single_whole(b as nat).finite(),
        !number::single_whole(a as nat).parts().neg,
        !number::single_whole(b as nat).parts().neg,
        number::single_whole(a as nat).parts().mag <= number::single_whole(b as nat).parts().mag,
        number::single_whole(a as nat).scaled() <= number::single_whole(b as nat).scaled(),
{
    let f = Format::Single;
    let unit = pow2(149);
    lemma_largest_single();
    assert(a * unit <= b * unit && b * unit <= 0x1_0000_0000 * unit) by (nonlinear_arith)
        requires
            a <= b,
            b <= 0x1_0000_0000,
    ;
    ieee::law_rounding_overflows(f, a as nat * unit, 1);
    ieee::law_rounding_overflows(f, b as nat * unit, 1);
    ieee::law_rounding_is_monotone(f, a as nat * unit, b as nat * unit, 1);
    let m = ieee::nearest(f, a as nat * unit, 1);
    let n = ieee::nearest(f, b as nat * unit, 1);
    lemma_pow2_pos(149);
    assert(number::single_whole(a as nat).parts() == (Parts { neg: false, mag: m as u64 }));
    assert(number::single_whole(b as nat).parts() == (Parts { neg: false, mag: n as u64 }));
    if m < n {
        ieee::lemma_units_increase(f, m, n);
    }
}

/// What is hotter in kelvins, or in tenths of them, is not colder in degrees Celsius.
pub proof fn law_temperatures_keep_their_order(a: u32, b: u32)
    requires
        a <= b,
    ensures
        !temperature::celsius_of_kelvin(a).nan(),
        temperature::celsius_of_kelvin(a).scaled() <= temperature::celsius_of_kelvin(b).scaled(),
        !temperature::celsius_of_decikelvin(a).nan(),
        temperature::celsius_of_decikelvin(a).scaled() <= temperature::celsius_of_decikelvin(
            b,
        ).scaled(),
{
    let f = Format::Single;
    let x = number::single_whole(a as nat);
    let y = number::single_whole(b as nat);
    let ten = number::single_whole(10);
    lemma_zero_celsius();
    let zero = temperature::zero_celsius();
    lemma_counts_are_ordered(a, b);
    lemma_differences_are_ordered(x, y, zero);
    number::lemma_small_whole(10);
    lemma_pow2_pos(149);
    let unit = pow2(149);
    assert(ten.parts().mag != 0) by {
        assert(ieee::units(f, 0) == 0);
    }
    let den = ieee::units(f, ten.parts().mag as nat);
    assert(den == 10 * unit);
    let ux = ieee::units(f, x.parts().mag as nat);
    let uy = ieee::units(f, y.parts().mag as nat);
    assert(ux * unit <= uy * unit && uy * unit <= uy * den) by (nonlinear_arith)
        requires
            ux <= uy,
            den == 10 * unit,
    ;
    ieee::law_rounding_is_monotone(f, ux * unit, uy * unit, den);
    ieee::law_rounding_is_bounded(f, uy * unit, den, y.parts().mag as nat);
    let m = ieee::nearest(f, ux * unit, den);
    let n = ieee::nearest(f, uy * unit, den);
    assert(x.quotient(ten).parts() == (Parts { neg: false, mag: m as u64 }));
    assert(y.quotient(ten).parts() == (Parts { neg: false, mag: n as u64 }));
    if m < n {
        ieee::lemma_units_increase(f, m, n);
    }
    lemma_differences_are_ordered(x.quotient(ten), y.quotient(ten), zero);
}

} // verus!
