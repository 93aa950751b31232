//! How far rounding can put a window from its place: lengths are divided by the
//! screen's scale, compared and added there, and multiplied by it again.

use crate::ieee;
use crate::ieee::{Format, Parts};
use crate::number;
use crate::number::Double;
use vstd::arithmetic::power2::*;
use vstd::prelude::*;

verus! {

/// A number times 2^1074, a whole number.
pub open spec fn scaled(x: Double) -> int {
    x.parts().scaled(Format::Double)
}

pub open spec fn finite(x: Double) -> bool {
    x.parts().finite(Format::Double)
}

/// Whether a scale is a number above zero.
pub open spec fn is_scale(x: Double) -> bool {
    finite(x) && scaled(x) > 0
}

/// The size of a number without its sign.
pub open spec fn size(n: int) -> int {
    if n < 0 {
        -n
    } else {
        n
    }
}

/// Whether `r` is `e` but for a rounding error, both times `den`.
spec fn rounding(e: int, r: int, den: int) -> bool {
    &&& 0x20_0000_0000_0000 * (e - r) <= 0x10_0000_0000_0000 * den + size(r)
    &&& 0x20_0000_0000_0000 * (r - e) <= 0x10_0000_0000_0000 * den + size(r)
}

/// Whether `r` is `e` but for less than a thousandth of `g`.
spec fn close(e: int, r: int, g: int) -> bool {
    &&& 0x400 * (e - r) <= g
    &&& 0x400 * (r - e) <= g
}

proof fn lemma_close(e: int, r: int, den: int, g: int)
    requires
        rounding(e, r, den),
        size(e) <= 0x100_0000_0000 * g,
        0 < den,
        0x10_0000 * den <= g,
    ensures
        close(e, r, g),
{
}

/// A double from its parts.
proof fn lemma_double_parts(p: Parts)
    requires
        p.mag <= Format::Double.infinity(),
    ensures
        number::double(p).parts() == p,
{
}

proof fn lemma_rounding(num: nat, den: nat, neg: bool)
    requires
        den > 0,
        ieee::nearest(Format::Double, num, den) < Format::Double.infinity(),
    ensures
        ({
            let p = Parts { neg, mag: ieee::nearest(Format::Double, num, den) as u64 };
            let e = if neg {
                -(num as int)
            } else {
                num as int
            };
            rounding(e, p.scaled(Format::Double) * den, den as int)
        }),
{
    let f = Format::Double;
    ieee::law_rounding_error(f, num, den);
    let u = ieee::units(f, ieee::nearest(f, num, den));
    assert((f.lead() + u) * den == f.lead() * den + u * den) by (nonlinear_arith);
    assert((-u) * den == -(u * den)) by (nonlinear_arith);
    assert(u * den >= 0) by (nonlinear_arith)
        requires
            u >= 0,
            den > 0,
    ;
}

/// What a whole number divided by the scale comes to, times the scale.
proof fn lemma_quotient(a: int, scale: Double)
    requires
        -0x2_0000_0000 <= a <= 0x2_0000_0000,
        is_scale(scale),
        finite(number::double_int(a).quotient(scale)),
    ensures
        rounding(
            a * (pow2(1074) * pow2(1074)),
            scaled(number::double_int(a).quotient(scale)) * scaled(scale),
            scaled(scale),
        ),
{
    let f = Format::Double;
    let k = pow2(1074);
    let n = size(a) as nat;
    number::lemma_whole_double(n);
    ieee::law_rounding_exists(f, n * k, 1);
    let x = number::double_int(a);
    let m = number::double_whole(n).parts().mag;
    lemma_double_parts(Parts { neg: false, mag: m });
    lemma_double_parts(Parts { neg: true, mag: m });
    assert(x.parts() == (Parts { neg: a < 0, mag: m }));
    let s = ieee::units(f, scale.parts().mag as nat);
    assert(scale.parts().mag != 0) by {
        assert(ieee::units(f, 0) == 0);
    }
    let num = n * k * k;
    ieee::law_rounding_exists(f, num, s);
    let r = Parts { neg: a < 0, mag: ieee::nearest(f, num, s) as u64 };
    lemma_double_parts(r);
    assert(x.quotient(scale).parts() == r);
    lemma_rounding(num, s, a < 0);
    assert(n * k * k == n * (k * k)) by (nonlinear_arith);
    assert((-n) * (k * k) == -(n * (k * k))) by (nonlinear_arith);
}

/// The sum of two numbers.
proof fn lemma_sum(a: Parts, b: Parts)
    requires
        a.finite(Format::Double),
        b.finite(Format::Double),
        ieee::sum(Format::Double, a, b).finite(Format::Double),
    ensures
        rounding(
            a.scaled(Format::Double) + b.scaled(Format::Double),
            ieee::sum(Format::Double, a, b).scaled(Format::Double),
            1,
        ),
{
    let f = Format::Double;
    let exact = a.scaled(f) + b.scaled(f);
    assert(ieee::units(f, 0) == 0);
    if exact != 0 {
        let n = size(exact) as nat;
        ieee::law_rounding_exists(f, n, 1);
        lemma_rounding(n, 1, exact < 0);
        let p = Parts { neg: exact < 0, mag: ieee::nearest(f, n, 1) as u64 };
        assert(p.scaled(f) * 1 == p.scaled(f));
    }
}

/// A rounding error grows with its number.
proof fn lemma_times(e: int, r: int, s: int)
    requires
        rounding(e, r, 1),
        s > 0,
    ensures
        rounding(e * s, r * s, s),
{
    assert(size(r * s) == size(r) * s) by (nonlinear_arith)
        requires
            s > 0,
    ;
    assert(0x20_0000_0000_0000 * (e * s - r * s) <= 0x10_0000_0000_0000 * s + size(r) * s)
        by (nonlinear_arith)
        requires
            0x20_0000_0000_0000 * (e - r) <= 0x10_0000_0000_0000 + size(r),
            s > 0,
    ;
    assert(0x20_0000_0000_0000 * (r * s - e * s) <= 0x10_0000_0000_0000 * s + size(r) * s)
        by (nonlinear_arith)
        requires
            0x20_0000_0000_0000 * (r - e) <= 0x10_0000_0000_0000 + size(r),
            s > 0,
    ;
}

/// A number times the scale.
proof fn lemma_product(x: Double, scale: Double)
    requires
        finite(x),
        is_scale(scale),
        size(scaled(x)) * scaled(scale) <= 0x1_0000_0000_0000_0000 * (pow2(1074) * pow2(1074)),
    ensures
        finite(x.product(scale)),
        rounding(
            scaled(x) * scaled(scale),
            scaled(x.product(scale)) * pow2(1074),
            pow2(1074) as int,
        ),
{
    let f = Format::Double;
    let k = pow2(1074);
    lemma_pow2_pos(1074);
    let u = ieee::units(f, x.parts().mag as nat);
    let s = ieee::units(f, scale.parts().mag as nat);
    assert(size(scaled(x)) == u);
    number::lemma_two_to_64();
    assert(0x1_0000_0000_0000_0000 * (k * k) == (0x1_0000_0000_0000_0000 * k) * k)
        by (nonlinear_arith);
    ieee::law_rounding_is_bounded(f, u * s, k, 0x43f0_0000_0000_0000);
    let neg = x.parts().neg;
    let p = Parts { neg, mag: ieee::nearest(f, u * s, k) as u64 };
    lemma_double_parts(p);
    assert(x.product(scale).parts() == p);
    lemma_rounding(u * s, k, neg);
    assert((-u) * s == -(u * s)) by (nonlinear_arith);
}

/// A number is rounded to a whole one that is half away at most.
proof fn lemma_rounded(x: Double)
    requires
        finite(x),
    ensures
        2 * pow2(1074) * number::rounded(x) <= 2 * scaled(x) + pow2(1074),
        2 * pow2(1074) * number::rounded(x) >= 2 * scaled(x) - pow2(1074),
{
    let k = pow2(1074) as int;
    lemma_pow2_pos(1074);
    let u = ieee::units(Format::Double, x.parts().mag as nat) as int;
    let n = (2 * u + k) / (2 * k);
    vstd::arithmetic::div_mod::lemma_fundamental_div_mod(2 * u + k, 2 * k);
    vstd::arithmetic::div_mod::lemma_mod_bound(2 * u + k, 2 * k);
    assert((2 * k) * (-n) == -((2 * k) * n)) by (nonlinear_arith);
}

/// The scale and the unit are small beside the square of the unit.
proof fn lemma_sizes(scale: Double)
    requires
        is_scale(scale),
    ensures
        0x10_0000 * scaled(scale) <= pow2(1074) * pow2(1074),
        0x10_0000 * pow2(1074) <= pow2(1074) * pow2(1074),
        pow2(1074) > 0,
{
    let f = Format::Double;
    let k = pow2(1074);
    lemma2_to64();
    lemma2_to64_rest();
    lemma_pow2_pos(1074);
    lemma_pow2_adds(1074, 1074);
    let top = f.infinity();
    ieee::lemma_units_increase(f, scale.parts().mag as nat, top);
    assert(top / f.lead() == 2047 && top % f.lead() == 0);
    lemma_pow2_adds(52, 2046);
    lemma_pow2_adds(50, 2098);
    lemma_pow2_strictly_increases(20, 1074);
    assert(0x10_0000 * k <= k * k) by (nonlinear_arith)
        requires
            0x10_0000 <= k,
    ;
}

/// The errors of one division, one sum and one difference, after another.
proof fn lemma_errors_add(
    area: int,
    len: int,
    ls: int,
    ps: int,
    ms: int,
    ns: int,
    qs: int,
    xs: int,
    s: int,
    g: int,
)
    requires
        0 < s,
        0x10_0000 * s <= g,
        -(0x8000_0000 * g) <= area <= 0x8000_0000 * g,
        0 <= len <= 0x1_0000_0000 * g,
        rounding(area, ls, s),
        rounding(len, ps, s),
        rounding(ls + ps, ms, s),
        rounding(ms - ns, qs, s),
        0 <= ns,
        ls <= xs <= qs,
    ensures
        size(xs) <= 0x100_0000_0000 * g,
        ns <= 0x100_0000_0000 * g,
        0x400 * xs >= 0x400 * area - g,
        0x400 * (xs + ns) <= 0x400 * (area + len) + 4 * g,
        xs == ls ==> 0x400 * xs <= 0x400 * area + g,
        xs == qs ==> 0x400 * (xs + ns) >= 0x400 * (area + len) - 4 * g,
{
    lemma_close(area, ls, s, g);
    lemma_close(len, ps, s, g);
    lemma_close(ls + ps, ms, s, g);
    assert(-(0x100_0000_0000 * g) <= ms - ns);
    lemma_close(ms - ns, qs, s, g);
}

/// Back from lengths times the scale to whole pixels.
proof fn lemma_pixels(
    area: int,
    len: int,
    xs: int,
    ns: int,
    d: int,
    w: int,
    k: int,
    a: int,
    b: int,
)
    requires
        0 < k,
        0x400 * xs >= 0x400 * (area * (k * k)) - k * k,
        0x400 * (xs + ns) <= 0x400 * (area * (k * k) + len * (k * k)) + 4 * (k * k),
        0 <= ns,
        close(xs, d * k, k * k),
        close(ns, w * k, k * k),
        2 * k * a >= 2 * d - k,
        2 * k * a <= 2 * d + k,
        2 * k * b <= 2 * w + k,
    ensures
        area <= a,
        a + b <= area + len + 1,
        a <= area + len,
{
    let end = area + len;
    assert(area * (k * k) + len * (k * k) == end * (k * k)) by (nonlinear_arith)
        requires
            end == area + len,
    ;
    assert(0x400 * d >= 0x400 * (area * k) - 2 * k) by (nonlinear_arith)
        requires
            0x400 * (d * k) >= 0x400 * (area * (k * k)) - 2 * (k * k),
            k > 0,
    ;
    assert(0x400 * (d + w) <= 0x400 * (end * k) + 6 * k) by (nonlinear_arith)
        requires
            0x400 * (d * k + w * k) <= 0x400 * (end * (k * k)) + 6 * (k * k),
            k > 0,
    ;
    assert(0x400 * d <= 0x400 * (end * k) + 6 * k) by (nonlinear_arith)
        requires
            0x400 * (d * k) <= 0x400 * (end * (k * k)) + 6 * (k * k),
            k > 0,
    ;
    assert(a >= area) by (nonlinear_arith)
        requires
            2 * k * a >= 2 * d - k,
            0x400 * d >= 0x400 * (area * k) - 2 * k,
            k > 0,
    ;
    assert(a + b <= end + 1) by (nonlinear_arith)
        requires
            2 * k * a <= 2 * d + k,
            2 * k * b <= 2 * w + k,
            0x400 * (d + w) <= 0x400 * (end * k) + 6 * k,
            k > 0,
    ;
    assert(a <= end) by (nonlinear_arith)
        requires
            2 * k * a <= 2 * d + k,
            0x400 * d <= 0x400 * (end * k) + 6 * k,
            k > 0,
    ;
}

/// The same at the two ends of the work area: at its start the window starts there, and at
/// its end it ends there but for one pixel.
proof fn lemma_pixels_at_ends(
    area: int,
    len: int,
    xs: int,
    ns: int,
    d: int,
    w: int,
    k: int,
    a: int,
    b: int,
)
    requires
        0 < k,
        close(xs, d * k, k * k),
        close(ns, w * k, k * k),
        2 * k * a >= 2 * d - k,
        2 * k * a <= 2 * d + k,
        2 * k * b >= 2 * w - k,
    ensures
        0x400 * xs <= 0x400 * (area * (k * k)) + k * k ==> a <= area,
        0x400 * (xs + ns) >= 0x400 * (area * (k * k) + len * (k * k)) - 4 * (k * k) ==> a + b
            >= area + len - 1,
{
    let end = area + len;
    assert(area * (k * k) + len * (k * k) == end * (k * k)) by (nonlinear_arith)
        requires
            end == area + len,
    ;
    if 0x400 * xs <= 0x400 * (area * (k * k)) + k * k {
        assert(0x400 * d <= 0x400 * (area * k) + 2 * k) by (nonlinear_arith)
            requires
                0x400 * (d * k) <= 0x400 * (area * (k * k)) + 2 * (k * k),
                k > 0,
        ;
        assert(a <= area) by (nonlinear_arith)
            requires
                2 * k * a <= 2 * d + k,
                0x400 * d <= 0x400 * (area * k) + 2 * k,
                k > 0,
        ;
    }
    if 0x400 * (xs + ns) >= 0x400 * (area * (k * k) + len * (k * k)) - 4 * (k * k) {
        assert(0x400 * (d + w) >= 0x400 * (end * k) - 6 * k) by (nonlinear_arith)
            requires
                0x400 * (d * k + w * k) >= 0x400 * (end * (k * k)) - 6 * (k * k),
                k > 0,
        ;
        assert(a + b >= end - 1) by (nonlinear_arith)
            requires
                2 * k * a >= 2 * d - k,
                2 * k * b >= 2 * w - k,
                0x400 * (d + w) >= 0x400 * (end * k) - 6 * k,
                k > 0,
        ;
    }
}

/// The last place inside a work area, in lengths divided by the scale.
pub open spec fn last_place(low: Double, span: Double, window: Double) -> Double {
    low.sum(span).difference(window)
}

/// What the place, and the window's length, times the scale come to before they are
/// brought back.
proof fn lemma_place_times_scale(
    area: int,
    area_len: nat,
    window_len: nat,
    scale: Double,
    x: Double,
)
    requires
        -0x8000_0000 <= area <= 0x7fff_ffff,
        area_len <= 0xffff_ffff,
        window_len <= 0xffff_ffff,
        is_scale(scale),
        ({
            let low = number::double_int(area).quotient(scale);
            let span = number::double_whole(area_len).quotient(scale);
            let max = last_place(low, span, number::double_whole(window_len));
            &&& finite(low)
            &&& finite(max)
            &&& low.at_most(x)
            &&& x.at_most(max)
        }),
    ensures
        finite(x),
        finite(number::double_whole(window_len)),
        ({
            let g = pow2(1074) * pow2(1074);
            let xs = scaled(x) * scaled(scale);
            let ns = scaled(number::double_whole(window_len)) * scaled(scale);
            &&& 0 <= ns <= 0x100_0000_0000 * g
            &&& size(xs) <= 0x100_0000_0000 * g
            &&& 0x400 * xs >= 0x400 * (area * g) - g
            &&& 0x400 * (xs + ns) <= 0x400 * (area * g + area_len * g) + 4 * g
            &&& x == number::double_int(area).quotient(scale) ==> 0x400 * xs <= 0x400 * (area * g)
                + g
            &&& x == last_place(
                number::double_int(area).quotient(scale),
                number::double_whole(area_len).quotient(scale),
                number::double_whole(window_len),
            ) ==> 0x400 * (xs + ns) >= 0x400 * (area * g + area_len * g) - 4 * g
        }),
{
    let k = pow2(1074) as int;
    let g = k * k;
    let s = scaled(scale);
    lemma_sizes(scale);
    let low = number::double_int(area).quotient(scale);
    let span = number::double_whole(area_len).quotient(scale);
    let sum = low.sum(span);
    let window = number::double_whole(window_len);
    let max = last_place(low, span, window);
    number::lemma_whole_double(window_len);
    lemma_finite_parts(low, span, window);
    lemma_between_is_finite(low, x, max);
    lemma_quotient(area, scale);
    lemma_quotient(area_len as int, scale);
    lemma_sum(low.parts(), span.parts());
    lemma_times(scaled(low) + scaled(span), scaled(sum), s);
    lemma_sum(sum.parts(), ieee::negated(window.parts()));
    lemma_times(scaled(sum) - scaled(window), scaled(max), s);
    let ls = scaled(low) * s;
    let ps = scaled(span) * s;
    let ms = scaled(sum) * s;
    let ns = scaled(window) * s;
    let qs = scaled(max) * s;
    let xs = scaled(x) * s;
    lemma_distribute(scaled(low), scaled(span), s);
    lemma_distribute(scaled(sum), -scaled(window), s);
    assert((-scaled(window)) * s == -ns) by (nonlinear_arith)
        requires
            ns == scaled(window) * s,
    ;
    assert(ns >= 0) by (nonlinear_arith)
        requires
            ns == scaled(window) * s,
            scaled(window) >= 0,
            s > 0,
    ;
    assert(ls <= xs <= qs) by (nonlinear_arith)
        requires
            scaled(low) <= scaled(x) <= scaled(max),
            s > 0,
            ls == scaled(low) * s,
            xs == scaled(x) * s,
            qs == scaled(max) * s,
    ;
    assert(-(0x8000_0000 * g) <= area * g <= 0x8000_0000 * g) by (nonlinear_arith)
        requires
            -0x8000_0000 <= area <= 0x8000_0000,
            g >= 0,
    ;
    assert(0 <= area_len * g <= 0x1_0000_0000 * g) by (nonlinear_arith)
        requires
            0 <= area_len <= 0x1_0000_0000,
            g >= 0,
    ;
    lemma_errors_add(area * g, area_len * g, ls, ps, ms, ns, qs, xs, s, g);
}

proof fn lemma_distribute(a: int, b: int, s: int)
    ensures
        (a + b) * s == a * s + b * s,
{
    assert((a + b) * s == a * s + b * s) by (nonlinear_arith);
}

/// A window that starts between the first and the last place inside a work area, in
/// lengths divided by the scale, lies in the work area in pixels, but for one pixel of
/// rounding at its end.
pub proof fn lemma_window_in_pixels(
    area: int,
    area_len: nat,
    window_len: nat,
    scale: Double,
    x: Double,
)
    requires
        -0x8000_0000 <= area <= 0x7fff_ffff,
        area_len <= 0xffff_ffff,
        window_len <= 0xffff_ffff,
        is_scale(scale),
        ({
            let low = number::double_int(area).quotient(scale);
            let span = number::double_whole(area_len).quotient(scale);
            let max = last_place(low, span, number::double_whole(window_len));
            &&& finite(low)
            &&& finite(max)
            &&& low.at_most(x)
            &&& x.at_most(max)
        }),
    ensures
        area <= number::rounded(x.product(scale)),
        number::rounded(x.product(scale)) + number::rounded(
            number::double_whole(window_len).product(scale),
        ) <= area + area_len + 1,
        number::rounded(x.product(scale)) <= area + area_len,
        x == number::double_int(area).quotient(scale) ==> number::rounded(x.product(scale)) == area,
        x == last_place(
            number::double_int(area).quotient(scale),
            number::double_whole(area_len).quotient(scale),
            number::double_whole(window_len),
        ) ==> number::rounded(x.product(scale)) + number::rounded(
            number::double_whole(window_len).product(scale),
        ) >= area + area_len - 1,
{
    let k = pow2(1074) as int;
    let g = k * k;
    let s = scaled(scale);
    let window = number::double_whole(window_len);
    lemma_place_times_scale(area, area_len, window_len, scale, x);
    lemma_sizes(scale);
    number::lemma_whole_double(window_len);
    let xs = scaled(x) * s;
    let ns = scaled(window) * s;
    assert(size(scaled(x)) * s == size(xs)) by (nonlinear_arith)
        requires
            xs == scaled(x) * s,
            s > 0,
    ;
    lemma_product(x, scale);
    lemma_product(window, scale);
    let d = scaled(x.product(scale));
    let w = scaled(window.product(scale));
    lemma_close(xs, d * k, k, g);
    lemma_close(ns, w * k, k, g);
    lemma_rounded(x.product(scale));
    lemma_rounded(window.product(scale));
    lemma_pixels(
        area,
        area_len as int,
        xs,
        ns,
        d,
        w,
        k,
        number::rounded(x.product(scale)),
        number::rounded(window.product(scale)),
    );
    lemma_pixels_at_ends(
        area,
        area_len as int,
        xs,
        ns,
        d,
        w,
        k,
        number::rounded(x.product(scale)),
        number::rounded(window.product(scale)),
    );
}

/// A place in pixels that is divided by the scale and multiplied by it again is the same
/// place.
pub proof fn lemma_back_to_pixels(at: int, scale: Double)
    requires
        -0x8000_0000 <= at <= 0x7fff_ffff,
        is_scale(scale),
        finite(number::double_int(at).quotient(scale)),
    ensures
        number::rounded(number::double_int(at).quotient(scale).product(scale)) == at,
{
    let k = pow2(1074) as int;
    let g = k * k;
    let s = scaled(scale);
    let x = number::double_int(at).quotient(scale);
    lemma_sizes(scale);
    lemma_quotient(at, scale);
    let xs = scaled(x) * s;
    assert(-(0x8000_0000 * g) <= at * g <= 0x8000_0000 * g) by (nonlinear_arith)
        requires
            -0x8000_0000 <= at <= 0x8000_0000,
            g >= 0,
    ;
    lemma_close(at * g, xs, s, g);
    assert(size(scaled(x)) * s == size(xs)) by (nonlinear_arith)
        requires
            xs == scaled(x) * s,
            s > 0,
    ;
    lemma_product(x, scale);
    let d = scaled(x.product(scale));
    lemma_close(xs, d * k, k, g);
    lemma_rounded(x.product(scale));
    let a = number::rounded(x.product(scale));
    assert(0x400 * d <= 0x400 * (at * k) + 2 * k && 0x400 * d >= 0x400 * (at * k) - 2 * k)
        by (nonlinear_arith)
        requires
            0x400 * (d * k) <= 0x400 * (at * (k * k)) + 2 * (k * k),
            0x400 * (d * k) >= 0x400 * (at * (k * k)) - 2 * (k * k),
            k > 0,
    ;
    assert(a == at) by (nonlinear_arith)
        requires
            2 * k * a <= 2 * d + k,
            2 * k * a >= 2 * d - k,
            0x400 * d <= 0x400 * (at * k) + 2 * k,
            0x400 * d >= 0x400 * (at * k) - 2 * k,
            k > 0,
    ;
}

/// Where a number is finite, so is what it was made of.
proof fn lemma_finite_parts(low: Double, span: Double, window: Double)
    requires
        finite(low),
        finite(window),
        finite(low.sum(span).difference(window)),
    ensures
        finite(span),
        finite(low.sum(span)),
        low.sum(span).parts() == ieee::sum(Format::Double, low.parts(), span.parts()),
        low.sum(span).difference(window).parts() == ieee::sum(
            Format::Double,
            low.sum(span).parts(),
            ieee::negated(window.parts()),
        ),
        ieee::negated(window.parts()).finite(Format::Double),
        ieee::negated(window.parts()).scaled(Format::Double) == -scaled(window),
{
    let f = Format::Double;
    let sum = low.sum(span);
    let max = sum.difference(window);
    lemma_sum_parts(low.parts(), span.parts());
    lemma_sum_parts(sum.parts(), ieee::negated(window.parts()));
}

/// A sum is written back as it is.
proof fn lemma_sum_parts(a: Parts, b: Parts)
    requires
        a.mag < 0x8000_0000_0000_0000,
        b.mag < 0x8000_0000_0000_0000,
    ensures
        number::double(ieee::sum(Format::Double, a, b)).parts() == ieee::sum(Format::Double, a, b),
{
    let f = Format::Double;
    let exact = a.scaled(f) + b.scaled(f);
    ieee::law_rounding_exists(f, size(exact) as nat, 1);
}

/// What lies between two finite numbers is finite.
proof fn lemma_between_is_finite(low: Double, x: Double, max: Double)
    requires
        finite(low),
        finite(max),
        low.at_most(x),
        x.at_most(max),
    ensures
        finite(x),
{
    let f = Format::Double;
    let top = f.infinity();
    ieee::lemma_units_increase(f, low.parts().mag as nat, top);
    ieee::lemma_units_increase(f, max.parts().mag as nat, top);
}

/// The magnitude of 2^j.
spec fn power(j: nat) -> nat {
    (1023 + j) as nat * 0x10_0000_0000_0000
}

proof fn lemma_power(j: nat)
    requires
        j < 1000,
    ensures
        ieee::units(Format::Double, power(j)) == pow2(j) * pow2(1074),
        power(j) < Format::Double.infinity(),
{
    let lead = Format::Double.lead();
    lemma2_to64();
    lemma2_to64_rest();
    vstd::arithmetic::div_mod::lemma_fundamental_div_mod_converse(
        power(j) as int,
        lead as int,
        (1023 + j) as int,
        0,
    );
    lemma_pow2_adds(52, (1022 + j) as nat);
    lemma_pow2_adds(j, 1074);
}

/// A whole number divided by a scale that is not tiny is finite.
pub proof fn lemma_quotient_is_finite(a: int, scale: Double)
    requires
        -0x1_0000_0000 <= a <= 0x1_0000_0000,
        is_scale(scale),
        pow2(1074) <= 0x1_0000_0000_0000_0000 * scaled(scale),
    ensures
        finite(number::double_int(a).quotient(scale)),
        size(scaled(number::double_int(a).quotient(scale))) <= pow2(96) * pow2(1074),
{
    let f = Format::Double;
    let k = pow2(1074);
    let n = size(a) as nat;
    number::lemma_whole_double(n);
    ieee::law_rounding_exists(f, n * k, 1);
    let x = number::double_int(a);
    let m = number::double_whole(n).parts().mag;
    lemma_double_parts(Parts { neg: false, mag: m });
    lemma_double_parts(Parts { neg: true, mag: m });
    assert(x.parts() == (Parts { neg: a < 0, mag: m }));
    let s = ieee::units(f, scale.parts().mag as nat);
    assert(scale.parts().mag != 0) by {
        assert(ieee::units(f, 0) == 0);
    }
    lemma_power(96);
    lemma2_to64();
    lemma_pow2_adds(32, 64);
    lemma_two_to_64_is_a_power();
    let num = n * k * k;
    assert(num <= (pow2(32) * pow2(64)) * k * s) by (nonlinear_arith)
        requires
            num == n * k * k,
            n <= pow2(32),
            k <= pow2(64) * s,
            k >= 0,
            s >= 0,
    ;
    ieee::law_rounding_is_bounded(f, num, s, power(96));
    let q = ieee::nearest(f, num, s);
    let r = Parts { neg: a < 0, mag: q as u64 };
    lemma_double_parts(r);
    assert(x.quotient(scale).parts() == r);
    if q < power(96) {
        ieee::lemma_units_increase(f, q, power(96));
    }
}

proof fn lemma_two_to_64_is_a_power()
    ensures
        pow2(64) == 0x1_0000_0000_0000_0000,
        pow2(32) == 0x1_0000_0000,
{
    lemma2_to64();
    lemma2_to64_rest();
}

/// A sum of two numbers that are not large is finite.
proof fn lemma_sum_is_finite(a: Parts, b: Parts, j: nat)
    requires
        a.finite(Format::Double),
        b.finite(Format::Double),
        j < 999,
        size(a.scaled(Format::Double)) <= pow2(j) * pow2(1074),
        size(b.scaled(Format::Double)) <= pow2(j) * pow2(1074),
    ensures
        ieee::sum(Format::Double, a, b).finite(Format::Double),
        size(ieee::sum(Format::Double, a, b).scaled(Format::Double)) <= pow2(j + 1) * pow2(1074),
{
    let f = Format::Double;
    let n = size(a.scaled(f) + b.scaled(f)) as nat;
    lemma_power(j + 1);
    lemma_pow2_unfold(j + 1);
    assert((2 * pow2(j)) * pow2(1074) == 2 * (pow2(j) * pow2(1074))) by (nonlinear_arith);
    ieee::law_rounding_is_bounded(f, n, 1, power(j + 1));
    assert(ieee::units(f, 0) == 0);
    let q = ieee::nearest(f, n, 1);
    if q < power(j + 1) {
        ieee::lemma_units_increase(f, q, power(j + 1));
    }
    assert(pow2(j + 1) * pow2(1074) >= 0) by (nonlinear_arith);
}

/// The last place inside a work area is finite where the scale is not tiny.
pub proof fn lemma_last_place_is_finite(low: Double, span: Double, window: Double)
    requires
        finite(low),
        finite(span),
        finite(window),
        size(scaled(low)) <= pow2(96) * pow2(1074),
        size(scaled(span)) <= pow2(96) * pow2(1074),
        size(scaled(window)) <= pow2(97) * pow2(1074),
    ensures
        finite(last_place(low, span, window)),
{
    lemma_sum_is_finite(low.parts(), span.parts(), 96);
    lemma_sum_parts(low.parts(), span.parts());
    let sum = low.sum(span);
    let minus = ieee::negated(window.parts());
    assert(size(minus.scaled(Format::Double)) == size(scaled(window)));
    lemma_sum_is_finite(sum.parts(), minus, 97);
    lemma_sum_parts(sum.parts(), minus);
}

/// A number and a finite one have a sum that is a number, and so a difference.
pub proof fn lemma_sum_is_a_number(a: Double, b: Double)
    requires
        !a.nan(),
        finite(b),
    ensures
        !a.sum(b).nan(),
        !a.difference(b).nan(),
{
    let f = Format::Double;
    let minus = ieee::negated(b.parts());
    lemma_sum_parts(a.parts(), b.parts());
    lemma_sum_parts(a.parts(), minus);
    ieee::law_rounding_exists(f, size(a.parts().scaled(f) + b.parts().scaled(f)) as nat, 1);
    ieee::law_rounding_exists(f, size(a.parts().scaled(f) + minus.scaled(f)) as nat, 1);
}

/// Half of a finite number is finite.
pub proof fn lemma_half_is_finite(x: Double)
    requires
        finite(x),
    ensures
        finite(x.product(number::double(ieee::fraction(Format::Double, 1, 2)))),
{
    let f = Format::Double;
    let k = pow2(1074);
    lemma_pow2_pos(1074);
    lemma_power(0);
    lemma2_to64();
    assert(pow2(0) * k == k);
    assert(1 * k == k);
    ieee::law_rounding_is_bounded(f, 1 * k, 2, power(0));
    let m = ieee::nearest(f, 1 * k, 2);
    lemma_double_parts(Parts { neg: false, mag: m as u64 });
    let h = ieee::units(f, m);
    if m < power(0) {
        ieee::lemma_units_increase(f, m, power(0));
    }
    let u = ieee::units(f, x.parts().mag as nat);
    assert(u * h <= u * k) by (nonlinear_arith)
        requires
            h <= k,
            u >= 0,
    ;
    ieee::law_rounding_is_bounded(f, u * h, k, x.parts().mag as nat);
    lemma_double_parts(Parts { neg: x.parts().neg, mag: ieee::nearest(f, u * h, k) as u64 });
}

} // verus!
