//! Natural numbers of any size, for arithmetic that has to be exact before it
//! is rounded.

use vstd::arithmetic::power2::*;
use vstd::prelude::*;

verus! {

/// The number that `limbs` writes in base 2^32, lowest limb first.
pub open spec fn limbs_value(limbs: Seq<u32>) -> nat
    decreases limbs.len(),
{
    if limbs.len() == 0 {
        0
    } else {
        limbs[0] as nat + 0x1_0000_0000 * limbs_value(limbs.drop_first())
    }
}

proof fn lemma_push(limbs: Seq<u32>, x: u32)
    ensures
        limbs_value(limbs.push(x)) == limbs_value(limbs) + x as nat * pow2(32 * limbs.len()),
    decreases limbs.len(),
{
    lemma2_to64();
    if limbs.len() == 0 {
        assert(limbs.push(x).drop_first() =~= Seq::<u32>::empty());
        assert(limbs_value(limbs.push(x).drop_first()) == 0);
        assert(32 * limbs.len() == 0);
        assert(x as nat * pow2(0) == x);
    } else {
        lemma_push(limbs.drop_first(), x);
        assert(limbs.push(x).drop_first() =~= limbs.drop_first().push(x));
        let k = (limbs.len() - 1) as nat;
        lemma_pow2_adds(32, 32 * k);
        assert(32 * limbs.len() == 32 + 32 * k);
        let p = pow2(32 * k);
        let v = limbs_value(limbs.drop_first());
        assert(limbs.push(x)[0] == limbs[0]);
        assert(0x1_0000_0000 * (v + x as nat * p) == 0x1_0000_0000 * v + x as nat * (0x1_0000_0000
            * p)) by (nonlinear_arith);
    }
}

proof fn lemma_skip(limbs: Seq<u32>, i: int)
    requires
        0 <= i < limbs.len(),
    ensures
        limbs_value(limbs.skip(i)) == limbs[i] as nat + 0x1_0000_0000 * limbs_value(
            limbs.skip(i + 1),
        ),
{
    assert(limbs.skip(i).drop_first() =~= limbs.skip(i + 1));
}

/// A natural number of any size.
pub struct BigNat {
    pub limbs: Vec<u32>,
}

impl View for BigNat {
    type V = nat;

    open spec fn view(&self) -> nat {
        limbs_value(self.limbs@)
    }
}

impl BigNat {
    pub fn from_u64(n: u64) -> (r: BigNat)
        ensures
            r@ == n,
    {
        let mut limbs: Vec<u32> = Vec::new();
        limbs.push((n % 0x1_0000_0000) as u32);
        limbs.push((n / 0x1_0000_0000) as u32);
        proof {
            let s = limbs@;
            assert(s.drop_first().drop_first() =~= Seq::<u32>::empty());
            assert(limbs_value(s.drop_first().drop_first()) == 0);
            assert(limbs_value(s.drop_first()) == s[1]);
        }
        BigNat { limbs }
    }

    /// `self * factor + term`.
    pub fn times_plus(&self, factor: u64, term: u64) -> (r: BigNat)
        ensures
            r@ == self@ * factor + term,
    {
        let mut out: Vec<u32> = Vec::new();
        let mut carry: u64 = term;
        let n = self.limbs.len();
        proof {
            lemma2_to64();
            assert(self.limbs@.skip(0) =~= self.limbs@);
            assert(out@.len() == 0);
            assert(limbs_value(out@) == 0);
            assert(pow2(0) == 1);
            assert(1 * (carry + factor * limbs_value(self.limbs@)) == self@ * factor + term)
                by (nonlinear_arith)
                requires
                    carry == term,
                    limbs_value(self.limbs@) == self@,
            ;
        }
        for i in 0..n
            invariant
                n == self.limbs@.len(),
                out@.len() == i,
                limbs_value(out@) + pow2(32 * i as nat) * (carry + factor * limbs_value(
                    self.limbs@.skip(i as int),
                )) == self@ * factor + term,
        {
            let limb = self.limbs[i];
            assert(limb as int * factor as int + carry as int <= 0xffff_ffff
                * 0xffff_ffff_ffff_ffff + 0xffff_ffff_ffff_ffff) by (nonlinear_arith)
                requires
                    0 <= limb <= 0xffff_ffff,
                    0 <= factor <= 0xffff_ffff_ffff_ffff,
                    0 <= carry <= 0xffff_ffff_ffff_ffff,
            ;
            assert(limb as int * factor as int >= 0) by (nonlinear_arith)
                requires
                    0 <= limb,
                    0 <= factor,
            ;
            let t: u128 = limb as u128 * factor as u128 + carry as u128;
            let low: u32 = (t % 0x1_0000_0000) as u32;
            let high: u64 = (t / 0x1_0000_0000) as u64;
            proof {
                lemma_push(out@, low);
                lemma_skip(self.limbs@, i as int);
                lemma_pow2_adds(32 * i as nat, 32);
                lemma2_to64();
                assert(32 * (i + 1) as nat == 32 * i as nat + 32);
                let p = pow2(32 * i as nat);
                let rest = limbs_value(self.limbs@.skip(i + 1));
                assert(low as nat * p + (p * 0x1_0000_0000) * (high + factor * rest) == p * (carry
                    + factor * (limb + 0x1_0000_0000 * rest))) by (nonlinear_arith)
                    requires
                        low + 0x1_0000_0000 * high == limb * factor + carry,
                ;
            }
            out.push(low);
            carry = high;
        }
        proof {
            assert(self.limbs@.skip(n as int) =~= Seq::<u32>::empty());
            assert(limbs_value(self.limbs@.skip(n as int)) == 0);
            lemma_push(out@, (carry % 0x1_0000_0000) as u32);
            lemma_push(
                out@.push((carry % 0x1_0000_0000) as u32),
                (carry / 0x1_0000_0000) as u32,
            );
            lemma_pow2_adds(32 * n as nat, 32);
            lemma2_to64();
            let p = pow2(32 * n as nat);
            let low = carry % 0x1_0000_0000;
            let high = carry / 0x1_0000_0000;
            assert(32 * (n + 1) as nat == 32 * n as nat + 32);
            assert(low as nat * p + high as nat * (p * 0x1_0000_0000) == p * (carry + factor * 0))
                by (nonlinear_arith)
                requires
                    low + 0x1_0000_0000 * high == carry,
            ;
        }
        out.push((carry % 0x1_0000_0000) as u32);
        out.push((carry / 0x1_0000_0000) as u32);
        BigNat { limbs: out }
    }

    /// `self * 2^shift`.
    pub fn shifted(&self, shift: u32) -> (r: BigNat)
        ensures
            r@ == self@ * pow2(shift as nat),
    {
        let whole: u32 = shift / 32;
        let part: u32 = shift % 32;
        let mut scale: u64 = 1;
        proof {
            lemma2_to64();
        }
        for i in 0..part
            invariant
                part < 32,
                scale == pow2(i as nat),
        {
            proof {
                lemma_pow2_unfold((i + 1) as nat);
                lemma2_to64();
                lemma_pow2_strictly_increases(i as nat, 32);
            }
            scale = scale * 2;
        }
        let scaled = self.times_plus(scale, 0);
        let mut limbs: Vec<u32> = Vec::new();
        for i in 0..whole
            invariant
                limbs@.len() == i,
                limbs_value(limbs@) == 0,
        {
            proof {
                lemma_push(limbs@, 0);
                assert(0 * pow2(32 * limbs@.len()) == 0);
            }
            limbs.push(0);
        }
        let n = scaled.limbs.len();
        proof {
            assert(scaled.limbs@.skip(0) =~= scaled.limbs@);
            assert(pow2(32 * whole as nat) * limbs_value(scaled.limbs@) == pow2(32 * whole as nat)
                * scaled@);
        }
        for i in 0..n
            invariant
                n == scaled.limbs@.len(),
                limbs@.len() == whole + i,
                limbs_value(limbs@) + pow2(32 * (whole + i) as nat) * limbs_value(
                    scaled.limbs@.skip(i as int),
                ) == pow2(32 * whole as nat) * scaled@,
        {
            let limb = scaled.limbs[i];
            proof {
                lemma_push(limbs@, limb);
                lemma_skip(scaled.limbs@, i as int);
                lemma_pow2_adds(32 * (whole + i) as nat, 32);
                lemma2_to64();
                assert(32 * (whole + i + 1) as nat == 32 * (whole + i) as nat + 32);
                let p = pow2(32 * (whole + i) as nat);
                let rest = limbs_value(scaled.limbs@.skip(i + 1));
                assert(limb as nat * p + (p * 0x1_0000_0000) * rest == p * (limb + 0x1_0000_0000
                    * rest)) by (nonlinear_arith);
            }
            limbs.push(limb);
        }
        proof {
            assert(scaled.limbs@.skip(n as int) =~= Seq::<u32>::empty());
            assert(limbs_value(scaled.limbs@.skip(n as int)) == 0);
            assert(pow2(32 * (whole + n) as nat) * 0 == 0) by (nonlinear_arith);
            lemma_pow2_adds(32 * whole as nat, part as nat);
            assert(shift as nat == 32 * whole as nat + part as nat);
            let p = pow2(32 * whole as nat);
            let q = pow2(part as nat);
            assert(scaled@ == self@ * q);
            assert(p * (self@ * q) == self@ * (p * q)) by (nonlinear_arith);
        }
        BigNat { limbs }
    }

    /// The limb at `i`, with zeros beyond the highest one.
    fn limb(&self, i: usize) -> (r: u32)
        ensures
            r == (if i < self.limbs@.len() {
                self.limbs@[i as int]
            } else {
                0
            }),
    {
        if i < self.limbs.len() {
            self.limbs[i]
        } else {
            0
        }
    }

    /// Whether `self` is below, equal to or above `other`.
    pub fn compare(&self, other: &BigNat) -> (r: Side)
        ensures
            r is Below <==> self@ < other@,
            r is Equal <==> self@ == other@,
            r is Above <==> self@ > other@,
    {
        let n = if self.limbs.len() < other.limbs.len() {
            other.limbs.len()
        } else {
            self.limbs.len()
        };
        let mut i: usize = n;
        let mut r = Side::Equal;
        proof {
            lemma_tail_end(self.limbs@, n as int);
            lemma_tail_end(other.limbs@, n as int);
        }
        while i > 0
            invariant
                i <= n,
                r is Below <==> tail(self.limbs@, i as int) < tail(other.limbs@, i as int),
                r is Equal <==> tail(self.limbs@, i as int) == tail(other.limbs@, i as int),
            decreases i,
        {
            i = i - 1;
            let a = self.limb(i);
            let b = other.limb(i);
            proof {
                lemma_tail_step(self.limbs@, i as int);
                lemma_tail_step(other.limbs@, i as int);
            }
            if let Side::Equal = r {
                if a < b {
                    r = Side::Below;
                } else if a > b {
                    r = Side::Above;
                }
            }
        }
        proof {
            assert(self.limbs@.skip(0) =~= self.limbs@);
            assert(other.limbs@.skip(0) =~= other.limbs@);
        }
        r
    }
}

impl BigNat {
    /// `self + other`.
    pub fn plus(&self, other: &BigNat) -> (r: BigNat)
        ensures
            r@ == self@ + other@,
    {
        let n = if self.limbs.len() < other.limbs.len() {
            other.limbs.len()
        } else {
            self.limbs.len()
        };
        let mut out: Vec<u32> = Vec::new();
        let mut carry: u64 = 0;
        proof {
            lemma2_to64();
            lemma_tail_start(self.limbs@);
            lemma_tail_start(other.limbs@);
            assert(limbs_value(out@) == 0);
            assert(pow2(0) * (0 + self@ + other@) == self@ + other@) by (nonlinear_arith)
                requires
                    pow2(0) == 1,
            ;
        }
        for i in 0..n
            invariant
                out@.len() == i,
                carry <= 1,
                limbs_value(out@) + pow2(32 * i as nat) * (carry + tail(self.limbs@, i as int)
                    + tail(other.limbs@, i as int)) == self@ + other@,
        {
            let a = self.limb(i);
            let b = other.limb(i);
            let t: u64 = a as u64 + b as u64 + carry;
            let low: u32 = (t % 0x1_0000_0000) as u32;
            let high: u64 = t / 0x1_0000_0000;
            proof {
                lemma_push(out@, low);
                lemma_tail_step(self.limbs@, i as int);
                lemma_tail_step(other.limbs@, i as int);
                lemma_pow2_adds(32 * i as nat, 32);
                lemma2_to64();
                assert(32 * (i + 1) as nat == 32 * i as nat + 32);
                let p = pow2(32 * i as nat);
                let x = tail(self.limbs@, i + 1);
                let y = tail(other.limbs@, i + 1);
                assert(low as nat * p + (p * 0x1_0000_0000) * (high + x + y) == p * (carry + (a
                    + 0x1_0000_0000 * x) + (b + 0x1_0000_0000 * y))) by (nonlinear_arith)
                    requires
                        low + 0x1_0000_0000 * high == a + b + carry,
                ;
            }
            out.push(low);
            carry = high;
        }
        proof {
            lemma_tail_end(self.limbs@, n as int);
            lemma_tail_end(other.limbs@, n as int);
            lemma_push(out@, carry as u32);
            assert(pow2(32 * n as nat) * (carry + 0 + 0) == carry as nat * pow2(32 * n as nat))
                by (nonlinear_arith);
        }
        out.push(carry as u32);
        BigNat { limbs: out }
    }

    /// `self * other`.
    pub fn times(&self, other: &BigNat) -> (r: BigNat)
        ensures
            r@ == self@ * other@,
    {
        let mut i = other.limbs.len();
        let mut r = BigNat::from_u64(0);
        proof {
            lemma_tail_end(other.limbs@, i as int);
            assert(self@ * 0 == 0);
        }
        while i > 0
            invariant
                i <= other.limbs@.len(),
                r@ == self@ * tail(other.limbs@, i as int),
            decreases i,
        {
            i = i - 1;
            let limb = other.limbs[i];
            let ghost before = r@;
            r = r.shifted(32).plus(&self.times_plus(limb as u64, 0));
            proof {
                lemma2_to64();
                lemma_tail_step(other.limbs@, i as int);
                let t = tail(other.limbs@, i + 1);
                assert((self@ * t) * 0x1_0000_0000 + (self@ * limb as nat + 0) == self@ * (limb
                    as nat + 0x1_0000_0000 * t)) by (nonlinear_arith);
            }
        }
        proof {
            lemma_tail_start(other.limbs@);
        }
        r
    }

    /// `self - other`.
    pub fn minus(&self, other: &BigNat) -> (r: BigNat)
        requires
            other@ <= self@,
        ensures
            r@ == self@ - other@,
    {
        let n = if self.limbs.len() < other.limbs.len() {
            other.limbs.len()
        } else {
            self.limbs.len()
        };
        let mut out: Vec<u32> = Vec::new();
        let mut borrow: u64 = 0;
        proof {
            lemma2_to64();
            lemma_tail_start(self.limbs@);
            lemma_tail_start(other.limbs@);
            assert(limbs_value(out@) == 0);
            assert(pow2(0) * (self@ - other@ - 0) == self@ - other@) by (nonlinear_arith)
                requires
                    pow2(0) == 1,
            ;
        }
        for i in 0..n
            invariant
                out@.len() == i,
                borrow <= 1,
                limbs_value(out@) + pow2(32 * i as nat) * (tail(self.limbs@, i as int) - tail(
                    other.limbs@,
                    i as int,
                ) - borrow) == self@ - other@,
        {
            let a = self.limb(i);
            let b = other.limb(i);
            let t: u64 = 0x1_0000_0000 + a as u64 - b as u64 - borrow;
            let low: u32 = (t % 0x1_0000_0000) as u32;
            let high: u64 = 1 - t / 0x1_0000_0000;
            proof {
                lemma_push(out@, low);
                lemma_tail_step(self.limbs@, i as int);
                lemma_tail_step(other.limbs@, i as int);
                lemma_pow2_adds(32 * i as nat, 32);
                lemma2_to64();
                assert(32 * (i + 1) as nat == 32 * i as nat + 32);
                let p = pow2(32 * i as nat);
                let x = tail(self.limbs@, i + 1);
                let y = tail(other.limbs@, i + 1);
                assert(low as nat * p + (p * 0x1_0000_0000) * (x - y - high) == p * ((a
                    + 0x1_0000_0000 * x) - (b + 0x1_0000_0000 * y) - borrow)) by (nonlinear_arith)
                    requires
                        low - 0x1_0000_0000 * high == a - b - borrow,
                ;
            }
            out.push(low);
            borrow = high;
        }
        proof {
            lemma_tail_end(self.limbs@, n as int);
            lemma_tail_end(other.limbs@, n as int);
            lemma_bound(out@);
            assert(pow2(32 * n as nat) * (0 - 0 - borrow) == -(borrow * pow2(32 * n as nat)))
                by (nonlinear_arith);
            assert(borrow == 1 ==> borrow * pow2(32 * n as nat) == pow2(32 * n as nat));
            assert(borrow == 0 ==> borrow * pow2(32 * n as nat) == 0);
        }
        BigNat { limbs: out }
    }
}

proof fn lemma_bound(limbs: Seq<u32>)
    ensures
        limbs_value(limbs) < pow2(32 * limbs.len()),
    decreases limbs.len(),
{
    lemma2_to64();
    if limbs.len() > 0 {
        lemma_bound(limbs.drop_first());
        let k = (limbs.len() - 1) as nat;
        lemma_pow2_adds(32, 32 * k);
        assert(32 * limbs.len() == 32 + 32 * k);
    } else {
        assert(32 * limbs.len() == 0);
    }
}

proof fn lemma_tail_start(limbs: Seq<u32>)
    ensures
        tail(limbs, 0) == limbs_value(limbs),
{
    assert(limbs.skip(0) =~= limbs);
}

/// Where one number stands to another.
#[derive(Clone, Copy, PartialEq, Eq, Structural)]
pub enum Side {
    Below,
    Equal,
    Above,
}

/// What the limbs from index `i` on amount to, counted in limb `i`'s weight.
spec fn tail(limbs: Seq<u32>, i: int) -> nat {
    if i < limbs.len() {
        limbs_value(limbs.skip(i))
    } else {
        0
    }
}

proof fn lemma_tail_end(limbs: Seq<u32>, n: int)
    requires
        limbs.len() <= n,
    ensures
        tail(limbs, n) == 0,
{
}

proof fn lemma_tail_step(limbs: Seq<u32>, i: int)
    requires
        0 <= i,
    ensures
        tail(limbs, i) == (if i < limbs.len() {
            limbs[i] as nat
        } else {
            0
        }) + 0x1_0000_0000 * tail(limbs, i + 1),
{
    if i < limbs.len() {
        lemma_skip(limbs, i);
        if i + 1 == limbs.len() {
            assert(limbs.skip(i + 1) =~= Seq::<u32>::empty());
        }
    }
}

} // verus!
