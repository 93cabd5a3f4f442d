//! Saturating Q32.32 fixed-point scalars.
//!
//! A [`Fixed`] value stores a real number `v` as the integer `bits`, with
//! `v = bits / 2^32`.  Arithmetic saturates at the `i64` range instead of
//! wrapping, and every operation is specified exactly over the underlying
//! bit values.

use vstd::prelude::*;
use vstd::arithmetic::power2::pow2;

verus! {

/// Number of bit-value units per 1.0; the Q32.32 scale factor.
pub const SCALE: i64 = 0x1_0000_0000;

/// `ln 2` in Q32.32, rounded down.
pub const LN2: i64 = 2977044471;

/// A fixed-point number: the represented value is `bits / SCALE`.
#[derive(Clone, Copy, Debug, PartialEq, Eq, Structural)]
pub struct Fixed {
    pub bits: i64,
}

impl View for Fixed {
    type V = int;

    open spec fn view(&self) -> int {
        self.bits as int
    }
}

/// Clamp an unbounded integer into the `i64` range.
pub open spec fn sat64(v: int) -> int {
    if v > i64::MAX as int {
        i64::MAX as int
    } else if v < i64::MIN as int {
        i64::MIN as int
    } else {
        v
    }
}

/// Absolute value.
pub open spec fn abs_int(v: int) -> int {
    if v >= 0 {
        v
    } else {
        -v
    }
}

/// Truncating (round-toward-zero) division, as the hardware performs it.
pub open spec fn tdiv(a: int, b: int) -> int {
    if (a >= 0) == (b >= 0) {
        abs_int(a) / abs_int(b)
    } else {
        -(abs_int(a) / abs_int(b))
    }
}

/// Fixed-point addition on bit values.
pub open spec fn fx_add(a: int, b: int) -> int {
    sat64(a + b)
}

/// Fixed-point subtraction on bit values.
pub open spec fn fx_sub(a: int, b: int) -> int {
    sat64(a - b)
}

/// Fixed-point multiplication on bit values.
pub open spec fn fx_mul(a: int, b: int) -> int {
    sat64(tdiv(a * b, SCALE as int))
}

/// Fixed-point division on bit values; division by zero yields zero.
pub open spec fn fx_div(a: int, b: int) -> int {
    if b == 0 {
        0
    } else {
        sat64(tdiv(a * (SCALE as int), b))
    }
}

/// `|a * b| == |a| * |b|`, and the product's sign agrees with the factors'.
pub proof fn lemma_abs_mul(a: int, b: int)
    ensures
        abs_int(a * b) == abs_int(a) * abs_int(b),
        a * b == 0 <==> a == 0 || b == 0,
        a * b >= 0 <==> a == 0 || b == 0 || ((a >= 0) == (b >= 0)),
{
    assert(a * b == 0 <==> a == 0 || b == 0) by (nonlinear_arith);
    if a >= 0 && b >= 0 {
        assert(a * b >= 0) by (nonlinear_arith)
            requires
                a >= 0,
                b >= 0,
        ;
    } else if a >= 0 && b < 0 {
        assert(a * b <= 0 && a * b == -(a * -b) && a * -b >= 0) by (nonlinear_arith)
            requires
                a >= 0,
                b < 0,
        ;
    } else if a < 0 && b >= 0 {
        assert(a * b <= 0 && a * b == -(-a * b) && -a * b >= 0) by (nonlinear_arith)
            requires
                a < 0,
                b >= 0,
        ;
    } else {
        assert(a * b >= 0 && a * b == -a * -b) by (nonlinear_arith)
            requires
                a < 0,
                b < 0,
        ;
    }
}

/// Split an `i64` into its sign and magnitude.
pub(crate) fn split_sign(x: i64) -> (r: (bool, u128))
    ensures
        r.1 as int == abs_int(x as int),
        r.0 == (x < 0),
{
    if x < 0 {
        let wide: i128 = x as i128;
        (true, (-wide) as u128)
    } else {
        (false, x as u128)
    }
}

/// Reassemble a sign and magnitude into a saturated fixed-point value.
pub(crate) fn join_sign(neg: bool, mag: u128) -> (r: Fixed)
    ensures
        r@ == sat64(
            if neg {
                -(mag as int)
            } else {
                mag as int
            },
        ),
{
    if neg {
        if mag >= 0x8000_0000_0000_0000u128 {
            Fixed { bits: i64::MIN }
        } else {
            Fixed { bits: -(mag as i64) }
        }
    } else {
        if mag > i64::MAX as u128 {
            Fixed { bits: i64::MAX }
        } else {
            Fixed { bits: mag as i64 }
        }
    }
}

impl Fixed {
    /// The value zero.
    pub fn zero() -> (r: Fixed)
        ensures
            r@ == 0,
    {
        Fixed { bits: 0 }
    }

    /// The value one.
    pub fn one() -> (r: Fixed)
        ensures
            r@ == SCALE as int,
    {
        Fixed { bits: SCALE }
    }

    /// Convert a small integer to fixed point; always exact.
    pub fn from_int(v: i32) -> (r: Fixed)
        ensures
            r@ == v as int * SCALE as int,
    {
        proof {
            assert(i32::MIN as int * SCALE as int >= i64::MIN as int && i32::MAX as int
                * SCALE as int <= i64::MAX as int) by (nonlinear_arith);
            assert(v as int * SCALE as int >= i32::MIN as int * SCALE as int && v as int
                * SCALE as int <= i32::MAX as int * SCALE as int) by (nonlinear_arith)
                requires
                    i32::MIN as int <= v as int <= i32::MAX as int,
            ;
        }
        let wide: i128 = v as i128 * SCALE as i128;
        Fixed { bits: wide as i64 }
    }

    /// Saturating fixed-point addition.
    pub fn add(self, rhs: Fixed) -> (r: Fixed)
        ensures
            r@ == fx_add(self@, rhs@),
    {
        let wide: i128 = self.bits as i128 + rhs.bits as i128;
        if wide > i64::MAX as i128 {
            Fixed { bits: i64::MAX }
        } else if wide < i64::MIN as i128 {
            Fixed { bits: i64::MIN }
        } else {
            Fixed { bits: wide as i64 }
        }
    }

    /// Saturating fixed-point subtraction.
    pub fn sub(self, rhs: Fixed) -> (r: Fixed)
        ensures
            r@ == fx_sub(self@, rhs@),
    {
        let wide: i128 = self.bits as i128 - rhs.bits as i128;
        if wide > i64::MAX as i128 {
            Fixed { bits: i64::MAX }
        } else if wide < i64::MIN as i128 {
            Fixed { bits: i64::MIN }
        } else {
            Fixed { bits: wide as i64 }
        }
    }

    /// Saturating fixed-point multiplication.
    pub fn mul(self, rhs: Fixed) -> (r: Fixed)
        ensures
            r@ == fx_mul(self@, rhs@),
    {
        let (sa, ua) = split_sign(self.bits);
        let (sb, ub) = split_sign(rhs.bits);
        proof {
            lemma_abs_mul(self@, rhs@);
            assert(ua as int * ub as int <= 0x8000_0000_0000_0000 * 0x8000_0000_0000_0000)
                by (nonlinear_arith)
                requires
                    0 <= ua as int <= 0x8000_0000_0000_0000,
                    0 <= ub as int <= 0x8000_0000_0000_0000,
            ;
        }
        let mag: u128 = (ua * ub) / (SCALE as u128);
        let neg = sa != sb;
        join_sign(neg, mag)
    }

    /// Truncating division by a positive machine integer; never saturates.
    pub fn div_int(self, d: i64) -> (r: Fixed)
        requires
            1 <= d,
        ensures
            r@ == tdiv(self@, d as int),
    {
        let (neg, mag) = split_sign(self.bits);
        proof {
            vstd::arithmetic::div_mod::lemma_div_pos_is_pos(mag as int, d as int);
            vstd::arithmetic::div_mod::lemma_div_nonincreasing(mag as int, d as int);
        }
        let q: u128 = mag / (d as u128);
        join_sign(neg, q)
    }

    /// Saturating fixed-point division; division by zero yields zero.
    pub fn div(self, rhs: Fixed) -> (r: Fixed)
        ensures
            r@ == fx_div(self@, rhs@),
    {
        if rhs.bits == 0 {
            return Fixed { bits: 0 };
        }
        let (sa, ua) = split_sign(self.bits);
        let (sb, ub) = split_sign(rhs.bits);
        proof {
            lemma_abs_mul(self@, SCALE as int);
            assert(ua as int * SCALE as int <= 0x8000_0000_0000_0000 * 0x1_0000_0000)
                by (nonlinear_arith)
                requires
                    0 <= ua as int <= 0x8000_0000_0000_0000,
            ;
        }
        let mag: u128 = (ua * (SCALE as u128)) / ub;
        let neg = sa != sb;
        let r = join_sign(neg, mag);
        r
    }
}

/// `r` is the integer square root of `n`.
pub open spec fn is_isqrt(n: int, r: int) -> bool {
    0 <= r && r * r <= n && n < (r + 1) * (r + 1)
}

/// The integer square root of `n`, for `n >= 0`.
pub open spec fn spec_isqrt(n: int) -> int {
    choose|r: int| is_isqrt(n, r)
}

/// Fixed-point square root on bit values; non-positive inputs yield zero.
pub open spec fn fx_sqrt(a: int) -> int {
    if a <= 0 {
        0
    } else {
        spec_isqrt(a * (SCALE as int))
    }
}

/// The integer square root is unique.
proof fn lemma_isqrt_unique(n: int, r1: int, r2: int)
    requires
        is_isqrt(n, r1),
        is_isqrt(n, r2),
    ensures
        r1 == r2,
{
    if r1 < r2 {
        assert((r1 + 1) * (r1 + 1) <= r2 * r2) by (nonlinear_arith)
            requires
                0 <= r1 + 1 <= r2,
        ;
    }
    if r2 < r1 {
        assert((r2 + 1) * (r2 + 1) <= r1 * r1) by (nonlinear_arith)
            requires
                0 <= r2 + 1 <= r1,
        ;
    }
}

impl Fixed {
    /// Fixed-point square root by binary search on the integer root.
    pub fn sqrt(self) -> (r: Fixed)
        ensures
            r@ == fx_sqrt(self@),
            r@ >= 0,
            self@ > 0 ==> r@ >= 1,
    {
        if self.bits <= 0 {
            return Fixed { bits: 0 };
        }
        proof {
            assert((self.bits as int) * (SCALE as int) < 0x1_0000_0000_0000
                * 0x1_0000_0000_0000) by (nonlinear_arith)
                requires
                    0 < (self.bits as int) && (self.bits as int) < 0x8000_0000_0000_0000,
            ;
        }
        let n: u128 = (self.bits as u128) * (SCALE as u128);
        let mut lo: u128 = 0;
        let mut hi: u128 = 0x1_0000_0000_0000u128;
        while lo + 1 < hi
            invariant
                lo < hi,
                hi <= 0x1_0000_0000_0000u128,
                (lo as int) * (lo as int) <= n as int,
                (n as int) < (hi as int) * (hi as int),
            decreases hi - lo,
        {
            let mid: u128 = lo + (hi - lo) / 2;
            proof {
                assert((mid as int) * (mid as int) <= 0x1_0000_0000_0000
                    * 0x1_0000_0000_0000) by (nonlinear_arith)
                    requires
                        0 <= (mid as int) && (mid as int) <= 0x1_0000_0000_0000,
                ;
            }
            if mid * mid <= n {
                lo = mid;
            } else {
                hi = mid;
            }
        }
        proof {
            assert(is_isqrt(n as int, lo as int));
            assert(is_isqrt(n as int, spec_isqrt(n as int)));
            lemma_isqrt_unique(n as int, lo as int, spec_isqrt(n as int));
            if lo == 0 {
                assert((n as int) < ((lo as int) + 1) * ((lo as int) + 1));
                assert((n as int) < 1) by (nonlinear_arith)
                    requires
                        lo as int == 0,
                        (n as int) < ((lo as int) + 1) * ((lo as int) + 1),
                ;
                assert((self.bits as int) * (SCALE as int) >= 1 * (SCALE as int))
                    by (nonlinear_arith)
                    requires
                        self.bits as int >= 1,
                ;
            }
        }
        Fixed { bits: lo as i64 }
    }
}

/// One step of the exponential's Taylor expansion: after the term for
/// `r^k / k!` comes the term for `r^(k+1) / (k+1)!`.
pub open spec fn taylor_next(r: int, term: int, k: int) -> int {
    (term * r) / (SCALE as int * (k + 1))
}

/// Partial Taylor sum of `e^(r/SCALE) * SCALE`, starting at term index `k`
/// with current term value `term`, summing `fuel` further terms.
pub open spec fn taylor_sum(r: int, term: int, k: int, fuel: nat) -> int
    decreases fuel,
{
    if fuel == 0 {
        0
    } else {
        term + taylor_sum(r, taylor_next(r, term, k), k + 1, (fuel - 1) as nat)
    }
}

/// `e^(r/SCALE) * SCALE` for `0 <= r < LN2`, by a 24-term Taylor expansion.
pub open spec fn spec_exp_frac(r: int) -> int {
    taylor_sum(r, SCALE as int, 0, 24)
}

/// Fixed-point exponential on bit values: `e^(x/SCALE) * SCALE`, saturated
/// to the `i64` range.  Negative arguments use `e^(-m) = e^(-r) / 2^q` with
/// `m = q * LN2 + r`, so the result always lies in `[0, SCALE]` there.
pub open spec fn spec_exp(x: int) -> int {
    if x >= 0 {
        sat64(spec_exp_frac(x % (LN2 as int)) * pow2((x / (LN2 as int)) as nat))
    } else {
        let m = -x;
        ((SCALE as int * SCALE as int) / spec_exp_frac(m % (LN2 as int))) / pow2(
            (m / (LN2 as int)) as nat,
        ) as int
    }
}

/// Logistic sigmoid on bit values: `SCALE / (1 + e^(-x/SCALE))`, computed
/// through the saturating fixed-point operations.
pub open spec fn spec_sigmoid(x: int) -> int {
    if x >= 0 {
        fx_div(SCALE as int, fx_add(SCALE as int, spec_exp(-x)))
    } else {
        fx_sub(SCALE as int, fx_div(SCALE as int, fx_add(SCALE as int, spec_exp(x))))
    }
}

/// Taylor expansion of `e^(r/SCALE) * SCALE` for one period `0 <= r < LN2`.
fn exp_frac(r: u64) -> (t: u64)
    requires
        r < LN2 as u64,
    ensures
        t as int == spec_exp_frac(r as int),
        SCALE as int <= t as int <= 25 * SCALE as int,
{
    let mut acc: u64 = 0;
    let mut term: u64 = SCALE as u64;
    let mut k: u64 = 0;
    while k < 24
        invariant
            r < LN2 as u64,
            0 <= k <= 24,
            term as int <= SCALE as int,
            k == 0 ==> term as int == SCALE as int,
            acc as int <= k as int * SCALE as int,
            k >= 1 ==> acc as int >= SCALE as int,
            acc as int + taylor_sum(r as int, term as int, k as int, (24 - k) as nat)
                == spec_exp_frac(r as int),
        decreases 24 - k,
    {
        let ghost pre_acc = acc as int;
        let ghost pre_term = term as int;
        let ghost pre_k = k as int;
        acc = acc + term;
        let denom: u64 = SCALE as u64 * (k + 1);
        proof {
            assert((term as int) * (r as int) <= 0x1_0000_0000 * 0x1_0000_0000)
                by (nonlinear_arith)
                requires
                    0 <= term as int <= 0x1_0000_0000,
                    0 <= r as int <= 0x1_0000_0000,
            ;
            assert(denom as int >= SCALE as int) by (nonlinear_arith)
                requires
                    denom as int == (SCALE as int) * ((k as int) + 1),
                    0 <= k as int,
                    SCALE as int > 0,
            ;
            assert((term as int) * (r as int) <= (denom as int) * (term as int))
                by (nonlinear_arith)
                requires
                    0 <= term as int,
                    0 <= r as int,
                    (r as int) < (SCALE as int),
                    denom as int >= SCALE as int,
            ;
            vstd::arithmetic::div_mod::lemma_div_pos_is_pos(
                (term as int) * (r as int),
                denom as int,
            );
            vstd::arithmetic::div_mod::lemma_multiply_divide_le(
                (term as int) * (r as int),
                denom as int,
                term as int,
            );
        }
        let num: u128 = (term as u128) * (r as u128);
        let next: u128 = num / (denom as u128);
        term = next as u64;
        k = k + 1;
        proof {
            assert(taylor_sum(r as int, pre_term, pre_k, (24 - pre_k) as nat) == pre_term
                + taylor_sum(
                r as int,
                taylor_next(r as int, pre_term, pre_k),
                pre_k + 1,
                (24 - pre_k - 1) as nat,
            ));
            assert(term as int == taylor_next(r as int, pre_term, pre_k));
            assert(pre_acc + pre_term <= (pre_k + 1) * (SCALE as int)) by (nonlinear_arith)
                requires
                    pre_acc <= pre_k * (SCALE as int),
                    pre_term <= SCALE as int,
            ;
        }
    }
    acc
}

/// `2^e` as a machine integer, for small `e`.
fn pow2_u64(e: u64) -> (r: u64)
    requires
        e <= 33,
    ensures
        r as int == pow2(e as nat) as int,
{
    proof {
        vstd::arithmetic::power2::lemma2_to64();
    }
    let mut i: u64 = 0;
    let mut p: u64 = 1;
    while i < e
        invariant
            0 <= i <= e,
            e <= 33,
            p as int == pow2(i as nat) as int,
            p <= 0x2_0000_0000u64,
        decreases e - i,
    {
        proof {
            vstd::arithmetic::power2::lemma_pow2_unfold((i + 1) as nat);
            vstd::arithmetic::power2::lemma_pow2_adds(i as nat, 1);
            vstd::arithmetic::power2::lemma2_to64();
            vstd::arithmetic::power2::lemma_pow2_strictly_increases(i as nat, 34);
            vstd::arithmetic::power2::lemma2_to64_rest();
        }
        p = p * 2;
        i = i + 1;
    }
    p
}

impl Fixed {
    /// Saturating fixed-point exponential.
    pub fn exp(self) -> (r: Fixed)
        ensures
            r@ == spec_exp(self@),
            0 <= r@,
            self@ < 0 ==> r@ <= SCALE as int,
    {
        proof {
            vstd::arithmetic::power2::lemma2_to64();
            vstd::arithmetic::power2::lemma2_to64_rest();
        }
        if self.bits >= 0 {
            let xu: u64 = self.bits as u64;
            let q: u64 = xu / (LN2 as u64);
            let rem: u64 = xu % (LN2 as u64);
            let t: u64 = exp_frac(rem);
            if q >= 31 {
                proof {
                    if (q as nat) > 31 {
                        vstd::arithmetic::power2::lemma_pow2_strictly_increases(
                            31,
                            q as nat,
                        );
                    }
                    assert((t as int) * (pow2(q as nat) as int) >= 0x1_0000_0000
                        * 0x8000_0000) by (nonlinear_arith)
                        requires
                            t as int >= 0x1_0000_0000,
                            pow2(q as nat) as int >= 0x8000_0000,
                    ;
                }
                Fixed { bits: i64::MAX }
            } else {
                let p: u64 = pow2_u64(q);
                proof {
                    if (q as nat) < 30 {
                        vstd::arithmetic::power2::lemma_pow2_strictly_increases(
                            q as nat,
                            30,
                        );
                    }
                    assert((t as int) * (p as int) <= (25 * 0x1_0000_0000) * 0x4000_0000)
                        by (nonlinear_arith)
                        requires
                            0 <= t as int <= 25 * 0x1_0000_0000,
                            0 <= p as int <= 0x4000_0000,
                    ;
                    assert((t as int) * (p as int) >= 0) by (nonlinear_arith)
                        requires
                            t as int >= 0,
                            p as int >= 0,
                    ;
                }
                let v: u128 = (t as u128) * (p as u128);
                if v > i64::MAX as u128 {
                    Fixed { bits: i64::MAX }
                } else {
                    Fixed { bits: v as i64 }
                }
            }
        } else {
            let m: u64 = (-(self.bits as i128)) as u64;
            let q: u64 = m / (LN2 as u64);
            let rem: u64 = m % (LN2 as u64);
            let t: u64 = exp_frac(rem);
            proof {
                vstd::arithmetic::div_mod::lemma_div_pos_is_pos(
                    SCALE as int * SCALE as int,
                    t as int,
                );
                vstd::arithmetic::div_mod::lemma_div_is_ordered_by_denominator(
                    SCALE as int * SCALE as int,
                    SCALE as int,
                    t as int,
                );
                vstd::arithmetic::div_mod::lemma_div_by_multiple(SCALE as int, SCALE as int);
            }
            let d: u128 = ((SCALE as u128) * (SCALE as u128)) / (t as u128);
            if q >= 33 {
                proof {
                    if (q as nat) > 33 {
                        vstd::arithmetic::power2::lemma_pow2_strictly_increases(
                            33,
                            q as nat,
                        );
                    }
                    vstd::arithmetic::div_mod::lemma_basic_div(
                        d as int,
                        pow2(q as nat) as int,
                    );
                }
                Fixed { bits: 0 }
            } else {
                let p: u64 = pow2_u64(q);
                proof {
                    vstd::arithmetic::div_mod::lemma_div_pos_is_pos(d as int, p as int);
                    vstd::arithmetic::div_mod::lemma_div_nonincreasing(d as int, p as int);
                }
                Fixed { bits: (d / (p as u128)) as i64 }
            }
        }
    }

    /// Logistic sigmoid; the result always lies in `[0, 1]`.
    pub fn sigmoid(self) -> (r: Fixed)
        ensures
            r@ == spec_sigmoid(self@),
            0 <= r@ <= SCALE as int,
    {
        let one = Fixed { bits: SCALE };
        if self.bits >= 0 {
            let e = Fixed { bits: -self.bits }.exp();
            let denom = one.add(e);
            let r = one.div(denom);
            proof {
                lemma_fx_div_of_scale(denom@);
            }
            r
        } else {
            let e = self.exp();
            let denom = one.add(e);
            let u = one.div(denom);
            proof {
                lemma_fx_div_of_scale(denom@);
            }
            one.sub(u)
        }
    }
}

/// Dividing 1.0 by a denominator of at least 1.0 yields a result in `[0, 1]`.
proof fn lemma_fx_div_of_scale(d: int)
    requires
        SCALE as int <= d,
    ensures
        0 <= fx_div(SCALE as int, d) <= SCALE as int,
{
    let s = SCALE as int;
    vstd::arithmetic::div_mod::lemma_div_pos_is_pos(s * s, d);
    vstd::arithmetic::div_mod::lemma_div_is_ordered_by_denominator(s * s, s, d);
    vstd::arithmetic::div_mod::lemma_div_by_multiple(s, s);
}

} // verus!
