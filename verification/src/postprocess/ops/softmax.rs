//! Softmax activation over a whole buffer as one group.

use vstd::prelude::*;
use vstd::arithmetic::power2::pow2;
use crate::fixed::{Fixed, SCALE, spec_exp};

verus! {

/// Sum of the fixed-point exponentials of every element.
pub open spec fn sum_exps(s: Seq<Fixed>) -> int
    decreases s.len(),
{
    if s.len() == 0 {
        0
    } else {
        sum_exps(s.drop_last()) + spec_exp(s.last()@)
    }
}

/// One softmax output: this element's exponential as a share of the total.
/// A buffer whose exponentials all round down to zero yields zeros.
pub open spec fn spec_softmax_at(s: Seq<Fixed>, i: int) -> int {
    if sum_exps(s) == 0 {
        0
    } else {
        (spec_exp(s[i]@) * (SCALE as int)) / sum_exps(s)
    }
}

/// Sum of the exponentials of the first `k` elements.
pub open spec fn sum_exps_prefix(s: Seq<Fixed>, k: int) -> int
    decreases k,
{
    if k <= 0 {
        0
    } else {
        sum_exps_prefix(s, k - 1) + spec_exp(s[k - 1]@)
    }
}

/// Sum of the first `k` softmax outputs.
pub open spec fn sum_softmax(s: Seq<Fixed>, k: int) -> int
    decreases k,
{
    if k <= 0 {
        0
    } else {
        sum_softmax(s, k - 1) + spec_softmax_at(s, k - 1)
    }
}

/// Prefix sums only read the elements below `k`.
proof fn lemma_sum_exps_prefix_drop_last(s: Seq<Fixed>, k: int)
    requires
        s.len() > 0,
        0 <= k <= s.len() - 1,
    ensures
        sum_exps_prefix(s, k) == sum_exps_prefix(s.drop_last(), k),
    decreases k,
{
    if k > 0 {
        lemma_sum_exps_prefix_drop_last(s, k - 1);
    }
}

/// The full prefix sum of exponentials is the sum over the whole buffer.
proof fn lemma_sum_exps_prefix_all(s: Seq<Fixed>)
    ensures
        sum_exps_prefix(s, s.len() as int) == sum_exps(s),
    decreases s.len(),
{
    if s.len() > 0 {
        lemma_sum_exps_prefix_all(s.drop_last());
        lemma_sum_exps_prefix_drop_last(s, s.len() - 1);
    }
}

/// Each softmax output drops less than one rounding unit against the exact
/// rational share: summed over a prefix, `t * sum_softmax` tracks
/// `SCALE * sum_exps_prefix` to within `k` units of `t`.
proof fn lemma_softmax_partial(s: Seq<Fixed>, k: int)
    requires
        0 <= k <= s.len(),
        sum_exps(s) > 0,
    ensures
        sum_exps(s) * sum_softmax(s, k) <= (SCALE as int) * sum_exps_prefix(s, k),
        (SCALE as int) * sum_exps_prefix(s, k) <= sum_exps(s) * (sum_softmax(s, k) + k),
    decreases k,
{
    let t = sum_exps(s);
    if k == 0 {
        assert(t * 0 == 0) by (nonlinear_arith);
    } else {
        lemma_softmax_partial(s, k - 1);
        let e = spec_exp(s[k - 1]@);
        lemma_spec_exp_nonneg(s[k - 1]@);
        let q = (e * (SCALE as int)) / t;
        let r = (e * (SCALE as int)) % t;
        vstd::arithmetic::div_mod::lemma_fundamental_div_mod(e * (SCALE as int), t);
        vstd::arithmetic::div_mod::lemma_mod_division_less_than_divisor(
            e * (SCALE as int),
            t,
        );
        assert(spec_softmax_at(s, k - 1) == q);
        let sum_prev = sum_softmax(s, k - 1);
        let pre_prev = sum_exps_prefix(s, k - 1);
        assert(t * (sum_prev + q) == t * sum_prev + t * q) by (nonlinear_arith);
        assert((SCALE as int) * (pre_prev + e) == (SCALE as int) * pre_prev + (SCALE as int)
            * e) by (nonlinear_arith);
        assert(e * (SCALE as int) == (SCALE as int) * e) by (nonlinear_arith);
        assert(t * (sum_prev + q + k) == t * (sum_prev + (k - 1)) + t * q + t)
            by (nonlinear_arith);
    }
}

/// The softmax outputs of a buffer with a positive exponential sum add up to
/// 1.0, up to one unit of rounding loss per element: the fixed-point sum
/// lies in `[SCALE - len, SCALE]`.
pub proof fn lemma_softmax_sums_to_one(s: Seq<Fixed>)
    requires
        sum_exps(s) > 0,
    ensures
        sum_softmax(s, s.len() as int) <= SCALE as int,
        sum_softmax(s, s.len() as int) >= SCALE as int - s.len(),
{
    let t = sum_exps(s);
    let n = s.len() as int;
    lemma_softmax_partial(s, n);
    lemma_sum_exps_prefix_all(s);
    let total = sum_softmax(s, n);
    assert(t * total <= (SCALE as int) * t);
    assert((SCALE as int) * t <= t * (total + n));
    assert(total <= SCALE as int) by (nonlinear_arith)
        requires
            t > 0,
            t * total <= (SCALE as int) * t,
    ;
    assert(total >= SCALE as int - n) by (nonlinear_arith)
        requires
            t > 0,
            (SCALE as int) * t <= t * (total + n),
    ;
}

/// The exponential never yields a negative value.
proof fn lemma_spec_exp_nonneg(x: int)
    ensures
        spec_exp(x) >= 0,
{
    if x >= 0 {
        lemma_taylor_nonneg(x % (crate::fixed::LN2 as int), SCALE as int, 0, 24);
        vstd::arithmetic::power2::lemma_pow2_pos((x / (crate::fixed::LN2 as int)) as nat);
        assert(crate::fixed::spec_exp_frac(x % (crate::fixed::LN2 as int)) * (pow2(
            (x / (crate::fixed::LN2 as int)) as nat,
        ) as int) >= 0) by (nonlinear_arith)
            requires
                crate::fixed::spec_exp_frac(x % (crate::fixed::LN2 as int)) >= 0,
                pow2((x / (crate::fixed::LN2 as int)) as nat) as int > 0,
        ;
    } else {
        let m = -x;
        lemma_taylor_lower(m % (crate::fixed::LN2 as int), SCALE as int, 0, 24);
        vstd::arithmetic::div_mod::lemma_div_pos_is_pos(
            SCALE as int * SCALE as int,
            crate::fixed::spec_exp_frac(m % (crate::fixed::LN2 as int)),
        );
        vstd::arithmetic::power2::lemma_pow2_pos((m / (crate::fixed::LN2 as int)) as nat);
        vstd::arithmetic::div_mod::lemma_div_pos_is_pos(
            (SCALE as int * SCALE as int) / crate::fixed::spec_exp_frac(
                m % (crate::fixed::LN2 as int),
            ),
            pow2((m / (crate::fixed::LN2 as int)) as nat) as int,
        );
    }
}

/// A partial Taylor sum with at least one term is at least its first term.
proof fn lemma_taylor_lower(r: int, term: int, k: int, fuel: nat)
    requires
        r >= 0,
        term >= 0,
        k >= 0,
        fuel >= 1,
    ensures
        crate::fixed::taylor_sum(r, term, k, fuel) >= term,
{
    assert(term * r >= 0) by (nonlinear_arith)
        requires
            term >= 0,
            r >= 0,
    ;
    assert(SCALE as int * (k + 1) > 0) by (nonlinear_arith)
        requires
            k >= 0,
    ;
    vstd::arithmetic::div_mod::lemma_div_pos_is_pos(term * r, SCALE as int * (k + 1));
    lemma_taylor_nonneg(r, crate::fixed::taylor_next(r, term, k), k + 1, (fuel - 1) as nat);
}

/// Every partial Taylor sum with a nonnegative starting term is nonnegative.
proof fn lemma_taylor_nonneg(r: int, term: int, k: int, fuel: nat)
    requires
        r >= 0,
        term >= 0,
        k >= 0,
    ensures
        crate::fixed::taylor_sum(r, term, k, fuel) >= 0,
    decreases fuel,
{
    if fuel > 0 {
        assert(term * r >= 0) by (nonlinear_arith)
            requires
                term >= 0,
                r >= 0,
        ;
        assert(SCALE as int * (k + 1) > 0) by (nonlinear_arith)
            requires
                k >= 0,
        ;
        vstd::arithmetic::div_mod::lemma_div_pos_is_pos(term * r, SCALE as int * (k + 1));
        lemma_taylor_nonneg(r, crate::fixed::taylor_next(r, term, k), k + 1, (fuel - 1) as nat);
    }
}

/// The sum of exponentials is nonnegative.
proof fn lemma_sum_exps_nonneg(s: Seq<Fixed>)
    ensures
        sum_exps(s) >= 0,
    decreases s.len(),
{
    if s.len() > 0 {
        lemma_sum_exps_nonneg(s.drop_last());
        lemma_spec_exp_nonneg(s.last()@);
    }
}

/// Each element's exponential is at most the sum over the whole buffer.
proof fn lemma_sum_exps_element(s: Seq<Fixed>, i: int)
    requires
        0 <= i < s.len(),
    ensures
        spec_exp(s[i]@) <= sum_exps(s),
    decreases s.len(),
{
    if i == s.len() - 1 {
        lemma_sum_exps_nonneg(s.drop_last());
    } else {
        lemma_sum_exps_element(s.drop_last(), i);
        lemma_spec_exp_nonneg(s.last()@);
    }
}

/// Softmax over an entire buffer as a single group.
pub trait Softmax: Sized {
    /// Relation between a buffer before and after activation.
    spec fn softmax_rel(pre: Self, post: Self) -> bool;

    /// Activate the whole buffer in place.
    fn softmax_inplace(&mut self)
        ensures
            Self::softmax_rel(*old(self), *final(self)),
    ;

    /// Activate the whole buffer into a fresh one.
    fn softmax(&self) -> (r: Self)
        ensures
            Self::softmax_rel(*self, r),
    ;
}

impl Softmax for Vec<Fixed> {
    /// The output has the input's length and each element is its share of
    /// the summed exponentials.
    open spec fn softmax_rel(pre: Self, post: Self) -> bool {
        &&& post@.len() == pre@.len()
        &&& forall|i: int|
            0 <= i < pre@.len() ==> post@[i]@ == #[trigger] spec_softmax_at(pre@, i)
    }

    fn softmax_inplace(&mut self) {
        let r = self.softmax();
        *self = r;
    }

    fn softmax(&self) -> (r: Self) {
        let mut exps: Vec<Fixed> = Vec::new();
        let mut i: usize = 0;
        while i < self.len()
            invariant
                i <= self@.len(),
                exps@.len() == i,
                forall|k: int| 0 <= k < i ==> exps@[k]@ == spec_exp(#[trigger] self@[k]@),
                forall|k: int| 0 <= k < i ==> 0 <= #[trigger] exps@[k]@,
            decreases self@.len() - i,
        {
            exps.push(self[i].exp());
            i = i + 1;
        }
        let mut total: u128 = 0;
        let mut j: usize = 0;
        while j < exps.len()
            invariant
                j <= exps@.len(),
                exps@.len() == self@.len(),
                forall|k: int| 0 <= k < exps@.len() ==> exps@[k]@ == spec_exp(#[trigger] self@[k]@),
                forall|k: int| 0 <= k < exps@.len() ==> 0 <= #[trigger] exps@[k]@,
                total as int == sum_exps(self@.subrange(0, j as int)),
                total as int <= (j as int) * 0x8000_0000_0000_0000,
            decreases exps@.len() - j,
        {
            proof {
                assert(self@.subrange(0, (j + 1) as int).drop_last() =~= self@.subrange(
                    0,
                    j as int,
                ));
                assert((j as int) * 0x8000_0000_0000_0000 + 0x8000_0000_0000_0000 == ((j + 1) as int)
                    * 0x8000_0000_0000_0000) by (nonlinear_arith);
                assert((j as int) * 0x8000_0000_0000_0000 <= 0xffff_ffff_ffff_ffff
                    * 0x8000_0000_0000_0000) by (nonlinear_arith)
                    requires
                        0 <= (j as int) && (j as int) <= 0xffff_ffff_ffff_ffff,
                ;
                assert(0 <= exps@[j as int]@ <= 0x7fff_ffff_ffff_ffff);
            }
            total = total + (exps[j].bits as u128);
            j = j + 1;
        }
        proof {
            assert(self@.subrange(0, self@.len() as int) =~= self@);
        }
        let mut out: Vec<Fixed> = Vec::new();
        let mut k: usize = 0;
        while k < exps.len()
            invariant
                k <= exps@.len(),
                exps@.len() == self@.len(),
                out@.len() == k,
                forall|m: int| 0 <= m < exps@.len() ==> exps@[m]@ == spec_exp(#[trigger] self@[m]@),
                forall|m: int| 0 <= m < exps@.len() ==> 0 <= #[trigger] exps@[m]@,
                total as int == sum_exps(self@),
                forall|m: int| 0 <= m < k ==> out@[m]@ == #[trigger] spec_softmax_at(self@, m),
            decreases exps@.len() - k,
        {
            let v: Fixed = if total == 0 {
                Fixed { bits: 0 }
            } else {
                proof {
                    lemma_sum_exps_element(self@, k as int);
                    assert((exps@[k as int]@) * (SCALE as int) <= 0x8000_0000_0000_0000
                        * 0x1_0000_0000) by (nonlinear_arith)
                        requires
                            0 <= exps@[k as int]@ <= 0x8000_0000_0000_0000,
                    ;
                    assert((exps@[k as int]@) * (SCALE as int) <= (total as int) * (
                    SCALE as int)) by (nonlinear_arith)
                        requires
                            exps@[k as int]@ <= total as int,
                            SCALE as int > 0,
                    ;
                    vstd::arithmetic::div_mod::lemma_multiply_divide_le(
                        (exps@[k as int]@) * (SCALE as int),
                        total as int,
                        SCALE as int,
                    );
                    vstd::arithmetic::div_mod::lemma_div_pos_is_pos(
                        (exps@[k as int]@) * (SCALE as int),
                        total as int,
                    );
                }
                let num: u128 = (exps[k].bits as u128) * (SCALE as u128);
                Fixed { bits: (num / total) as i64 }
            };
            out.push(v);
            k = k + 1;
        }
        out
    }
}

} // verus!
