//! Natural numbers of any size, as far as the entropy arithmetic needs them:
//! multiplying by a machine word and comparing with a power of two.

use vstd::arithmetic::div_mod::{lemma_basic_div, lemma_small_div_converse};
use vstd::arithmetic::power2::{
    lemma2_to64,
    lemma_pow2_adds,
    lemma_pow2_pos,
    lemma_pow2_strictly_increases,
    pow2,
};
use vstd::bits::lemma_u64_shr_is_div;
use vstd::prelude::*;

verus! {

/// The number that a sequence of 64-bit limbs stands for, the lowest limb
/// first: the sum of `limbs[i] * 2^(64 * i)`.
pub open spec fn limbs_value(limbs: Seq<u64>) -> nat
    decreases limbs.len(),
{
    if limbs.len() == 0 {
        0
    } else {
        limbs_value(limbs.drop_last()) + limbs.last() as nat * pow2(64 * (limbs.len() - 1) as nat)
    }
}

/// Appending a limb adds it with the weight of its position.
pub proof fn lemma_value_push(limbs: Seq<u64>, limb: u64)
    ensures
        limbs_value(limbs.push(limb)) == limbs_value(limbs) + limb as nat * pow2(
            64 * limbs.len(),
        ),
{
    assert(limbs.push(limb).drop_last() =~= limbs);
}

/// The weight of a position is 2^64 times the weight of the one below it.
pub proof fn lemma_weight_step(position: nat)
    ensures
        pow2(64 * (position + 1)) == 0x1_0000_0000_0000_0000 * pow2(64 * position),
        pow2(64 * position) > 0,
{
    lemma_pow2_adds(64 * position, 64);
    lemma_pow2_pos(64 * position);
    lemma2_to64();
    assert(pow2(64 * position) * 0x1_0000_0000_0000_0000 == 0x1_0000_0000_0000_0000 * pow2(
        64 * position,
    )) by (nonlinear_arith);
}

/// `n` limbs stand for a number below 2^(64 * n).
pub proof fn lemma_value_bound(limbs: Seq<u64>)
    ensures
        limbs_value(limbs) < pow2(64 * limbs.len()),
    decreases limbs.len(),
{
    if limbs.len() == 0 {
        lemma2_to64();
    } else {
        let below = limbs.drop_last();
        let top = limbs.last() as nat;
        let weight = pow2(64 * below.len());
        lemma_value_bound(below);
        lemma_weight_step(below.len());
        assert(limbs_value(below) + top * weight < 0x1_0000_0000_0000_0000 * weight)
            by (nonlinear_arith)
            requires
                limbs_value(below) < weight,
                top < 0x1_0000_0000_0000_0000,
        ;
    }
}

/// One step of the multiplication: the low half of `limb * factor + carry`
/// becomes the next limb of the product, the high half the next carry.
proof fn lemma_times_step(
    done: nat,
    product: nat,
    weight: nat,
    limb: nat,
    factor: nat,
    carry: nat,
    low: nat,
    high: nat,
)
    requires
        product + carry * weight == done * factor,
        low + high * 0x1_0000_0000_0000_0000 == limb * factor + carry,
    ensures
        (product + low * weight) + high * (0x1_0000_0000_0000_0000 * weight) == (done + limb
            * weight) * factor,
{
    assert((product + low * weight) + high * (0x1_0000_0000_0000_0000 * weight) == product + (low
        + high * 0x1_0000_0000_0000_0000) * weight) by (nonlinear_arith);
    assert((limb * factor + carry) * weight == limb * weight * factor + carry * weight)
        by (nonlinear_arith);
    assert((done + limb * weight) * factor == done * factor + limb * weight * factor)
        by (nonlinear_arith);
}

/// A limb is at least 2^shift exactly when something is left of it after
/// shifting it right by `shift` bits.
proof fn lemma_limb_reaches(limb: u64, shift: u64)
    requires
        shift < 64,
    ensures
        (limb >> shift) != 0 <==> limb >= pow2(shift as nat),
{
    lemma_u64_shr_is_div(limb, shift);
    lemma_pow2_pos(shift as nat);
    let divisor = pow2(shift as nat) as int;
    if limb < divisor {
        lemma_basic_div(limb as int, divisor);
    } else {
        lemma_small_div_converse(limb as int, divisor);
    }
}

/// A natural number of any size.
pub struct Natural {
    limbs: Vec<u64>,
}

impl View for Natural {
    type V = nat;

    closed spec fn view(&self) -> nat {
        limbs_value(self.limbs@)
    }
}

impl Natural {
    /// The number one.
    pub fn one() -> (result: Natural)
        ensures
            result@ == 1,
    {
        let mut limbs: Vec<u64> = Vec::new();
        limbs.push(1u64);
        proof {
            lemma_value_push(Seq::<u64>::empty(), 1u64);
            lemma2_to64();
        }
        Natural { limbs }
    }

    /// The product of this number and `factor`.
    pub fn times(&self, factor: u64) -> (result: Natural)
        ensures
            result@ == self@ * factor,
    {
        let mut product: Vec<u64> = Vec::new();
        let mut carry: u64 = 0;
        let mut i: usize = 0;
        assert(limbs_value(Seq::<u64>::empty()) * factor == 0) by (nonlinear_arith)
            requires
                limbs_value(Seq::<u64>::empty()) == 0,
        ;
        while i < self.limbs.len()
            invariant
                i <= self.limbs.len(),
                product.len() == i,
                limbs_value(product@) + carry as nat * pow2(64 * i as nat) == limbs_value(
                    self.limbs@.take(i as int),
                ) * factor,
            decreases self.limbs.len() - i,
        {
            let limb: u64 = self.limbs[i];
            assert(limb as u128 * factor as u128 + carry as u128 <= u128::MAX)
                by (nonlinear_arith)
                requires
                    limb <= u64::MAX,
                    factor <= u64::MAX,
                    carry <= u64::MAX,
            ;
            let wide: u128 = limb as u128 * factor as u128 + carry as u128;
            assert(wide / 0x1_0000_0000_0000_0000u128 <= u64::MAX) by (nonlinear_arith)
                requires
                    wide == limb as u128 * factor as u128 + carry as u128,
                    limb <= u64::MAX,
                    factor <= u64::MAX,
                    carry <= u64::MAX,
            ;
            let low: u64 = (wide % 0x1_0000_0000_0000_0000u128) as u64;
            let high: u64 = (wide / 0x1_0000_0000_0000_0000u128) as u64;
            proof {
                let done = self.limbs@.take(i as int);
                let next = self.limbs@.take(i + 1);
                assert(next =~= done.push(limb));
                lemma_value_push(done, limb);
                lemma_value_push(product@, low);
                lemma_weight_step(i as nat);
                lemma_times_step(
                    limbs_value(done),
                    limbs_value(product@),
                    pow2(64 * i as nat),
                    limb as nat,
                    factor as nat,
                    carry as nat,
                    low as nat,
                    high as nat,
                );
            }
            product.push(low);
            carry = high;
            i = i + 1;
        }
        assert(self.limbs@.take(i as int) =~= self.limbs@);
        if carry != 0 {
            proof {
                lemma_value_push(product@, carry);
            }
            product.push(carry);
        }
        Natural { limbs: product }
    }

    /// Whether this number is at least 2^exponent.
    pub fn reaches_pow2(&self, exponent: usize) -> (reached: bool)
        ensures
            reached == (self@ >= pow2(exponent as nat)),
    {
        let whole: usize = exponent / 64;
        let shift: u64 = (exponent % 64) as u64;
        let length: usize = self.limbs.len();
        proof {
            lemma_pow2_adds(64 * whole as nat, shift as nat);
            lemma_pow2_pos(shift as nat);
        }
        if length <= whole {
            proof {
                lemma_value_bound(self.limbs@);
                if length < whole {
                    lemma_pow2_strictly_increases(64 * length as nat, 64 * whole as nat);
                }
                assert(pow2(64 * whole as nat) <= pow2(64 * whole as nat) * pow2(shift as nat))
                    by (nonlinear_arith)
                    requires
                        pow2(shift as nat) > 0,
                ;
            }
            return false;
        }
        let pivot: u64 = self.limbs[whole];
        let mut reached: bool = (pivot >> shift) != 0;
        let mut i: usize = whole + 1;
        proof {
            let below = self.limbs@.take(whole as int);
            assert(self.limbs@.take(i as int) =~= below.push(pivot));
            lemma_value_push(below, pivot);
            lemma_value_bound(below);
            lemma_limb_reaches(pivot, shift);
            let weight = pow2(64 * whole as nat);
            let bar = pow2(shift as nat);
            let low = limbs_value(below);
            assert((low + pivot as nat * weight >= weight * bar) <==> pivot as nat >= bar)
                by (nonlinear_arith)
                requires
                    low < weight,
            ;
        }
        while i < length
            invariant
                whole < i <= length,
                length == self.limbs.len(),
                exponent < 64 * (whole + 1),
                reached == (limbs_value(self.limbs@.take(i as int)) >= pow2(exponent as nat)),
            decreases length - i,
        {
            let limb: u64 = self.limbs[i];
            proof {
                let below = self.limbs@.take(i as int);
                assert(self.limbs@.take(i + 1) =~= below.push(limb));
                lemma_value_push(below, limb);
                lemma_pow2_strictly_increases(exponent as nat, 64 * i as nat);
                assert(limb != 0 ==> limb as nat * pow2(64 * i as nat) >= pow2(64 * i as nat))
                    by (nonlinear_arith);
            }
            reached = reached || limb != 0;
            i = i + 1;
        }
        assert(self.limbs@.take(i as int) =~= self.limbs@);
        reached
    }

    /// The whole part of the binary logarithm of this number: the place of
    /// its highest set bit. Zero has none.
    pub fn floor_log2(&self) -> (result: Option<u128>)
        ensures
            result is None <==> self@ == 0,
            result matches Some(bits) ==> pow2(bits as nat) <= self@ < pow2(bits as nat + 1),
    {
        let mut top: usize = self.limbs.len();
        assert(self.limbs@.take(top as int) =~= self.limbs@);
        while top > 0 && self.limbs[top - 1] == 0
            invariant
                top <= self.limbs.len(),
                limbs_value(self.limbs@) == limbs_value(self.limbs@.take(top as int)),
            decreases top,
        {
            proof {
                let below = self.limbs@.take(top - 1);
                assert(self.limbs@.take(top as int) =~= below.push(0u64));
                lemma_value_push(below, 0u64);
            }
            top = top - 1;
        }
        if top == 0 {
            return None;
        }
        let limb: u64 = self.limbs[top - 1];
        let mut bit: u64 = 63;
        proof {
            lemma2_to64();
        }
        while (limb >> bit) == 0
            invariant
                bit < 64,
                limb != 0,
                limb < pow2(bit as nat + 1),
            decreases bit,
        {
            proof {
                lemma_limb_reaches(limb, bit);
                lemma2_to64();
            }
            bit = bit - 1;
        }
        let bits: u128 = (top - 1) as u128 * 64 + bit as u128;
        proof {
            let below = self.limbs@.take(top - 1);
            let weight = pow2(64 * below.len());
            let low = limbs_value(below);
            assert(self.limbs@.take(top as int) =~= below.push(limb));
            lemma_value_push(below, limb);
            lemma_value_bound(below);
            lemma_limb_reaches(limb, bit);
            lemma_pow2_adds(64 * below.len(), bit as nat);
            lemma_pow2_adds(64 * below.len(), bit as nat + 1);
            let floor = pow2(bit as nat);
            let ceiling = pow2(bit as nat + 1);
            lemma_pow2_pos(bit as nat);
            assert(0 < weight * floor <= low + limb as nat * weight < weight * ceiling)
                by (nonlinear_arith)
                requires
                    low < weight,
                    0 < floor <= limb as nat,
                    (limb as nat) < ceiling,
            ;
        }
        Some(bits)
    }
}

} // verus!
