//! Natural numbers of any size, held as 32-bit limbs, least significant first.

use vstd::arithmetic::mul::*;
use vstd::arithmetic::power2::*;
use vstd::prelude::*;

verus! {

/// What a row of limbs, least significant first, amounts to.
pub open spec fn limbs_value(limbs: Seq<u32>) -> nat
    decreases limbs.len(),
{
    if limbs.len() == 0 {
        0
    } else {
        limbs_value(limbs.drop_last()) + limbs.last() as nat * pow2(
            32 * (limbs.len() - 1) as nat,
        )
    }
}

/// `n` limbs hold less than two to the power of `32 * n`.
proof fn lemma_limbs_bound(limbs: Seq<u32>)
    ensures
        limbs_value(limbs) < pow2(32 * limbs.len()),
    decreases limbs.len(),
{
    if limbs.len() == 0 {
        lemma2_to64();
    } else {
        lemma_limbs_bound(limbs.drop_last());
        let low = pow2(32 * (limbs.len() - 1) as nat);
        lemma_pow2_adds(32 * (limbs.len() - 1) as nat, 32);
        lemma2_to64();
        assert(limbs.last() as nat * low + low <= 0x1_0000_0000 * low) by (nonlinear_arith)
            requires
                limbs.last() <= 0xffff_ffff,
        ;
        assert(low * 0x1_0000_0000 == 0x1_0000_0000 * low);
    }
}

/// A limb more at the top.
proof fn lemma_limbs_push(limbs: Seq<u32>, limb: u32)
    ensures
        limbs_value(limbs.push(limb)) == limbs_value(limbs) + limb as nat * pow2(32 * limbs.len()),
{
    assert(limbs.push(limb).drop_last() =~= limbs);
}

/// One limb more of a prefix.
proof fn lemma_limbs_take(limbs: Seq<u32>, n: int)
    requires
        0 <= n < limbs.len(),
    ensures
        limbs_value(limbs.take(n + 1)) == limbs_value(limbs.take(n)) + limbs[n] as nat * pow2(
            32 * n as nat,
        ),
{
    assert(limbs.take(n + 1).drop_last() =~= limbs.take(n));
}

/// A natural number without an upper bound.
pub struct Natural {
    limbs: Vec<u32>,
}

impl View for Natural {
    type V = nat;

    closed spec fn view(&self) -> nat {
        limbs_value(self.limbs@)
    }
}

impl Natural {
    /// The number `value`.
    pub fn new(value: u32) -> (r: Natural)
        ensures
            r@ == value,
    {
        let mut limbs: Vec<u32> = Vec::new();
        proof {
            lemma_limbs_push(limbs@, value);
            lemma2_to64();
            assert(value as nat * 1 == value);
        }
        limbs.push(value);
        Natural { limbs }
    }

    /// The number `value`, of up to 64 binary digits.
    pub fn from_u64(value: u64) -> (r: Natural)
        ensures
            r@ == value,
    {
        let high: u32 = (value / 0x1_0000_0000) as u32;
        let low: u32 = (value % 0x1_0000_0000) as u32;
        Natural::new(high).times_plus(0x1_0000, 0).times_plus(0x1_0000, low)
    }

    /// The number `self * factor + addend`.
    pub fn times_plus(&self, factor: u32, addend: u32) -> (r: Natural)
        ensures
            r@ == self@ * factor + addend,
    {
        let mut limbs: Vec<u32> = Vec::new();
        let mut carry: u32 = addend;
        let mut i: usize = 0;
        proof {
            lemma2_to64();
            assert(self.limbs@.take(0) =~= Seq::<u32>::empty());
            assert(0 * factor as nat == 0);
            assert(addend as nat * 1 == addend);
        }
        while i < self.limbs.len()
            invariant
                i <= self.limbs.len(),
                limbs@.len() == i,
                limbs_value(limbs@) + carry as nat * pow2(32 * i as nat) == limbs_value(
                    self.limbs@.take(i as int),
                ) * factor + addend,
            decreases self.limbs.len() - i,
        {
            let limb: u32 = self.limbs[i];
            proof {
                assert(limb * factor + carry <= 0xffff_ffff_ffff_ffff) by (nonlinear_arith)
                    requires
                        limb <= 0xffff_ffff,
                        factor <= 0xffff_ffff,
                        carry <= 0xffff_ffff,
                ;
                assert(limb * factor >= 0) by (nonlinear_arith)
                    requires
                        limb >= 0,
                        factor >= 0,
                ;
            }
            let sum: u64 = limb as u64 * factor as u64 + carry as u64;
            let low: u32 = (sum % 0x1_0000_0000) as u32;
            let high: u32 = (sum / 0x1_0000_0000) as u32;
            proof {
                let weight = pow2(32 * i as nat);
                lemma_limbs_push(limbs@, low);
                lemma_limbs_take(self.limbs@, i as int);
                lemma_pow2_adds(32 * i as nat, 32);
                lemma2_to64();
                let below = limbs_value(self.limbs@.take(i as int));
                assert(low + high * 0x1_0000_0000 == limb * factor + carry);
                assert(low as nat * weight + high as nat * (weight * 0x1_0000_0000) == (limb as nat
                    * factor as nat + carry as nat) * weight) by (nonlinear_arith)
                    requires
                        low + high * 0x1_0000_0000 == limb * factor + carry,
                ;
                assert((limb as nat * factor as nat + carry as nat) * weight == limb as nat * weight
                    * factor as nat + carry as nat * weight) by (nonlinear_arith);
                assert((below + limb as nat * weight) * factor as nat == below * factor as nat
                    + limb as nat * weight * factor as nat) by (nonlinear_arith);
            }
            limbs.push(low);
            carry = high;
            i = i + 1;
        }
        proof {
            assert(self.limbs@.take(self.limbs@.len() as int) =~= self.limbs@);
            lemma_limbs_push(limbs@, carry);
            lemma_mul_basics_3(pow2(32 * self.limbs@.len()) as int);
        }
        if carry != 0 {
            limbs.push(carry);
        }
        Natural { limbs }
    }

    /// The limb at `i`, nothing above the top.
    fn limb(&self, i: usize) -> (r: u32)
        ensures
            r == (if i < self.limbs@.len() {
                self.limbs@[i as int]
            } else {
                0u32
            }),
    {
        if i < self.limbs.len() {
            self.limbs[i]
        } else {
            0
        }
    }

    /// What the limbs below `n` amount to.
    spec fn low(&self, n: int) -> nat {
        if n <= self.limbs@.len() {
            limbs_value(self.limbs@.take(n))
        } else {
            limbs_value(self.limbs@)
        }
    }

    proof fn lemma_low_step(&self, n: int)
        requires
            0 <= n,
        ensures
            self.low(n + 1) == self.low(n) + (if n < self.limbs@.len() {
                self.limbs@[n] as nat
            } else {
                0
            }) * pow2(32 * n as nat),
    {
        if n < self.limbs@.len() {
            lemma_limbs_take(self.limbs@, n);
        } else {
            assert(self.limbs@.take(self.limbs@.len() as int) =~= self.limbs@);
            assert(0 * pow2(32 * n as nat) == 0);
        }
    }

    /// `self - other`, where `other` is not the larger one.
    pub fn minus(&self, other: &Natural) -> (r: Option<Natural>)
        ensures
            r is Some <==> other@ <= self@,
            r matches Some(d) ==> d@ == self@ - other@,
    {
        let n: usize = if self.limbs.len() < other.limbs.len() {
            other.limbs.len()
        } else {
            self.limbs.len()
        };
        let mut limbs: Vec<u32> = Vec::new();
        let mut borrow: u32 = 0;
        let mut i: usize = 0;
        proof {
            assert(self.limbs@.take(0) =~= Seq::<u32>::empty());
            assert(other.limbs@.take(0) =~= Seq::<u32>::empty());
        }
        while i < n
            invariant
                i <= n,
                limbs@.len() == i,
                borrow <= 1,
                limbs_value(limbs@) + other.low(i as int) == self.low(i as int) + borrow as nat
                    * pow2(32 * i as nat),
            decreases n - i,
        {
            let a: u32 = self.limb(i);
            let b: u32 = other.limb(i);
            let wide: u64 = a as u64 + 0x1_0000_0000u64 - b as u64 - borrow as u64;
            let low: u32 = (wide % 0x1_0000_0000) as u32;
            let next: u32 = if wide < 0x1_0000_0000 {
                1
            } else {
                0
            };
            proof {
                let weight = pow2(32 * i as nat);
                lemma_limbs_push(limbs@, low);
                self.lemma_low_step(i as int);
                other.lemma_low_step(i as int);
                lemma_pow2_adds(32 * i as nat, 32);
                lemma2_to64();
                assert(low + b + borrow == a + next * 0x1_0000_0000);
                assert(low as nat * weight + b as nat * weight + borrow as nat * weight == a as nat
                    * weight + next as nat * (weight * 0x1_0000_0000)) by (nonlinear_arith)
                    requires
                        low + b + borrow == a + next * 0x1_0000_0000,
                ;
            }
            limbs.push(low);
            borrow = next;
            i = i + 1;
        }
        proof {
            assert(self.limbs@.take(self.limbs@.len() as int) =~= self.limbs@);
            assert(other.limbs@.take(other.limbs@.len() as int) =~= other.limbs@);
            lemma_limbs_bound(limbs@);
            lemma_mul_basics_4(pow2(32 * n as nat) as int);
        }
        if borrow == 0 {
            Some(Natural { limbs })
        } else {
            None
        }
    }

    /// Whether `self` is the smaller one.
    pub fn less_than(&self, other: &Natural) -> (r: bool)
        ensures
            r == (self@ < other@),
    {
        self.minus(other).is_none()
    }
}

} // verus!
