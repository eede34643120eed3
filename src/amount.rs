//! Non-negative 256-bit integers for prices and quantities.

use vstd::prelude::*;

verus! {

/// The weight of the high limb of an [`Amount`]: 2^128.
pub open spec fn limb_base() -> nat {
    340282366920938463463374607431768211456nat
}

/// An exact non-negative integer below 2^256, held as two 128-bit limbs.
///
/// Its value is `hi * 2^128 + lo`; every pair of limbs is a distinct value.
#[derive(Clone, Copy, Debug, PartialEq, Eq, Structural)]
pub struct Amount {
    pub hi: u128,
    pub lo: u128,
}

impl View for Amount {
    type V = nat;

    open spec fn view(&self) -> nat {
        self.hi as nat * limb_base() + self.lo as nat
    }
}

/// Comparing two-limb values is comparing their high limbs first.
proof fn lemma_limb_order(a: Amount, b: Amount)
    ensures
        a.hi < b.hi ==> a@ < b@,
        a.hi == b.hi ==> (a@ <= b@ <==> a.lo <= b.lo),
{
    let base = limb_base();
    assert(u128::MAX as nat + 1 == base);
    if a.hi < b.hi {
        assert((a.hi as nat + 1) * base <= b.hi as nat * base) by (nonlinear_arith)
            requires
                a.hi < b.hi,
        ;
        assert((a.hi as nat) * base + (a.lo as nat) < (a.hi as nat + 1) * base) by (nonlinear_arith)
            requires
                a.lo < base,
        ;
    }
}

impl Amount {
    /// Zero.
    pub fn zero() -> (r: Amount)
        ensures
            r@ == 0,
    {
        Amount { hi: 0, lo: 0 }
    }

    /// The amount of the given 64-bit integer.
    pub fn from_u64(x: u64) -> (r: Amount)
        ensures
            r@ == x as nat,
    {
        Amount { hi: 0, lo: x as u128 }
    }

    /// The amount of the given 128-bit integer.
    pub fn from_u128(x: u128) -> (r: Amount)
        ensures
            r@ == x as nat,
    {
        Amount { hi: 0, lo: x }
    }

    /// Whether the amount is zero.
    pub fn is_zero(&self) -> (r: bool)
        ensures
            r == (self@ == 0),
    {
        proof {
            lemma_limb_order(Amount { hi: 0, lo: 0 }, *self);
        }
        self.hi == 0 && self.lo == 0
    }

    /// Whether `self` is at most `other`.
    pub fn le(&self, other: &Amount) -> (r: bool)
        ensures
            r == (self@ <= other@),
    {
        proof {
            lemma_limb_order(*self, *other);
            lemma_limb_order(*other, *self);
        }
        self.hi < other.hi || (self.hi == other.hi && self.lo <= other.lo)
    }

    /// The difference `self - other`, which must not be negative.
    pub fn minus(&self, other: &Amount) -> (r: Amount)
        requires
            other@ <= self@,
        ensures
            r@ == self@ - other@,
    {
        proof {
            lemma_limb_order(*self, *other);
        }
        let base: Ghost<nat> = Ghost(limb_base());
        assert(u128::MAX as nat + 1 == base@);
        if self.lo >= other.lo {
            let r = Amount { hi: self.hi - other.hi, lo: self.lo - other.lo };
            assert(r@ == self@ - other@) by (nonlinear_arith)
                requires
                    r.hi as nat == self.hi as nat - other.hi as nat,
                    r.lo as nat == self.lo as nat - other.lo as nat,
                    r@ == r.hi as nat * base@ + r.lo as nat,
                    self@ == self.hi as nat * base@ + self.lo as nat,
                    other@ == other.hi as nat * base@ + other.lo as nat,
            ;
            r
        } else {
            let r = Amount { hi: self.hi - other.hi - 1, lo: self.lo + (u128::MAX - other.lo) + 1 };
            assert(r@ == self@ - other@) by (nonlinear_arith)
                requires
                    r.hi as nat == self.hi as nat - other.hi as nat - 1,
                    r.lo as nat == self.lo as nat + base@ - other.lo as nat,
                    r@ == r.hi as nat * base@ + r.lo as nat,
                    self@ == self.hi as nat * base@ + self.lo as nat,
                    other@ == other.hi as nat * base@ + other.lo as nat,
            ;
            r
        }
    }
}

} // verus!
