//! Amounts of the staked asset: natural numbers of any size.

use crate::digits::{
    be_value, canonical, difference, digits_of, lemma_be_value_reverse, lemma_value_floor,
    lemma_weight_positive, less, machine_value, product, reversed, sum, trimmed, value,
};
use vstd::prelude::*;
use vstd::std_specs::cmp::PartialEqSpecImpl;

verus! {

/// A natural number of any size: a balance, a reward, an accumulator.
///
/// Its view is the number itself, and every operation is specified by plain
/// arithmetic on that view. `==` compares the numbers.
#[derive(Debug)]
pub struct Amount {
    digits: Vec<u8>,
}

impl View for Amount {
    type V = nat;

    closed spec fn view(&self) -> nat {
        value(self.digits@)
    }
}

impl Amount {
    #[verifier::type_invariant]
    spec fn well_formed(&self) -> bool {
        canonical(self.digits@)
    }

    /// The number zero.
    pub fn zero() -> (r: Amount)
        ensures
            r@ == 0,
    {
        Amount { digits: Vec::new() }
    }

    /// The amount that a machine integer stands for.
    pub fn from_u64(v: u64) -> (r: Amount)
        ensures
            r@ == v,
    {
        Amount { digits: digits_of(v as u128) }
    }

    /// The amount that a machine integer stands for.
    pub fn from_u128(v: u128) -> (r: Amount)
        ensures
            r@ == v,
    {
        Amount { digits: digits_of(v) }
    }

    /// The amount that big-endian bytes stand for; leading zero bytes are
    /// allowed and the empty string stands for zero.
    pub fn from_be_bytes(bytes: &[u8]) -> (r: Amount)
        ensures
            r@ == be_value(bytes@),
    {
        proof {
            lemma_be_value_reverse(bytes@);
        }
        Amount { digits: trimmed(reversed(bytes)) }
    }

    /// The shortest big-endian bytes that stand for this amount; zero gives
    /// the empty string.
    pub fn to_be_bytes(&self) -> (r: Vec<u8>)
        ensures
            be_value(r@) == self@,
            r@.len() > 0 ==> r@[0] != 0,
    {
        proof {
            use_type_invariant(self);
        }
        let r = reversed(self.digits.as_slice());
        proof {
            lemma_be_value_reverse(r@);
            assert(r@.reverse() =~= self.digits@);
        }
        r
    }

    /// This amount as a machine integer, where it is small enough for one.
    pub fn to_u128(&self) -> (r: Option<u128>)
        ensures
            r == if self@ <= u128::MAX {
                Some(self@ as u128)
            } else {
                None
            },
    {
        proof {
            use_type_invariant(self);
        }
        machine_value(&self.digits)
    }

    /// This amount as a machine integer, where it is small enough for one.
    pub fn to_u64(&self) -> (r: Option<u64>)
        ensures
            r == if self@ <= u64::MAX {
                Some(self@ as u64)
            } else {
                None
            },
    {
        match self.to_u128() {
            Some(v) => if v <= u64::MAX as u128 {
                Some(v as u64)
            } else {
                None
            },
            None => None,
        }
    }

    /// Whether this amount is zero.
    pub fn is_zero(&self) -> (r: bool)
        ensures
            r == (self@ == 0),
    {
        proof {
            use_type_invariant(self);
            if self.digits@.len() > 0 {
                lemma_value_floor(self.digits@);
                lemma_weight_positive((self.digits@.len() - 1) as nat);
            }
        }
        self.digits.len() == 0
    }

    /// Whether this amount is below the other.
    pub fn lt(&self, other: &Amount) -> (r: bool)
        ensures
            r == (self@ < other@),
    {
        proof {
            use_type_invariant(self);
            use_type_invariant(other);
        }
        less(&self.digits, &other.digits)
    }

    /// Whether this amount is not above the other.
    pub fn le(&self, other: &Amount) -> (r: bool)
        ensures
            r == (self@ <= other@),
    {
        !other.lt(self)
    }

    /// The sum of two amounts.
    pub fn add(&self, other: &Amount) -> (r: Amount)
        ensures
            r@ == self@ + other@,
    {
        Amount { digits: trimmed(sum(&self.digits, &other.digits)) }
    }

    /// What is left of this amount once the other, which is not above it, is
    /// taken away.
    pub fn sub(&self, other: &Amount) -> (r: Amount)
        requires
            other@ <= self@,
        ensures
            r@ == self@ - other@,
    {
        Amount { digits: trimmed(difference(&self.digits, &other.digits)) }
    }

    /// The product of two amounts.
    pub fn mul(&self, other: &Amount) -> (r: Amount)
        ensures
            r@ == self@ * other@,
    {
        Amount { digits: trimmed(product(&self.digits, &other.digits)) }
    }
}

impl Clone for Amount {
    fn clone(&self) -> (r: Amount)
        ensures
            r@ == self@,
    {
        proof {
            use_type_invariant(self);
        }
        let digits = self.digits.clone();
        proof {
            assert(digits@ =~= self.digits@);
        }
        Amount { digits }
    }
}

impl PartialEq for Amount {
    fn eq(&self, other: &Amount) -> (r: bool) {
        !self.lt(other) && !other.lt(self)
    }
}

impl Eq for Amount {

}

impl PartialEqSpecImpl for Amount {
    open spec fn obeys_eq_spec() -> bool {
        true
    }

    open spec fn eq_spec(&self, other: &Amount) -> bool {
        self@ == other@
    }
}

} // verus!
