//! Composition rules that lift combinability through pairs and optional
//! values, and a few plainly named concrete carriers.
use crate::traits::{CommutativeMonoid, Monoid, Semigroup, Semiring};
use vstd::arithmetic::div_mod::{
    lemma_mod_bound, lemma_mul_mod_noop_left, lemma_mul_mod_noop_right, lemma_small_mod,
};
use vstd::arithmetic::mul::{lemma_mul_is_associative, lemma_mul_is_commutative};
use vstd::prelude::*;

verus! {

/// The direct product of two semigroups is a semigroup: each side is
/// combined independently.
impl<X: Semigroup, Y: Semigroup> Semigroup for (X, Y) {
    open spec fn spec_op(x: Self::V, y: Self::V) -> Self::V {
        (X::spec_op(x.0, y.0), Y::spec_op(x.1, y.1))
    }

    proof fn lemma_op_assoc(x: Self::V, y: Self::V, z: Self::V) {
        X::lemma_op_assoc(x.0, y.0, z.0);
        Y::lemma_op_assoc(x.1, y.1, z.1);
    }

    fn op(x: &Self, y: &Self) -> (r: Self) {
        (X::op(&x.0, &y.0), Y::op(&x.1, &y.1))
    }

    fn dup(x: &Self) -> (r: Self) {
        (X::dup(&x.0), Y::dup(&x.1))
    }
}

/// The direct product of two monoids is a monoid.
impl<X: Monoid, Y: Monoid> Monoid for (X, Y) {
    open spec fn spec_zero() -> Self::V {
        (X::spec_zero(), Y::spec_zero())
    }

    proof fn lemma_zero_identity(x: Self::V) {
        X::lemma_zero_identity(x.0);
        Y::lemma_zero_identity(x.1);
    }

    fn zero() -> (r: Self) {
        (X::zero(), Y::zero())
    }
}

/// The direct product of two commutative monoids is commutative.
impl<X: CommutativeMonoid, Y: CommutativeMonoid> CommutativeMonoid for (X, Y) {
    proof fn lemma_op_comm(x: Self::V, y: Self::V) {
        X::lemma_op_comm(x.0, y.0);
        Y::lemma_op_comm(x.1, y.1);
    }
}

/// The direct product of two semirings is a semiring, with `mul` and `one`
/// taken componentwise.
impl<X: Semiring, Y: Semiring> Semiring for (X, Y) {
    open spec fn spec_mul(x: Self::V, y: Self::V) -> Self::V {
        (X::spec_mul(x.0, y.0), Y::spec_mul(x.1, y.1))
    }

    open spec fn spec_one() -> Self::V {
        (X::spec_one(), Y::spec_one())
    }

    proof fn lemma_mul_assoc(x: Self::V, y: Self::V, z: Self::V) {
        X::lemma_mul_assoc(x.0, y.0, z.0);
        Y::lemma_mul_assoc(x.1, y.1, z.1);
    }

    proof fn lemma_one_identity(x: Self::V) {
        X::lemma_one_identity(x.0);
        Y::lemma_one_identity(x.1);
    }

    proof fn lemma_mul_annihilates(x: Self::V) {
        X::lemma_mul_annihilates(x.0);
        Y::lemma_mul_annihilates(x.1);
    }

    proof fn lemma_mul_distributes(x: Self::V, y: Self::V, z: Self::V) {
        X::lemma_mul_distributes(x.0, y.0, z.0);
        Y::lemma_mul_distributes(x.1, y.1, z.1);
    }

    fn mul(x: &Self, y: &Self) -> (r: Self) {
        (X::mul(&x.0, &y.0), Y::mul(&x.1, &y.1))
    }

    fn one() -> (r: Self) {
        (X::one(), Y::one())
    }
}

/// A semigroup is made into a monoid by adjoining a new identity element:
/// the absent value combines as a neutral element, two present values
/// combine their payloads.
impl<T: Semigroup> Semigroup for Option<T> {
    open spec fn spec_op(x: Self::V, y: Self::V) -> Self::V {
        match (x, y) {
            (Some(a), Some(b)) => Some(T::spec_op(a, b)),
            (None, _) => y,
            (_, None) => x,
        }
    }

    proof fn lemma_op_assoc(x: Self::V, y: Self::V, z: Self::V) {
        if x is Some && y is Some && z is Some {
            T::lemma_op_assoc(x->0, y->0, z->0);
        }
    }

    fn op(x: &Self, y: &Self) -> (r: Self) {
        match (x, y) {
            (Some(a), Some(b)) => Some(T::op(a, b)),
            (None, _) => Self::dup(y),
            (_, None) => Self::dup(x),
        }
    }

    fn dup(x: &Self) -> (r: Self) {
        match x {
            None => None,
            Some(a) => Some(T::dup(a)),
        }
    }
}

/// The adjoined absent value is the identity.
impl<T: Semigroup> Monoid for Option<T> {
    open spec fn spec_zero() -> Self::V {
        None
    }

    proof fn lemma_zero_identity(x: Self::V) {
    }

    fn zero() -> (r: Self) {
        None
    }
}

/// The additive kind of plain accumulation: a 64-bit tally that combines
/// by wrapping addition.
#[derive(Clone, Copy, Debug, PartialEq, Eq, Structural)]
pub struct Sum(pub u64);

impl DeepView for Sum {
    type V = Sum;

    open spec fn deep_view(&self) -> Sum {
        *self
    }
}

impl Semigroup for Sum {
    open spec fn spec_op(x: Sum, y: Sum) -> Sum {
        Sum(x.0.wrapping_add(y.0))
    }

    proof fn lemma_op_assoc(x: Sum, y: Sum, z: Sum) {
    }

    fn op(x: &Self, y: &Self) -> (r: Self) {
        Sum(x.0.wrapping_add(y.0))
    }

    fn dup(x: &Self) -> (r: Self) {
        Sum(x.0)
    }
}

impl Monoid for Sum {
    open spec fn spec_zero() -> Sum {
        Sum(0)
    }

    proof fn lemma_zero_identity(x: Sum) {
    }

    fn zero() -> (r: Self) {
        Sum(0)
    }
}

impl CommutativeMonoid for Sum {
    proof fn lemma_op_comm(x: Sum, y: Sum) {
    }
}

/// The multiplicative kind of plain accumulation: a 64-bit value that
/// combines by wrapping multiplication; its identity is 1.
#[derive(Clone, Copy, Debug, PartialEq, Eq, Structural)]
pub struct Prod(pub u64);

impl DeepView for Prod {
    type V = Prod;

    open spec fn deep_view(&self) -> Prod {
        *self
    }
}

impl Semigroup for Prod {
    open spec fn spec_op(x: Prod, y: Prod) -> Prod {
        Prod(x.0.wrapping_mul(y.0))
    }

    proof fn lemma_op_assoc(x: Prod, y: Prod, z: Prod) {
        let r: int = 0x10000000000000000;
        let a = x.0 as int;
        let b = y.0 as int;
        let c = z.0 as int;
        lemma_mod_bound(a * b, r);
        lemma_mod_bound(b * c, r);
        lemma_mul_mod_noop_left(a * b, c, r);
        lemma_mul_mod_noop_right(a, b * c, r);
        lemma_mul_is_associative(a, b, c);
    }

    fn op(x: &Self, y: &Self) -> (r: Self) {
        Prod(x.0.wrapping_mul(y.0))
    }

    fn dup(x: &Self) -> (r: Self) {
        Prod(x.0)
    }
}

impl Monoid for Prod {
    open spec fn spec_zero() -> Prod {
        Prod(1)
    }

    proof fn lemma_zero_identity(x: Prod) {
        lemma_small_mod(x.0 as nat, 0x10000000000000000);
    }

    fn zero() -> (r: Self) {
        Prod(1)
    }
}

impl CommutativeMonoid for Prod {
    proof fn lemma_op_comm(x: Prod, y: Prod) {
        lemma_mul_is_commutative(x.0 as int, y.0 as int);
    }
}

/// The tropical carrier: combining takes the minimum, the second
/// operation adds (saturating at the largest representable value), and an
/// infinite element is both the identity of `min` and absorbing for the
/// addition.
#[derive(Clone, Copy, Debug, PartialEq, Eq, Structural)]
pub enum MinPlus {
    /// No finite value yet: the identity for the minimum.
    Infinity,
    /// A finite value.
    Finite(u64),
}

impl DeepView for MinPlus {
    type V = MinPlus;

    open spec fn deep_view(&self) -> MinPlus {
        *self
    }
}

impl Semigroup for MinPlus {
    open spec fn spec_op(x: MinPlus, y: MinPlus) -> MinPlus {
        match (x, y) {
            (MinPlus::Infinity, _) => y,
            (_, MinPlus::Infinity) => x,
            (MinPlus::Finite(a), MinPlus::Finite(b)) => MinPlus::Finite(
                if a <= b {
                    a
                } else {
                    b
                },
            ),
        }
    }

    proof fn lemma_op_assoc(x: MinPlus, y: MinPlus, z: MinPlus) {
    }

    fn op(x: &Self, y: &Self) -> (r: Self) {
        match (x, y) {
            (MinPlus::Infinity, _) => *y,
            (_, MinPlus::Infinity) => *x,
            (MinPlus::Finite(a), MinPlus::Finite(b)) => MinPlus::Finite(
                if *a <= *b {
                    *a
                } else {
                    *b
                },
            ),
        }
    }

    fn dup(x: &Self) -> (r: Self) {
        *x
    }
}

impl Monoid for MinPlus {
    open spec fn spec_zero() -> MinPlus {
        MinPlus::Infinity
    }

    proof fn lemma_zero_identity(x: MinPlus) {
    }

    fn zero() -> (r: Self) {
        MinPlus::Infinity
    }
}

impl CommutativeMonoid for MinPlus {
    proof fn lemma_op_comm(x: MinPlus, y: MinPlus) {
    }
}

impl Semiring for MinPlus {
    open spec fn spec_mul(x: MinPlus, y: MinPlus) -> MinPlus {
        match (x, y) {
            (MinPlus::Infinity, _) => MinPlus::Infinity,
            (_, MinPlus::Infinity) => MinPlus::Infinity,
            (MinPlus::Finite(a), MinPlus::Finite(b)) => MinPlus::Finite(a.saturating_add(b)),
        }
    }

    open spec fn spec_one() -> MinPlus {
        MinPlus::Finite(0)
    }

    proof fn lemma_mul_assoc(x: MinPlus, y: MinPlus, z: MinPlus) {
    }

    proof fn lemma_one_identity(x: MinPlus) {
    }

    proof fn lemma_mul_annihilates(x: MinPlus) {
    }

    proof fn lemma_mul_distributes(x: MinPlus, y: MinPlus, z: MinPlus) {
    }

    fn mul(x: &Self, y: &Self) -> (r: Self) {
        match (x, y) {
            (MinPlus::Infinity, _) => MinPlus::Infinity,
            (_, MinPlus::Infinity) => MinPlus::Infinity,
            (MinPlus::Finite(a), MinPlus::Finite(b)) => MinPlus::Finite((*a).saturating_add(*b)),
        }
    }

    fn one() -> (r: Self) {
        MinPlus::Finite(0)
    }
}

} // verus!
