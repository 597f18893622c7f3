//! The capability hierarchy: associative combine, identity, commutativity,
//! and a ring-like second operation, together with the generic utilities
//! that work for any conforming type.
use vstd::prelude::*;

verus! {

/// A type with one closed, associative binary combining operation.
///
/// The operation is specified on the type's mathematical model
/// (`deep_view`): `spec_op` gives its meaning on models, `op` is the
/// executable form, and the associativity law is stated once for all
/// model values. Simple carriers are their own model; structured carriers
/// (such as a key-to-value map) use an abstract model, so that two
/// representations of the same value count as equal.
pub trait Semigroup: DeepView + Sized {
    /// The meaning of the combining operation, on models.
    spec fn spec_op(x: Self::V, y: Self::V) -> Self::V;

    /// Law: the combining operation is associative.
    proof fn lemma_op_assoc(x: Self::V, y: Self::V, z: Self::V)
        ensures
            Self::spec_op(Self::spec_op(x, y), z) == Self::spec_op(x, Self::spec_op(y, z)),
    ;

    /// Associative combining operation.
    fn op(x: &Self, y: &Self) -> (r: Self)
        ensures
            r.deep_view() == Self::spec_op(x.deep_view(), y.deep_view()),
    ;

    /// A copy with the same model. (`Clone` promises nothing to the
    /// verifier, so the ability to duplicate a value is part of the
    /// capability.)
    fn dup(x: &Self) -> (r: Self)
        ensures
            r.deep_view() == x.deep_view(),
    ;
}

/// A semigroup with an identity element for `op` (here named zero).
pub trait Monoid: Semigroup {
    /// The model of the identity element.
    spec fn spec_zero() -> Self::V;

    /// Law: zero is an identity on both sides of `op`.
    proof fn lemma_zero_identity(x: Self::V)
        ensures
            Self::spec_op(Self::spec_zero(), x) == x,
            Self::spec_op(x, Self::spec_zero()) == x,
    ;

    /// Identity element for [`Semigroup::op`].
    fn zero() -> (r: Self)
        ensures
            r.deep_view() == Self::spec_zero(),
    ;
}

/// A monoid whose combining operation is commutative.
pub trait CommutativeMonoid: Monoid {
    /// Law: the combining operation is commutative.
    proof fn lemma_op_comm(x: Self::V, y: Self::V)
        ensures
            Self::spec_op(x, y) == Self::spec_op(y, x),
    ;
}

/// A commutative monoid with a second associative operation `mul` and its
/// own identity (one), where zero annihilates and `mul` distributes over
/// `op` on both sides.
pub trait Semiring: CommutativeMonoid {
    /// The meaning of the second operation, on models.
    spec fn spec_mul(x: Self::V, y: Self::V) -> Self::V;

    /// The model of the identity element for the second operation.
    spec fn spec_one() -> Self::V;

    /// Law: the second operation is associative.
    proof fn lemma_mul_assoc(x: Self::V, y: Self::V, z: Self::V)
        ensures
            Self::spec_mul(Self::spec_mul(x, y), z) == Self::spec_mul(x, Self::spec_mul(y, z)),
    ;

    /// Law: one is an identity on both sides of `mul`.
    proof fn lemma_one_identity(x: Self::V)
        ensures
            Self::spec_mul(Self::spec_one(), x) == x,
            Self::spec_mul(x, Self::spec_one()) == x,
    ;

    /// Law: zero annihilates under `mul` on both sides.
    proof fn lemma_mul_annihilates(x: Self::V)
        ensures
            Self::spec_mul(Self::spec_zero(), x) == Self::spec_zero(),
            Self::spec_mul(x, Self::spec_zero()) == Self::spec_zero(),
    ;

    /// Law: `mul` distributes over `op` on both sides.
    proof fn lemma_mul_distributes(x: Self::V, y: Self::V, z: Self::V)
        ensures
            Self::spec_mul(x, Self::spec_op(y, z)) == Self::spec_op(
                Self::spec_mul(x, y),
                Self::spec_mul(x, z),
            ),
            Self::spec_mul(Self::spec_op(x, y), z) == Self::spec_op(
                Self::spec_mul(x, z),
                Self::spec_mul(y, z),
            ),
    ;

    /// Additional associative binary operation.
    fn mul(x: &Self, y: &Self) -> (r: Self)
        ensures
            r.deep_view() == Self::spec_mul(x.deep_view(), y.deep_view()),
    ;

    /// Identity element for [`Semiring::mul`].
    fn one() -> (r: Self)
        ensures
            r.deep_view() == Self::spec_one(),
    ;
}

/// Misuse of the generic utilities, surfaced as a distinguishable failure.
#[derive(Clone, Copy, Debug, PartialEq, Eq, Structural)]
pub enum AlgebraError {
    /// Repeated self-combination was requested with count zero on a type
    /// that has no identity element to fall back to.
    InvalidExponent,
}

/// `x` combined with itself `n` times, folded left-to-right:
/// `pow(x, 1) == x` and `pow(x, n) == op(pow(x, n - 1), x)`.
pub open spec fn spec_pow<S: Semigroup>(x: S::V, n: nat) -> S::V
    decreases n,
{
    if n <= 1 {
        x
    } else {
        S::spec_op(spec_pow::<S>(x, (n - 1) as nat), x)
    }
}

/// Powers compose: combining the `a`-fold and `b`-fold powers of `x`
/// gives the `(a + b)`-fold power. Follows from associativity alone.
pub proof fn lemma_pow_add<S: Semigroup>(x: S::V, a: nat, b: nat)
    requires
        a >= 1,
        b >= 1,
    ensures
        spec_pow::<S>(x, a + b) == S::spec_op(spec_pow::<S>(x, a), spec_pow::<S>(x, b)),
    decreases b,
{
    if b > 1 {
        lemma_pow_add::<S>(x, a, (b - 1) as nat);
        S::lemma_op_assoc(spec_pow::<S>(x, a), spec_pow::<S>(x, (b - 1) as nat), x);
    }
}

/// Square-and-multiply core, for a strictly positive exponent.
fn power_positive<S: Semigroup>(x: &S, n: u64) -> (r: S)
    requires
        n >= 1,
    ensures
        r.deep_view() == spec_pow::<S>(x.deep_view(), n as nat),
{
    let mut base = S::dup(x);
    let mut acc: Option<S> = None;
    let mut m: u64 = n;
    let ghost mut base_exp: nat = 1;
    let ghost mut acc_exp: nat = 0;
    while m > 0
        invariant
            base_exp >= 1,
            base.deep_view() == spec_pow::<S>(x.deep_view(), base_exp),
            acc_exp + m * base_exp == n,
            (acc_exp == 0) <==> (acc is None),
            acc_exp >= 1 ==> (acc matches Some(a) && a.deep_view() == spec_pow::<S>(
                x.deep_view(),
                acc_exp,
            )),
        decreases m,
    {
        let ghost m0 = m;
        let ghost base_exp0 = base_exp;
        let ghost acc_exp0 = acc_exp;
        proof {
            assert(m & 1 == m % 2) by (bit_vector);
            assert(m >> 1 == m / 2) by (bit_vector);
        }
        if m & 1 == 1 {
            acc = match acc {
                None => Some(S::dup(&base)),
                Some(a) => {
                    proof {
                        lemma_pow_add::<S>(x.deep_view(), acc_exp, base_exp);
                    }
                    Some(S::op(&a, &base))
                },
            };
            proof {
                acc_exp = acc_exp + base_exp;
            }
        }
        proof {
            lemma_pow_add::<S>(x.deep_view(), base_exp, base_exp);
        }
        base = S::op(&base, &base);
        m = m >> 1;
        proof {
            base_exp = base_exp + base_exp;
            assert(acc_exp + m * base_exp == n) by (nonlinear_arith)
                requires
                    m == m0 / 2,
                    base_exp == 2 * base_exp0,
                    acc_exp == acc_exp0 + (m0 % 2) * base_exp0,
                    acc_exp0 + m0 * base_exp0 == n,
            {
            }
        }
    }
    acc.unwrap()
}

/// Combine `x` with itself `n` times in O(log n) applications of `op`,
/// by binary (square-and-multiply) exponentiation. The result equals the
/// left-to-right fold of `op` over `n` copies of `x`. A bare semigroup has
/// no identity element, so `n == 0` is rejected as an invalid exponent.
pub fn power_semigroup<S: Semigroup>(x: &S, n: u64) -> (r: Result<S, AlgebraError>)
    ensures
        n == 0 ==> (r matches Err(e) && e == AlgebraError::InvalidExponent),
        n >= 1 ==> (r matches Ok(y) && y.deep_view() == spec_pow::<S>(x.deep_view(), n as nat)),
{
    if n == 0 {
        Err(AlgebraError::InvalidExponent)
    } else {
        Ok(power_positive(x, n))
    }
}

/// The value of the monoid power operator: the identity for `n == 0`,
/// the `n`-fold power otherwise.
pub open spec fn spec_pow_monoid<M: Monoid>(x: M::V, n: nat) -> M::V {
    if n == 0 {
        M::spec_zero()
    } else {
        spec_pow::<M>(x, n)
    }
}

/// Left-to-right fold of the models of a sequence of monoid values,
/// starting from the identity.
pub open spec fn spec_fold<M: Monoid>(s: Seq<M>) -> M::V
    decreases s.len(),
{
    if s.len() == 0 {
        M::spec_zero()
    } else {
        M::spec_op(spec_fold::<M>(s.drop_last()), s.last().deep_view())
    }
}

/// Simultaneously map items to a monoid and accumulate them: the result is
/// the left-to-right fold, from the identity, of the images of the items.
pub fn fold_map<T, M: Monoid, F: Fn(&T) -> M>(xs: &Vec<T>, f: F) -> (r: M)
    requires
        forall|i: int| 0 <= i < xs@.len() ==> call_requires(f, (&xs@[i],)),
    ensures
        exists|ms: Seq<M>|
            {
                &&& ms.len() == xs@.len()
                &&& (forall|i: int|
                    0 <= i < ms.len() ==> call_ensures(f, (&xs@[i],), #[trigger] ms[i]))
                &&& r.deep_view() == spec_fold::<M>(ms)
            },
{
    let mut r = M::zero();
    let ghost mut ms: Seq<M> = Seq::empty();
    let mut j: usize = 0;
    while j < xs.len()
        invariant
            j <= xs.len(),
            ms.len() == j,
            forall|i: int| 0 <= i < xs@.len() ==> call_requires(f, (&xs@[i],)),
            forall|i: int| 0 <= i < ms.len() ==> call_ensures(f, (&xs@[i],), #[trigger] ms[i]),
            r.deep_view() == spec_fold::<M>(ms),
        decreases xs.len() - j,
    {
        let m = f(&xs[j]);
        let r2 = M::op(&r, &m);
        r = r2;
        proof {
            let ms0 = ms;
            ms = ms.push(m);
            assert(ms.drop_last() =~= ms0);
        }
        j += 1;
    }
    r
}

/// The power operator agrees with folding: the `n`-fold power of a monoid
/// value's model is the left-to-right fold of `n` copies of the value.
pub proof fn lemma_pow_is_fold<M: Monoid>(x: M, n: nat)
    ensures
        spec_fold::<M>(Seq::new(n, |i: int| x)) == spec_pow_monoid::<M>(x.deep_view(), n),
    decreases n,
{
    let s = Seq::new(n, |i: int| x);
    if n == 1 {
        assert(s.drop_last() =~= Seq::new(0, |i: int| x));
        assert(spec_fold::<M>(Seq::new(0, |i: int| x)) == M::spec_zero());
        assert(s.last() == x);
        M::lemma_zero_identity(x.deep_view());
    } else if n > 1 {
        lemma_pow_is_fold::<M>(x, (n - 1) as nat);
        assert(s.drop_last() =~= Seq::new((n - 1) as nat, |i: int| x));
        assert(s.last() == x);
    }
}

/// Monoid version of the power operator, accepting 0 as an argument:
/// zero applications short-circuit to the identity without calling `op`.
pub fn power_monoid<M: Monoid>(x: &M, n: u64) -> (r: M)
    ensures
        r.deep_view() == spec_pow_monoid::<M>(x.deep_view(), n as nat),
{
    if n == 0 {
        M::zero()
    } else {
        power_positive(x, n)
    }
}

} // verus!
