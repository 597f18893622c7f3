use combinable::instances::{MinPlus, Prod, Sum};
use combinable::traits::{
    fold_map, power_monoid, power_semigroup, AlgebraError, Monoid, Semigroup, Semiring,
};

#[test]
fn sum_combines_by_addition() {
    assert_eq!(Sum::op(&Sum(2), &Sum(3)), Sum(5));
}

#[test]
fn sum_combine_wraps_around() {
    assert_eq!(Sum::op(&Sum(u64::MAX), &Sum(1)), Sum(0));
}

#[test]
fn sum_combine_is_associative_on_values() {
    let a = Sum(u64::MAX - 1);
    let b = Sum(5);
    let c = Sum(1 << 60);
    assert_eq!(Sum::op(&Sum::op(&a, &b), &c), Sum::op(&a, &Sum::op(&b, &c)));
}

#[test]
fn sum_zero_is_identity() {
    let x = Sum(42);
    assert_eq!(Sum::op(&Sum::zero(), &x), x);
    assert_eq!(Sum::op(&x, &Sum::zero()), x);
}

#[test]
fn sum_combine_is_commutative_on_values() {
    let x = Sum(17);
    let y = Sum(u64::MAX - 3);
    assert_eq!(Sum::op(&x, &y), Sum::op(&y, &x));
}

#[test]
fn prod_combines_by_multiplication() {
    assert_eq!(Prod::op(&Prod(6), &Prod(7)), Prod(42));
}

#[test]
fn prod_combine_wraps_around() {
    assert_eq!(Prod::op(&Prod(1 << 32), &Prod(1 << 32)), Prod(0));
}

#[test]
fn prod_zero_is_identity() {
    let x = Prod(9);
    assert_eq!(Prod::op(&Prod::zero(), &x), x);
    assert_eq!(Prod::op(&x, &Prod::zero()), x);
    assert_eq!(Prod::zero(), Prod(1));
}

#[test]
fn prod_combine_is_associative_on_values() {
    let a = Prod(0x1234_5678_9abc_def1);
    let b = Prod(3);
    let c = Prod(0xfedc_ba98);
    assert_eq!(
        Prod::op(&Prod::op(&a, &b), &c),
        Prod::op(&a, &Prod::op(&b, &c))
    );
}

#[test]
fn min_plus_combines_by_minimum() {
    assert_eq!(
        MinPlus::op(&MinPlus::Finite(3), &MinPlus::Finite(5)),
        MinPlus::Finite(3)
    );
    assert_eq!(
        MinPlus::op(&MinPlus::Infinity, &MinPlus::Finite(4)),
        MinPlus::Finite(4)
    );
    assert_eq!(
        MinPlus::op(&MinPlus::Finite(4), &MinPlus::Infinity),
        MinPlus::Finite(4)
    );
}

#[test]
fn min_plus_second_operation_adds() {
    assert_eq!(
        MinPlus::mul(&MinPlus::Finite(2), &MinPlus::Finite(3)),
        MinPlus::Finite(5)
    );
}

#[test]
fn min_plus_second_operation_saturates() {
    assert_eq!(
        MinPlus::mul(&MinPlus::Finite(u64::MAX), &MinPlus::Finite(2)),
        MinPlus::Finite(u64::MAX)
    );
}

#[test]
fn min_plus_one_is_identity_for_mul() {
    let x = MinPlus::Finite(11);
    assert_eq!(MinPlus::mul(&MinPlus::one(), &x), x);
    assert_eq!(MinPlus::mul(&x, &MinPlus::one()), x);
    assert_eq!(MinPlus::one(), MinPlus::Finite(0));
}

#[test]
fn min_plus_zero_annihilates_under_mul() {
    let x = MinPlus::Finite(11);
    assert_eq!(MinPlus::mul(&MinPlus::zero(), &x), MinPlus::Infinity);
    assert_eq!(MinPlus::mul(&x, &MinPlus::zero()), MinPlus::Infinity);
}

#[test]
fn min_plus_mul_distributes_over_op_on_values() {
    let x = MinPlus::Finite(4);
    let y = MinPlus::Finite(9);
    let z = MinPlus::Finite(6);
    assert_eq!(
        MinPlus::mul(&x, &MinPlus::op(&y, &z)),
        MinPlus::op(&MinPlus::mul(&x, &y), &MinPlus::mul(&x, &z))
    );
    assert_eq!(
        MinPlus::mul(&MinPlus::op(&x, &y), &z),
        MinPlus::op(&MinPlus::mul(&x, &z), &MinPlus::mul(&y, &z))
    );
}

#[test]
fn pair_combines_componentwise() {
    let a = (Sum(1), Prod(2));
    let b = (Sum(3), Prod(4));
    assert_eq!(<(Sum, Prod)>::op(&a, &b), (Sum(4), Prod(8)));
    assert_eq!(<(Sum, Prod)>::zero(), (Sum(0), Prod(1)));
}

#[test]
fn pair_of_semirings_multiplies_componentwise() {
    let a = (MinPlus::Finite(1), MinPlus::Finite(2));
    let b = (MinPlus::Finite(3), MinPlus::Infinity);
    assert_eq!(
        <(MinPlus, MinPlus)>::mul(&a, &b),
        (MinPlus::Finite(4), MinPlus::Infinity)
    );
    assert_eq!(
        <(MinPlus, MinPlus)>::one(),
        (MinPlus::Finite(0), MinPlus::Finite(0))
    );
}

#[test]
fn option_absent_is_identity() {
    let x = Some(Sum(4));
    assert_eq!(<Option<Sum>>::op(&None, &x), x);
    assert_eq!(<Option<Sum>>::op(&x, &None), x);
    assert_eq!(<Option<Sum> as Monoid>::zero(), None);
}

#[test]
fn option_present_values_combine() {
    assert_eq!(
        <Option<Sum>>::op(&Some(Sum(4)), &Some(Sum(5))),
        Some(Sum(9))
    );
}

#[test]
fn power_of_sum_matches_sequential_fold() {
    for n in 1u64..=20 {
        let mut folded = Sum(3);
        for _ in 1..n {
            folded = Sum::op(&folded, &Sum(3));
        }
        assert_eq!(power_semigroup(&Sum(3), n), Ok(folded));
    }
}

#[test]
fn power_of_prod_is_exponentiation() {
    assert_eq!(power_semigroup(&Prod(2), 10), Ok(Prod(1024)));
    assert_eq!(power_semigroup(&Prod(2), 1), Ok(Prod(2)));
}

#[test]
fn power_rejects_zero_exponent() {
    assert_eq!(
        power_semigroup(&Sum(3), 0),
        Err(AlgebraError::InvalidExponent)
    );
}

#[test]
fn power_monoid_zero_gives_identity() {
    assert_eq!(power_monoid(&Sum(3), 0), Sum(0));
    assert_eq!(power_monoid(&Prod(3), 0), Prod(1));
}

#[test]
fn power_monoid_agrees_with_semigroup_power() {
    assert_eq!(power_monoid(&Sum(7), 6), Sum(42));
}

#[test]
fn fold_map_accumulates_images() {
    let v: Vec<u64> = vec![1, 2, 3, 4];
    assert_eq!(fold_map(&v, |t: &u64| Sum(*t)), Sum(10));
}

#[test]
fn fold_map_of_empty_input_is_identity() {
    let v: Vec<u64> = Vec::new();
    assert_eq!(fold_map(&v, |t: &u64| Prod(*t)), Prod(1));
}
