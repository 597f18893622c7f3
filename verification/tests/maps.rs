use combinable::instances::Sum;
use combinable::merge_map::MergeMap;
use combinable::traits::{power_monoid, Monoid, Semigroup};

#[test]
fn map_union_keeps_single_sided_keys() {
    let m1 = MergeMap::singleton(1, Sum(5));
    let m2 = MergeMap::singleton(2, Sum(7));
    let u = MergeMap::op(&m1, &m2);
    assert_eq!(u.get(1), Some(&Sum(5)));
    assert_eq!(u.get(2), Some(&Sum(7)));
    assert_eq!(u.get(3), None);
}

#[test]
fn map_combines_values_of_shared_keys() {
    let m1 = MergeMap::singleton(1, Sum(5));
    let m2 = MergeMap::singleton(1, Sum(6));
    let u = MergeMap::op(&m1, &m2);
    assert_eq!(u.get(1), Some(&Sum(11)));
}

#[test]
fn map_empty_is_identity() {
    let m = MergeMap::op(
        &MergeMap::singleton(1, Sum(5)),
        &MergeMap::singleton(9, Sum(2)),
    );
    let z = MergeMap::<Sum>::zero();
    let left = MergeMap::op(&z, &m);
    let right = MergeMap::op(&m, &MergeMap::<Sum>::zero());
    for k in [1, 9, 4] {
        assert_eq!(left.get(k), m.get(k));
        assert_eq!(right.get(k), m.get(k));
    }
    assert_eq!(MergeMap::<Sum>::zero().get(1), None);
}

#[test]
fn map_combine_order_does_not_change_lookups() {
    let m1 = MergeMap::op(
        &MergeMap::singleton(1, Sum(5)),
        &MergeMap::singleton(2, Sum(7)),
    );
    let m2 = MergeMap::op(
        &MergeMap::singleton(2, Sum(10)),
        &MergeMap::singleton(3, Sum(1)),
    );
    let a = MergeMap::op(&m1, &m2);
    let b = MergeMap::op(&m2, &m1);
    for k in [1, 2, 3, 4] {
        assert_eq!(a.get(k), b.get(k));
    }
    assert_eq!(a.get(2), Some(&Sum(17)));
}

#[test]
fn nested_maps_combine_per_key() {
    let inner1 = MergeMap::singleton(2, Sum(3));
    let inner2 = MergeMap::singleton(2, Sum(4));
    let outer1 = MergeMap::singleton(1, inner1);
    let outer2 = MergeMap::singleton(1, inner2);
    let u = MergeMap::op(&outer1, &outer2);
    let inner = u.get(1).expect("key 1 must be present");
    assert_eq!(inner.get(2), Some(&Sum(7)));
}

#[test]
fn power_of_map_scales_values() {
    let m = MergeMap::singleton(1, Sum(2));
    let p = power_monoid(&m, 3);
    assert_eq!(p.get(1), Some(&Sum(6)));
}

#[test]
fn map_of_pairs_combines_each_side() {
    let m1 = MergeMap::singleton(1, (Sum(2), Sum(30)));
    let m2 = MergeMap::singleton(1, (Sum(5), Sum(70)));
    let u = MergeMap::op(&m1, &m2);
    assert_eq!(u.get(1), Some(&(Sum(7), Sum(100))));
}

#[test]
fn option_of_pair_combines_payloads() {
    let a = Some((Sum(1), Sum(2)));
    let b = Some((Sum(10), Sum(20)));
    assert_eq!(<Option<(Sum, Sum)>>::op(&a, &b), Some((Sum(11), Sum(22))));
    assert_eq!(<Option<(Sum, Sum)>>::op(&None, &b), b);
}
