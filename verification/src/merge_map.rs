//! A key-to-value mapping is combinable when its values are: combining two
//! mappings takes the union of their keys, deep-combining the two values of
//! a key present on both sides and keeping the single value of a key
//! present on one side only. The empty mapping is the identity.
use crate::traits::{Monoid, Semigroup};
use vstd::prelude::*;

verus! {

/// A finite mapping from unsigned keys to combinable values. Its model is
/// the mathematical `Map` from keys to value models, so two mappings that
/// hold the same entries in a different order count as the same value.
pub struct MergeMap<T> {
    entries: Vec<(u64, T)>,
}

/// No key occurs twice in a sequence of entries.
spec fn keys_unique<T>(s: Seq<(u64, T)>) -> bool {
    forall|i: int, j: int| 0 <= i < j < s.len() ==> s[i].0 != s[j].0
}

/// The mapping that a sequence of entries stands for (on duplicate keys
/// the first occurrence wins; with unique keys there is no choice).
spec fn entries_model<T: DeepView>(s: Seq<(u64, T)>) -> Map<u64, T::V>
    decreases s.len(),
{
    if s.len() == 0 {
        Map::empty()
    } else {
        entries_model(s.drop_first()).insert(s[0].0, s[0].1.deep_view())
    }
}

/// The union-combine of two mapping models: the union of the key sets,
/// with the two values combined where a key is present on both sides.
pub open spec fn combine_models<T: Semigroup>(a: Map<u64, T::V>, b: Map<u64, T::V>) -> Map<
    u64,
    T::V,
> {
    Map::new(
        |k: u64| a.dom().contains(k) || b.dom().contains(k),
        |k: u64|
            if a.dom().contains(k) && b.dom().contains(k) {
                T::spec_op(a[k], b[k])
            } else if a.dom().contains(k) {
                a[k]
            } else {
                b[k]
            },
    )
}

impl<T: DeepView> DeepView for MergeMap<T> {
    type V = Map<u64, T::V>;

    closed spec fn deep_view(&self) -> Map<u64, T::V> {
        entries_model(self.entries@)
    }
}

impl<T> MergeMap<T> {
    #[verifier::type_invariant]
    spec fn inv(self) -> bool {
        keys_unique(self.entries@)
    }
}

proof fn lemma_keys_unique_drop_first<T>(s: Seq<(u64, T)>)
    requires
        s.len() > 0,
        keys_unique(s),
    ensures
        keys_unique(s.drop_first()),
{
    assert forall|i: int, j: int|
        0 <= i < j < s.drop_first().len() implies s.drop_first()[i].0 != s.drop_first()[j].0 by {
        assert(s[i + 1].0 != s[j + 1].0);
    }
}

/// A key is in the model's domain exactly when some entry holds it.
proof fn lemma_entries_model_dom<T: DeepView>(s: Seq<(u64, T)>)
    ensures
        forall|k: u64|
            entries_model(s).dom().contains(k) <==> (exists|i: int|
                0 <= i < s.len() && (#[trigger] s[i]).0 == k),
    decreases s.len(),
{
    if s.len() > 0 {
        lemma_entries_model_dom(s.drop_first());
        let rest = s.drop_first();
        assert forall|k: u64| entries_model(s).dom().contains(k) implies (exists|i: int|
            0 <= i < s.len() && (#[trigger] s[i]).0 == k) by {
            if k == s[0].0 {
                assert(0 <= 0 < s.len() && s[0].0 == k);
            } else {
                assert(entries_model(rest).dom().contains(k));
                let i0 = choose|i: int| 0 <= i < rest.len() && (#[trigger] rest[i]).0 == k;
                assert(s[i0 + 1] == rest[i0]);
                assert(s[i0 + 1].0 == k);
            }
        }
        assert forall|k: u64| (exists|i: int| 0 <= i < s.len() && (#[trigger] s[i]).0 == k)
            implies entries_model(s).dom().contains(k) by {
            let i0 = choose|i: int| 0 <= i < s.len() && (#[trigger] s[i]).0 == k;
            if i0 > 0 {
                assert(rest[i0 - 1] == s[i0]);
                assert(0 <= i0 - 1 < rest.len() && rest[i0 - 1].0 == k);
                assert(entries_model(rest).dom().contains(k));
            }
        }
    }
}

/// Inserting a fresh key on the right of a combine updates the combined
/// mapping at that key alone.
proof fn lemma_combine_insert<T: Semigroup>(a: Map<u64, T::V>, b: Map<u64, T::V>, k: u64, w: T::V)
    requires
        !b.dom().contains(k),
    ensures
        a.dom().contains(k) ==> combine_models::<T>(a, b.insert(k, w)) == combine_models::<T>(
            a,
            b,
        ).insert(k, T::spec_op(a[k], w)),
        !a.dom().contains(k) ==> combine_models::<T>(a, b.insert(k, w)) == combine_models::<T>(
            a,
            b,
        ).insert(k, w),
{
    if a.dom().contains(k) {
        assert(combine_models::<T>(a, b.insert(k, w)) =~= combine_models::<T>(a, b).insert(
            k,
            T::spec_op(a[k], w),
        ));
    } else {
        assert(combine_models::<T>(a, b.insert(k, w)) =~= combine_models::<T>(a, b).insert(k, w));
    }
}

/// With unique keys, the model maps each entry's key to that entry's
/// value model.
proof fn lemma_entries_model_at<T: DeepView>(s: Seq<(u64, T)>, i: int)
    requires
        keys_unique(s),
        0 <= i < s.len(),
    ensures
        entries_model(s).dom().contains(s[i].0),
        entries_model(s)[s[i].0] == s[i].1.deep_view(),
    decreases s.len(),
{
    if i > 0 {
        lemma_keys_unique_drop_first(s);
        lemma_entries_model_at(s.drop_first(), i - 1);
        assert(s.drop_first()[i - 1] == s[i]);
        assert(s[0].0 != s[i].0);
    }
}

/// Replacing the value of one entry updates the model at that key.
proof fn lemma_entries_model_update<T: DeepView>(s: Seq<(u64, T)>, i: int, w: T)
    requires
        keys_unique(s),
        0 <= i < s.len(),
    ensures
        entries_model(s.update(i, (s[i].0, w))) == entries_model(s).insert(
            s[i].0,
            w.deep_view(),
        ),
    decreases s.len(),
{
    let t = s.update(i, (s[i].0, w));
    if i == 0 {
        assert(t.drop_first() =~= s.drop_first());
        assert(entries_model(t) =~= entries_model(s).insert(s[0].0, w.deep_view()));
    } else {
        lemma_keys_unique_drop_first(s);
        assert(s.drop_first()[i - 1] == s[i]);
        lemma_entries_model_update(s.drop_first(), i - 1, w);
        assert(t.drop_first() =~= s.drop_first().update(i - 1, (s[i].0, w)));
        assert(s[0].0 != s[i].0);
        assert(entries_model(t) =~= entries_model(s).insert(s[i].0, w.deep_view()));
    }
}

/// Appending an entry with a fresh key inserts it into the model.
proof fn lemma_entries_model_push<T: DeepView>(s: Seq<(u64, T)>, k: u64, w: T)
    requires
        forall|i: int| 0 <= i < s.len() ==> s[i].0 != k,
    ensures
        entries_model(s.push((k, w))) == entries_model(s).insert(k, w.deep_view()),
    decreases s.len(),
{
    if s.len() == 0 {
        let e = (k, w);
        assert(s.push(e).drop_first() =~= Seq::<(u64, T)>::empty());
        assert(entries_model(Seq::<(u64, T)>::empty()) == Map::<u64, T::V>::empty());
        assert(s.push(e)[0] == e);
        assert(entries_model(s.push(e)) == entries_model(s.push(e).drop_first()).insert(
            s.push(e)[0].0,
            s.push(e)[0].1.deep_view(),
        ));
        assert(entries_model(s.push(e)) =~= entries_model(s).insert(k, w.deep_view()));
    } else {
        assert forall|i: int|
            0 <= i < s.drop_first().len() implies s.drop_first()[i].0 != k by {
            assert(s[i + 1].0 != k);
        }
        lemma_entries_model_push(s.drop_first(), k, w);
        let e = (k, w);
        assert(s.push(e).drop_first() =~= s.drop_first().push(e));
        assert(s[0].0 != k);
        assert(s.push(e)[0] == s[0]);
        assert(entries_model(s.push(e)) == entries_model(s.push(e).drop_first()).insert(
            s[0].0,
            s[0].1.deep_view(),
        ));
        assert(entries_model(s.drop_first().push(e)) == entries_model(s.drop_first()).insert(
            k,
            w.deep_view(),
        ));
        assert(entries_model(s) == entries_model(s.drop_first()).insert(
            s[0].0,
            s[0].1.deep_view(),
        ));
        assert(entries_model(s.push(e)) =~= entries_model(s).insert(k, w.deep_view()));
    }
}

/// Linear scan for a key.
fn find_key<T>(s: &Vec<(u64, T)>, k: u64) -> (r: Option<usize>)
    ensures
        match r {
            Some(i) => i < s@.len() && s@[i as int].0 == k,
            None => forall|t: int| 0 <= t < s@.len() ==> s@[t].0 != k,
        },
{
    let n = s.len();
    let mut i: usize = 0;
    while i < n
        invariant
            n == s@.len(),
            i <= n,
            forall|t: int| 0 <= t < i ==> s@[t].0 != k,
        decreases n - i,
    {
        if s[i].0 == k {
            return Some(i);
        }
        i += 1;
    }
    None
}

/// An entrywise copy with the same keys and the same model.
fn dup_entries<T: Semigroup>(s: &Vec<(u64, T)>) -> (out: Vec<(u64, T)>)
    requires
        keys_unique(s@),
    ensures
        out@.len() == s@.len(),
        forall|i: int| 0 <= i < s@.len() ==> out@[i].0 == s@[i].0,
        entries_model(out@) == entries_model(s@),
{
    let n = s.len();
    let mut out: Vec<(u64, T)> = Vec::new();
    let mut j: usize = 0;
    while j < n
        invariant
            n == s@.len(),
            keys_unique(s@),
            j <= n,
            out@.len() == j,
            forall|i: int| 0 <= i < j ==> out@[i].0 == s@[i].0,
            entries_model(out@) == entries_model(s@.take(j as int)),
        decreases n - j,
    {
        let k = s[j].0;
        let v = T::dup(&s[j].1);
        proof {
            assert forall|i: int| 0 <= i < out@.len() implies out@[i].0 != k by {
                assert(s@[i].0 != s@[j as int].0);
            }
            assert forall|i: int|
                0 <= i < s@.take(j as int).len() implies s@.take(j as int)[i].0 != k by {
                assert(s@[i].0 != s@[j as int].0);
            }
            lemma_entries_model_push(out@, k, v);
            lemma_entries_model_push(s@.take(j as int), k, s@[j as int].1);
            assert(s@.take(j as int + 1) =~= s@.take(j as int).push(s@[j as int]));
        }
        out.push((k, v));
        j += 1;
    }
    proof {
        assert(s@.take(n as int) =~= s@);
    }
    out
}

/// Combining two mappings takes the union of the keys, combining the two
/// values of a key present on both sides.
impl<T: Semigroup> Semigroup for MergeMap<T> {
    open spec fn spec_op(x: Self::V, y: Self::V) -> Self::V {
        combine_models::<T>(x, y)
    }

    proof fn lemma_op_assoc(x: Self::V, y: Self::V, z: Self::V) {
        let l = combine_models::<T>(combine_models::<T>(x, y), z);
        let r = combine_models::<T>(x, combine_models::<T>(y, z));
        assert forall|k: u64| #[trigger] l.dom().contains(k) implies l[k] == r[k] by {
            if x.dom().contains(k) && y.dom().contains(k) && z.dom().contains(k) {
                T::lemma_op_assoc(x[k], y[k], z[k]);
            }
        }
        assert(l =~= r);
    }

    fn op(x: &Self, y: &Self) -> (r: Self) {
        proof {
            use_type_invariant(x);
            use_type_invariant(y);
        }
        let ghost vx = entries_model(x.entries@);
        let mut out = dup_entries(&x.entries);
        proof {
            assert(keys_unique(out@));
            assert(y.entries@.take(0) =~= Seq::<(u64, T)>::empty());
            assert(entries_model(out@) =~= combine_models::<T>(
                vx,
                entries_model(y.entries@.take(0)),
            ));
        }
        let yn = y.entries.len();
        let mut j: usize = 0;
        while j < yn
            invariant
                yn == y.entries@.len(),
                j <= yn,
                keys_unique(y.entries@),
                keys_unique(out@),
                entries_model(out@) == combine_models::<T>(
                    vx,
                    entries_model(y.entries@.take(j as int)),
                ),
            decreases yn - j,
        {
            let k = y.entries[j].0;
            let ghost out0 = out@;
            let ghost vyj = entries_model(y.entries@.take(j as int));
            proof {
                lemma_entries_model_dom(out0);
                lemma_entries_model_dom(y.entries@.take(j as int));
                assert forall|t: int|
                    0 <= t < y.entries@.take(j as int).len() implies y.entries@.take(
                    j as int,
                )[t].0 != k by {
                    assert(y.entries@[t].0 != y.entries@[j as int].0);
                }
                assert(!vyj.dom().contains(k));
                assert(y.entries@.take(j as int + 1) =~= y.entries@.take(j as int).push(
                    y.entries@[j as int],
                ));
                assert(y.entries@[j as int] == (k, y.entries@[j as int].1));
                lemma_entries_model_push(y.entries@.take(j as int), k, y.entries@[j as int].1);
            }
            let ghost yv = y.entries@[j as int].1.deep_view();
            proof {
                assert(entries_model(y.entries@.take(j as int + 1)) == vyj.insert(k, yv));
                lemma_combine_insert::<T>(vx, vyj, k, yv);
            }
            match find_key(&out, k) {
                Some(i) => {
                    proof {
                        lemma_entries_model_at(out0, i as int);
                    }
                    let nv = T::op(&out[i].1, &y.entries[j].1);
                    proof {
                        lemma_entries_model_update(out0, i as int, nv);
                    }
                    out[i] = (k, nv);
                    proof {
                        assert forall|a: int, b: int|
                            0 <= a < b < out@.len() implies out@[a].0 != out@[b].0 by {
                            assert(out@[a].0 == out0[a].0 && out@[b].0 == out0[b].0);
                        }
                        assert(out@ == out0.update(i as int, (k, nv)));
                        assert(entries_model(out@) == entries_model(out0).insert(
                            k,
                            nv.deep_view(),
                        ));
                        assert(entries_model(out0).dom().contains(k));
                        assert(vx.dom().contains(k));
                        assert(entries_model(out0)[k] == vx[k]);
                        assert(nv.deep_view() == T::spec_op(vx[k], yv));
                        assert(entries_model(out@) == combine_models::<T>(
                            vx,
                            entries_model(y.entries@.take(j as int + 1)),
                        ));
                    }
                },
                None => {
                    let nv = T::dup(&y.entries[j].1);
                    proof {
                        lemma_entries_model_push(out0, k, nv);
                    }
                    out.push((k, nv));
                    proof {
                        assert forall|a: int, b: int|
                            0 <= a < b < out@.len() implies out@[a].0 != out@[b].0 by {
                            if b < out0.len() {
                                assert(out0[a].0 != out0[b].0);
                            } else {
                                assert(out@[a].0 == out0[a].0 && out@[b].0 == k);
                            }
                        }
                        assert(entries_model(out@) == entries_model(out0).insert(
                            k,
                            nv.deep_view(),
                        ));
                        assert(!entries_model(out0).dom().contains(k));
                        assert(!vx.dom().contains(k));
                        assert(nv.deep_view() == yv);
                        assert(entries_model(out@) == combine_models::<T>(
                            vx,
                            entries_model(y.entries@.take(j as int + 1)),
                        ));
                    }
                },
            }
            j += 1;
        }
        proof {
            assert(y.entries@.take(yn as int) =~= y.entries@);
        }
        MergeMap { entries: out }
    }

    fn dup(x: &Self) -> (r: Self) {
        proof {
            use_type_invariant(x);
        }
        let out = dup_entries(&x.entries);
        proof {
            assert(keys_unique(out@));
        }
        MergeMap { entries: out }
    }
}

/// The empty mapping is the identity: combining it with any mapping
/// returns that mapping's model unchanged.
impl<T: Semigroup> Monoid for MergeMap<T> {
    open spec fn spec_zero() -> Self::V {
        Map::empty()
    }

    proof fn lemma_zero_identity(x: Self::V) {
        assert(combine_models::<T>(Map::empty(), x) =~= x);
        assert(combine_models::<T>(x, Map::empty()) =~= x);
    }

    fn zero() -> (r: Self) {
        let entries: Vec<(u64, T)> = Vec::new();
        MergeMap { entries }
    }
}

impl<T: Semigroup> MergeMap<T> {
    /// The mapping that holds exactly one key.
    pub fn singleton(k: u64, v: T) -> (r: Self)
        ensures
            r.deep_view() == Map::<u64, T::V>::empty().insert(k, v.deep_view()),
    {
        let mut entries: Vec<(u64, T)> = Vec::new();
        entries.push((k, v));
        proof {
            let s = entries@;
            assert(s.drop_first() =~= Seq::<(u64, T)>::empty());
            assert(entries_model(Seq::<(u64, T)>::empty()) == Map::<u64, T::V>::empty());
            assert(s[0] == (k, v));
            assert(entries_model(s) == entries_model(s.drop_first()).insert(
                s[0].0,
                s[0].1.deep_view(),
            ));
        }
        MergeMap { entries }
    }

    /// Look a key up, per the mapping's model.
    pub fn get(&self, k: u64) -> (r: Option<&T>)
        ensures
            match r {
                Some(v) => self.deep_view().dom().contains(k) && v.deep_view()
                    == self.deep_view()[k],
                None => !self.deep_view().dom().contains(k),
            },
    {
        proof {
            use_type_invariant(self);
        }
        match find_key(&self.entries, k) {
            Some(i) => {
                proof {
                    lemma_entries_model_at(self.entries@, i as int);
                }
                Some(&self.entries[i].1)
            },
            None => {
                proof {
                    lemma_entries_model_dom(self.entries@);
                }
                None
            },
        }
    }
}

} // verus!
