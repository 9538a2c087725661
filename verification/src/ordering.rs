//! Facts about filtering and counting sequences, used by the stable sorts,
//! and counts of distinct values.
use vstd::prelude::*;

verus! {

/// Filtering a sequence none of whose items qualify leaves nothing.
pub proof fn lemma_filter_none<A>(s: Seq<A>, f: spec_fn(A) -> bool)
    requires
        forall|t: int| 0 <= t < s.len() ==> !f(#[trigger] s[t]),
    ensures
        s.filter(f) == Seq::<A>::empty(),
    decreases s.len(),
{
    reveal(Seq::filter);
    if s.len() > 0 {
        lemma_filter_none(s.drop_last(), f);
    }
    assert(s.filter(f) =~= Seq::<A>::empty());
}

/// Filtering a single item keeps it exactly when it qualifies.
pub proof fn lemma_filter_single<A>(x: A, f: spec_fn(A) -> bool)
    ensures
        seq![x].filter(f) == (if f(x) {
            seq![x]
        } else {
            Seq::<A>::empty()
        }),
{
    reveal_with_fuel(Seq::filter, 2);
    assert(seq![x].drop_last() =~= Seq::<A>::empty());
    assert(seq![x].drop_last().filter(f) =~= Seq::<A>::empty());
    assert(Seq::<A>::empty().push(x) =~= seq![x]);
}

/// Filtering after a push: the filtered prefix, then the new item if it qualifies.
pub proof fn lemma_filter_push<A>(s: Seq<A>, x: A, f: spec_fn(A) -> bool)
    ensures
        s.push(x).filter(f) == s.filter(f) + (if f(x) {
            seq![x]
        } else {
            Seq::<A>::empty()
        }),
{
    reveal_with_fuel(Seq::filter, 1);
    assert(s.push(x).drop_last() =~= s);
    if f(x) {
        assert(s.filter(f).push(x) =~= s.filter(f) + seq![x]);
    } else {
        assert(s.filter(f) =~= s.filter(f) + Seq::<A>::empty());
    }
}

/// Inserting a qualifying `x` at `p`, where nothing after `p` qualifies,
/// puts `x` last among the qualifying items; a non-qualifying `x` changes
/// nothing.
pub proof fn lemma_filter_insert<A>(r: Seq<A>, p: int, x: A, f: spec_fn(A) -> bool)
    requires
        0 <= p <= r.len(),
        f(x) ==> forall|t: int| p <= t < r.len() ==> !f(#[trigger] r[t]),
    ensures
        r.insert(p, x).filter(f) == r.filter(f) + (if f(x) {
            seq![x]
        } else {
            Seq::<A>::empty()
        }),
{
    let a = r.take(p);
    let b = r.skip(p);
    assert(r =~= a + b);
    assert(r.insert(p, x) =~= (a + seq![x]) + b);
    Seq::filter_distributes_over_add(a + seq![x], b, f);
    Seq::filter_distributes_over_add(a, seq![x], f);
    Seq::filter_distributes_over_add(a, b, f);
    lemma_filter_single(x, f);
    if f(x) {
        assert forall|t: int| 0 <= t < b.len() implies !f(#[trigger] b[t]) by {
            assert(b[t] == r[p + t]);
        }
        lemma_filter_none(b, f);
        assert(a.filter(f) + seq![x] + Seq::<A>::empty() =~= a.filter(f) + seq![x]);
        assert(a.filter(f) + Seq::<A>::empty() =~= a.filter(f));
    } else {
        assert(a.filter(f) + Seq::<A>::empty() =~= a.filter(f));
    }
}

/// Inserting an item adds it to the multiset of items.
pub proof fn lemma_multiset_insert<A>(r: Seq<A>, p: int, x: A)
    requires
        0 <= p <= r.len(),
    ensures
        r.insert(p, x).to_multiset() == r.to_multiset().insert(x),
{
    broadcast use vstd::seq_lib::group_to_multiset_ensures;

    let q = r.insert(p, x);
    assert(q.remove(p) =~= r);
    assert(q.to_multiset().remove(x) == r.to_multiset());
    assert(q.contains(x)) by {
        assert(q[p] == x);
    }
    assert(q.to_multiset() =~= r.to_multiset().insert(x));
}

/// An item found at two positions is counted at least twice.
pub proof fn lemma_count_two<A>(s: Seq<A>, i: int, j: int)
    requires
        0 <= i < j < s.len(),
        s[i] == s[j],
    ensures
        s.to_multiset().count(s[i]) >= 2,
{
    broadcast use vstd::seq_lib::group_to_multiset_ensures;

    let e = s[i];
    assert(s.remove(j)[i] == e);
    assert(s.remove(j).contains(e));
    assert(s.remove(j).to_multiset() == s.to_multiset().remove(e));
    assert(s.remove(j).to_multiset().count(e) > 0);
    assert(s.to_multiset().count(e) > 0) by {
        assert(s.contains(e));
    }
    assert(s.to_multiset().remove(e).count(e) == s.to_multiset().count(e) - 1);
}

} // verus!

verus! {

/// Whether `x` is one of `v`.
pub fn contains_u64(v: &Vec<u64>, x: u64) -> (r: bool)
    ensures
        r == v@.contains(x),
{
    let mut i: usize = 0;
    while i < v.len()
        invariant
            i <= v@.len(),
            forall|j: int| 0 <= j < i ==> v@[j] != x,
        decreases v.len() - i,
    {
        if v[i] == x {
            return true;
        }
        i = i + 1;
    }
    false
}

/// The distinct values of `s`, in order of first appearance.
pub fn distinct_u64(s: &Vec<u64>) -> (r: Vec<u64>)
    ensures
        r@.no_duplicates(),
        r@.to_set() == s@.to_set(),
        r@.len() == s@.to_set().len(),
{
    let mut r: Vec<u64> = Vec::new();
    let mut i: usize = 0;
    proof {
        assert(s@.take(0) =~= Seq::<u64>::empty());
        assert(r@.to_set() =~= s@.take(0).to_set());
    }
    while i < s.len()
        invariant
            i <= s@.len(),
            r@.no_duplicates(),
            r@.to_set() == s@.take(i as int).to_set(),
        decreases s.len() - i,
    {
        let c = s[i];
        proof {
            assert(s@.take(i + 1) =~= s@.take(i as int).push(c));
            s@.take(i as int).lemma_push_to_set_commute(c);
        }
        if !contains_u64(&r, c) {
            let ghost before = r@;
            r.push(c);
            proof {
                before.lemma_push_to_set_commute(c);
                assert forall|x: int, y: int| 0 <= x < y < r@.len() implies r@[x] != r@[y] by {
                    if y == r@.len() - 1 {
                        assert(r@[x] == before[x]);
                    }
                }
            }
        } else {
            proof {
                assert(r@.to_set().contains(c));
                assert(r@.to_set().insert(c) =~= r@.to_set());
            }
        }
        i = i + 1;
    }
    proof {
        assert(s@.take(s@.len() as int) =~= s@);
        r@.unique_seq_to_set();
    }
    r
}

/// Number of distinct values that occur in both `a` and `b`.
pub fn shared_distinct_u64(a: &Vec<u64>, b: &Vec<u64>) -> (r: usize)
    ensures
        r == a@.to_set().intersect(b@.to_set()).len(),
{
    let da = distinct_u64(a);
    let mut kept: Vec<u64> = Vec::new();
    let mut i: usize = 0;
    proof {
        assert(da@.take(0) =~= Seq::<u64>::empty());
        assert(kept@.to_set() =~= da@.take(0).to_set().intersect(b@.to_set()));
    }
    while i < da.len()
        invariant
            i <= da@.len(),
            da@.no_duplicates(),
            da@.to_set() == a@.to_set(),
            kept@.no_duplicates(),
            kept@.to_set() == da@.take(i as int).to_set().intersect(b@.to_set()),
            forall|x: int| 0 <= x < kept@.len() ==> da@.take(i as int).contains(#[trigger] kept@[x]),
        decreases da.len() - i,
    {
        let c = da[i];
        proof {
            assert(da@.take(i + 1) =~= da@.take(i as int).push(c));
            da@.take(i as int).lemma_push_to_set_commute(c);
        }
        if contains_u64(b, c) {
            let ghost before = kept@;
            kept.push(c);
            proof {
                before.lemma_push_to_set_commute(c);
                assert(b@.to_set().contains(c));
                assert(kept@.to_set() =~= da@.take(i + 1).to_set().intersect(b@.to_set()));
                assert forall|x: int, y: int| 0 <= x < y < kept@.len() implies kept@[x] != kept@[y] by {
                    if y == kept@.len() - 1 {
                        assert(da@.take(i as int).contains(before[x]));
                        let j = choose|j: int| 0 <= j < i && da@.take(i as int)[j] == before[x];
                        assert(da@[j] == da@[i as int] ==> j == i);
                    }
                }
                assert forall|x: int| 0 <= x < kept@.len() implies da@.take(i + 1).contains(
                    #[trigger] kept@[x],
                ) by {
                    if x < kept@.len() - 1 {
                        let j = choose|j: int| 0 <= j < i && da@.take(i as int)[j] == before[x];
                        assert(da@.take(i + 1)[j] == before[x]);
                    } else {
                        assert(da@.take(i + 1)[i as int] == c);
                    }
                }
            }
        } else {
            proof {
                assert(!b@.to_set().contains(c));
                assert(kept@.to_set() =~= da@.take(i + 1).to_set().intersect(b@.to_set()));
                assert forall|x: int| 0 <= x < kept@.len() implies da@.take(i + 1).contains(
                    #[trigger] kept@[x],
                ) by {
                    let j = choose|j: int| 0 <= j < i && da@.take(i as int)[j] == kept@[x];
                    assert(da@.take(i + 1)[j] == kept@[x]);
                }
            }
        }
        i = i + 1;
    }
    proof {
        assert(da@.take(da@.len() as int) =~= da@);
        kept@.unique_seq_to_set();
        assert(kept@.to_set() =~= a@.to_set().intersect(b@.to_set()));
    }
    kept.len()
}

} // verus!
