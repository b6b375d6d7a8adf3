//! Enumerating the keys of ordered maps, and the increasing sequence of a set of ids.

use std::collections::BTreeMap;
use vstd::laws_cmp::obeys_cmp;
use vstd::prelude::*;
use vstd::std_specs::cmp::OrdSpec;
use vstd::std_specs::iter::IteratorSpec;

use crate::geometry::BeadKey;

verus! {

pub open spec fn strictly_increasing(s: Seq<u64>) -> bool {
    forall|i: int, j: int| 0 <= i < j < s.len() ==> s[i] < s[j]
}

/// `s` lists the elements of `set` in increasing order.
pub open spec fn enumerates(s: Seq<u64>, set: Set<u64>) -> bool {
    strictly_increasing(s) && s.to_set() == set
}

/// The elements of a finite set of ids in increasing order.
pub open spec fn sorted_ids_of(set: Set<u64>) -> Seq<u64> {
    choose|s: Seq<u64>| enumerates(s, set)
}

/// Two increasing enumerations of the same set are equal.
pub proof fn lemma_enumeration_unique(a: Seq<u64>, b: Seq<u64>, set: Set<u64>)
    requires
        enumerates(a, set),
        enumerates(b, set),
    ensures
        a == b,
    decreases a.len(),
{
    if a.len() > 0 && b.len() > 0 {
        // both start with the least element of the set
        assert(set.contains(a[0]));
        assert(a.to_set().contains(a[0]));
        assert(b.to_set().contains(a[0]));
        let j = choose|j: int| 0 <= j < b.len() && b[j] == a[0];
        assert(b.to_set().contains(b[0]));
        assert(a.to_set().contains(b[0]));
        let i = choose|i: int| 0 <= i < a.len() && a[i] == b[0];
        assert(a[0] <= a[i]);
        assert(b[0] <= b[j]);
        assert(a[0] == b[0]);
        let rest = set.remove(a[0]);
        let ta = a.drop_first();
        let tb = b.drop_first();
        assert forall|x: u64| ta.to_set().contains(x) <==> rest.contains(x) by {
            if ta.to_set().contains(x) {
                let k = choose|k: int| 0 <= k < ta.len() && ta[k] == x;
                assert(a[k + 1] == x);
                assert(a.to_set().contains(x));
            }
            if rest.contains(x) {
                assert(a.to_set().contains(x));
                let k = choose|k: int| 0 <= k < a.len() && a[k] == x;
                assert(k != 0);
                assert(ta[k - 1] == x);
            }
        }
        assert forall|x: u64| tb.to_set().contains(x) <==> rest.contains(x) by {
            if tb.to_set().contains(x) {
                let k = choose|k: int| 0 <= k < tb.len() && tb[k] == x;
                assert(b[k + 1] == x);
                assert(b.to_set().contains(x));
            }
            if rest.contains(x) {
                assert(b.to_set().contains(x));
                let k = choose|k: int| 0 <= k < b.len() && b[k] == x;
                assert(k != 0);
                assert(tb[k - 1] == x);
            }
        }
        assert(ta.to_set() =~= rest);
        assert(tb.to_set() =~= rest);
        lemma_enumeration_unique(ta, tb, rest);
        assert(a =~= seq![a[0]] + ta);
        assert(b =~= seq![b[0]] + tb);
    } else if a.len() > 0 {
        assert(a.to_set().contains(a[0]));
        assert(!b.to_set().contains(a[0]));
    } else if b.len() > 0 {
        assert(b.to_set().contains(b[0]));
        assert(!a.to_set().contains(b[0]));
    }
}

/// Any increasing enumeration of a set is the one `sorted_ids_of` names.
pub proof fn lemma_sorted_ids_of(s: Seq<u64>, set: Set<u64>)
    requires
        enumerates(s, set),
    ensures
        sorted_ids_of(set) == s,
{
    let c = sorted_ids_of(set);
    assert(enumerates(c, set));
    lemma_enumeration_unique(c, s, set);
}

/// A set of ids that holds `x` has a largest element.
proof fn lemma_largest_id_exists(set: Set<u64>, x: u64)
    requires
        set.contains(x),
    ensures
        exists|m: u64| set.contains(m) && forall|y: u64| #[trigger] set.contains(y) ==> y <= m,
    decreases u64::MAX - x,
{
    if !(forall|y: u64| #[trigger] set.contains(y) ==> y <= x) {
        let y = choose|y: u64| set.contains(y) && !(y <= x);
        lemma_largest_id_exists(set, y);
    }
}

/// The ids of a finite set in increasing order enumerate it, each once.
pub proof fn lemma_sorted_ids_exist(set: Set<u64>)
    requires
        set.finite(),
    ensures
        enumerates(sorted_ids_of(set), set),
        sorted_ids_of(set).to_set() == set,
        sorted_ids_of(set).no_duplicates(),
    decreases set.len(),
{
    if set.len() == 0 {
        assert(set =~= Set::<u64>::empty());
        let e = Seq::<u64>::empty();
        assert(e.to_set() =~= set);
        assert(enumerates(e, set));
    } else {
        let x = set.choose();
        lemma_largest_id_exists(set, x);
        let m = choose|m: u64| set.contains(m) && forall|y: u64| #[trigger] set.contains(y) ==> y <= m;
        let rest = set.remove(m);
        lemma_sorted_ids_exist(rest);
        let e = sorted_ids_of(rest);
        let t = e.push(m);
        assert forall|i: int, j: int| 0 <= i < j < t.len() implies t[i] < t[j] by {
            if j == t.len() - 1 {
                assert(e.to_set().contains(e[i]));
                assert(rest.contains(e[i]));
            }
        }
        lemma_push_to_set(e, m);
        assert(t.to_set() =~= set);
        assert(enumerates(t, set));
    }
    lemma_increasing_no_duplicates(sorted_ids_of(set));
}

/// An increasing sequence has no repeated element.
pub proof fn lemma_increasing_no_duplicates(s: Seq<u64>)
    requires
        strictly_increasing(s),
    ensures
        s.no_duplicates(),
{
}

/// The set of a longer prefix gains exactly the next element.
pub proof fn lemma_take_to_set<T>(s: Seq<T>, i: int)
    requires
        0 <= i < s.len(),
    ensures
        s.take(i + 1).to_set() == s.take(i).to_set().insert(s[i]),
{
    let t = s.take(i + 1);
    let u = s.take(i);
    assert forall|x: T| t.to_set().contains(x) <==> u.to_set().insert(s[i]).contains(x) by {
        if t.to_set().contains(x) {
            let j = choose|j: int| 0 <= j < t.len() && #[trigger] t[j] == x;
            if j < i {
                assert(u[j] == x);
            }
        }
        if u.to_set().contains(x) {
            let j = choose|j: int| 0 <= j < u.len() && #[trigger] u[j] == x;
            assert(t[j] == x);
        }
        if x == s[i] {
            assert(t[i] == x);
        }
    }
    assert(s.take(i + 1).to_set() =~= s.take(i).to_set().insert(s[i]));
}

/// Counting the elements of a duplicate-free prefix that satisfy a predicate: one more element
/// adds one exactly when it satisfies it.
pub proof fn lemma_take_filter_step<T>(keys: Seq<T>, j: int, f: spec_fn(T) -> bool)
    requires
        0 <= j < keys.len(),
        keys.no_duplicates(),
    ensures
        keys.take(j + 1).to_set().filter(f).len() == keys.take(j).to_set().filter(f).len() + if f(
            keys[j],
        ) {
            1nat
        } else {
            0nat
        },
{
    lemma_take_to_set(keys, j);
    let before = keys.take(j).to_set();
    assert(!before.contains(keys[j])) by {
        if before.contains(keys[j]) {
            let m = choose|m: int| 0 <= m < keys.take(j).len() && keys.take(j)[m] == keys[j];
            assert(keys[m] == keys[j]);
        }
    }
    assert(before.finite()) by {
        vstd::seq_lib::seq_to_set_is_finite(keys.take(j));
    }
    if f(keys[j]) {
        assert(keys.take(j + 1).to_set().filter(f) =~= before.filter(f).insert(keys[j]));
    } else {
        assert(keys.take(j + 1).to_set().filter(f) =~= before.filter(f));
    }
}

/// Pushing an element adds it to the set of the sequence.
pub proof fn lemma_push_to_set<T>(s: Seq<T>, x: T)
    ensures
        s.push(x).to_set() == s.to_set().insert(x),
{
    let t = s.push(x);
    assert forall|y: T| t.to_set().contains(y) <==> s.to_set().insert(x).contains(y) by {
        if t.to_set().contains(y) {
            let j = choose|j: int| 0 <= j < t.len() && #[trigger] t[j] == y;
            if j < s.len() {
                assert(s[j] == y);
            }
        }
        if s.to_set().contains(y) {
            let j = choose|j: int| 0 <= j < s.len() && #[trigger] s[j] == y;
            assert(t[j] == y);
        }
        if y == x {
            assert(t[s.len() as int] == y);
        }
    }
    assert(t.to_set() =~= s.to_set().insert(x));
}

/// Bead keys compare as the tuples they are, so ordered collections of them behave as sets
/// and maps.
pub open spec fn keys_ordered() -> bool {
    obeys_cmp::<BeadKey>()
}

pub proof fn lemma_keys_ordered()
    ensures
        keys_ordered(),
{
    broadcast use vstd::laws_cmp::group_laws_cmp;

}

/// The ids of a map in increasing order.
pub fn sorted_ids<V>(m: &BTreeMap<u64, V>) -> (r: Vec<u64>)
    ensures
        enumerates(r@, m@.dom()),
        r@ == sorted_ids_of(m@.dom()),
        r@.len() == m@.dom().len(),
{
    let mut r: Vec<u64> = Vec::new();
    broadcast use vstd::std_specs::btree::group_btree_axioms, vstd::laws_cmp::group_laws_cmp;

    let keys = m.keys();
    proof {
        vstd::std_specs::btree::axiom_spec_keys_iter(m);
    }
    for k in it: keys
        invariant
            r@ == it.seq().take(it.index()).unref(),
            it.seq() == vstd::std_specs::btree::spec_keys_iter(m).remaining(),
    {
        assert(*k == *it.seq()[it.index()]);
        r.push(*k);
        assert(r@ =~= it.seq().take(it.index() + 1).unref());
    }
    let ghost s = vstd::std_specs::btree::spec_keys_iter(m).remaining();
    assert(r@ =~= s.unref());
    proof {
        assert(obeys_cmp::<&u64>());
        assert(vstd::std_specs::btree::increasing_seq(s));
        vstd::std_specs::btree::axiom_increasing_seq_meaning::<&u64>(s);
        assert forall|i: int, j: int| 0 <= i < j < r@.len() implies r@[i] < r@[j] by {
            assert(OrdSpec::cmp_spec(&s[i], &s[j]) is Less);
        }
        lemma_increasing_no_duplicates(r@);
        r@.unique_seq_to_set();
        lemma_sorted_ids_of(r@, m@.dom());
    }
    r
}

/// The keys of a bead map, each once.
pub fn bead_keys<V>(m: &BTreeMap<BeadKey, V>) -> (r: Vec<BeadKey>)
    ensures
        r@.to_set() == m@.dom(),
        r@.no_duplicates(),
        r@.len() == m@.dom().len(),
{
    let mut r: Vec<BeadKey> = Vec::new();
    broadcast use vstd::std_specs::btree::group_btree_axioms, vstd::laws_cmp::group_laws_cmp;

    let keys = m.keys();
    proof {
        vstd::std_specs::btree::axiom_spec_keys_iter(m);
        assert(obeys_cmp::<BeadKey>());
    }
    for k in it: keys
        invariant
            r@ == it.seq().take(it.index()).unref(),
            it.seq() == vstd::std_specs::btree::spec_keys_iter(m).remaining(),
    {
        assert(*k == *it.seq()[it.index()]);
        r.push(*k);
        assert(r@ =~= it.seq().take(it.index() + 1).unref());
    }
    let ghost s = vstd::std_specs::btree::spec_keys_iter(m).remaining();
    assert(r@ =~= s.unref());
    proof {
        assert(s.no_duplicates());
        assert forall|i: int, j: int| 0 <= i < j < r@.len() implies r@[i] != r@[j] by {
            assert(s[i] != s[j]);
        }
        r@.unique_seq_to_set();
    }
    r
}

} // verus!
