//! The listing of a group's children after moving an object right after a sibling.

use vstd::prelude::*;

use crate::hierarchy::reparent_result;
use crate::invariants::{group_sound, piece_sound, shape_sound, sound};
use crate::model::{DomainError, ObjectId, ObjectRef};
use crate::ordered::{lemma_sorted_ids_of, sorted_ids_of};
use crate::project::Project;
use crate::siblings::{
    child_entries, children_of, entry_le, first_index, first_missing, group_entries, insert_entry,
    last_index, orders_assigned, piece_entries, reorder_result, shape_entries, sort_entries,
    without, ChildEntry,
};
use crate::validate::validation_error;

verus! {

broadcast use vstd::std_specs::btree::group_btree_axioms, vstd::laws_cmp::group_laws_cmp;

/// The entries are in listing order.
pub open spec fn entries_sorted(s: Seq<ChildEntry>) -> bool {
    forall|i: int, j: int| 0 <= i < j < s.len() ==> entry_le(#[trigger] s[i], #[trigger] s[j])
}

/// Inserting an entry puts it at some position and keeps the others in order.
proof fn lemma_insert_entry_position(s: Seq<ChildEntry>, e: ChildEntry) -> (j: int)
    ensures
        0 <= j <= s.len(),
        insert_entry(s, e) == s.insert(j, e),
    decreases s.len(),
{
    if s.len() == 0 {
        assert(seq![e] =~= s.insert(0, e));
        0
    } else if entry_le(s.last(), e) {
        assert(s.push(e) =~= s.insert(s.len() as int, e));
        s.len() as int
    } else {
        let j = lemma_insert_entry_position(s.drop_last(), e);
        assert(s.drop_last().insert(j, e).push(s.last()) =~= s.insert(j, e));
        j
    }
}

/// Inserting into a sorted listing keeps it sorted.
proof fn lemma_insert_entry_sorted(s: Seq<ChildEntry>, e: ChildEntry)
    requires
        entries_sorted(s),
    ensures
        entries_sorted(insert_entry(s, e)),
    decreases s.len(),
{
    if s.len() == 0 {
    } else if entry_le(s.last(), e) {
        let t = s.push(e);
        assert forall|i: int, j: int| 0 <= i < j < t.len() implies entry_le(#[trigger] t[i], #[trigger] t[j]) by {
            if j == s.len() {
                if i < s.len() - 1 {
                    assert(entry_le(s[i], s[s.len() - 1]));
                }
            } else {
                assert(entry_le(s[i], s[j]));
            }
        }
    } else {
        let d = s.drop_last();
        assert(entries_sorted(d)) by {
            assert forall|i: int, j: int| 0 <= i < j < d.len() implies entry_le(#[trigger] d[i], #[trigger] d[j]) by {
                assert(entry_le(s[i], s[j]));
            }
        }
        lemma_insert_entry_sorted(d, e);
        let inner = insert_entry(d, e);
        let k = lemma_insert_entry_position(d, e);
        let t = inner.push(s.last());
        assert forall|i: int, j: int| 0 <= i < j < t.len() implies entry_le(#[trigger] t[i], #[trigger] t[j]) by {
            if j == inner.len() {
                let x = inner[i];
                if i < k {
                    assert(x == d[i]);
                    assert(entry_le(s[i], s[s.len() - 1]));
                } else if i == k {
                    assert(x == e);
                } else {
                    assert(x == d[i - 1]);
                    assert(entry_le(s[i - 1], s[s.len() - 1]));
                }
            } else {
                assert(entry_le(inner[i], inner[j]));
            }
        }
    }
}

/// Sorting keeps the entries, each as often, and puts them in listing order.
pub proof fn lemma_sort_entries(s: Seq<ChildEntry>)
    ensures
        sort_entries(s).len() == s.len(),
        forall|x: ChildEntry| sort_entries(s).contains(x) <==> s.contains(x),
        s.no_duplicates() ==> sort_entries(s).no_duplicates(),
        entries_sorted(sort_entries(s)),
    decreases s.len(),
{
    if s.len() > 0 {
        let d = s.drop_last();
        let e = s.last();
        lemma_sort_entries(d);
        let sd = sort_entries(d);
        lemma_insert_entry_sorted(sd, e);
        let j = lemma_insert_entry_position(sd, e);
        let t = sd.insert(j, e);
        assert forall|x: ChildEntry| t.contains(x) <==> s.contains(x) by {
            if t.contains(x) {
                let m = choose|m: int| 0 <= m < t.len() && t[m] == x;
                if m < j {
                    assert(sd[m] == x);
                    assert(d.contains(x));
                    let q = choose|q: int| 0 <= q < d.len() && d[q] == x;
                    assert(s[q] == x);
                } else if m == j {
                    assert(s[s.len() - 1] == x);
                } else {
                    assert(sd[m - 1] == x);
                    assert(d.contains(x));
                    let q = choose|q: int| 0 <= q < d.len() && d[q] == x;
                    assert(s[q] == x);
                }
            }
            if s.contains(x) {
                let q = choose|q: int| 0 <= q < s.len() && s[q] == x;
                if q == s.len() - 1 {
                    assert(t[j] == x);
                } else {
                    assert(d[q] == x);
                    assert(d.contains(x));
                    assert(sd.contains(x));
                    let m = choose|m: int| 0 <= m < sd.len() && sd[m] == x;
                    if m < j {
                        assert(t[m] == x);
                    } else {
                        assert(t[m + 1] == x);
                    }
                }
            }
        }
        if s.no_duplicates() {
            assert(d.no_duplicates()) by {
                assert forall|i: int, k: int| 0 <= i < k < d.len() implies d[i] != d[k] by {
                    assert(s[i] != s[k]);
                }
            }
            assert(!d.contains(e)) by {
                if d.contains(e) {
                    let q = choose|q: int| 0 <= q < d.len() && d[q] == e;
                    assert(s[q] == s[s.len() - 1]);
                }
            }
            assert(!sd.contains(e));
            assert forall|i: int, k: int| 0 <= i < k < t.len() implies t[i] != t[k] by {
                if i == j {
                    if k > j {
                        assert(t[k] == sd[k - 1]);
                    }
                } else if k == j {
                    assert(t[i] == sd[i]);
                } else {
                    let ii = if i < j { i } else { i - 1 };
                    let kk = if k < j { k } else { k - 1 };
                    assert(t[i] == sd[ii]);
                    assert(t[k] == sd[kk]);
                    assert(ii < kk);
                }
            }
        }
    }
}

/// `c` names a stored object whose parent is `parent`.
pub open spec fn is_child(p: Project, parent: ObjectId, c: ObjectRef) -> bool {
    match c {
        ObjectRef::Group(id) => p.groups@.contains_key(id) && p.groups@[id].parent_group_id == Some(
            parent,
        ),
        ObjectRef::Shape(id) => p.shapes@.contains_key(id) && p.shapes@[id].parent_group_id
            == parent,
        ObjectRef::Piece(id) => p.pieces@.contains_key(id) && p.pieces@[id].parent_group_id
            == parent,
    }
}

/// The listing entry of a stored object.
pub open spec fn entry_of(p: Project, c: ObjectRef) -> ChildEntry {
    match c {
        ObjectRef::Group(id) => (p.groups@[id].sibling_order, id, c),
        ObjectRef::Shape(id) => (p.shapes@[id].sibling_order, id, c),
        ObjectRef::Piece(id) => (p.pieces@[id].sibling_order, id, c),
    }
}

/// The group entries are those of the children among the keys, each once.
proof fn lemma_group_entries(p: Project, parent: ObjectId, keys: Seq<ObjectId>)
    requires
        sound(p),
        keys.no_duplicates(),
        forall|m: int| 0 <= m < keys.len() ==> p.groups@.contains_key(#[trigger] keys[m]),
    ensures
        group_entries(p, parent, keys).no_duplicates(),
        forall|e: ChildEntry| #[trigger]
            group_entries(p, parent, keys).contains(e) <==> exists|m: int|
                0 <= m < keys.len() && is_child(p, parent, ObjectRef::Group(#[trigger] keys[m]))
                    && e == entry_of(p, ObjectRef::Group(keys[m])),
    decreases keys.len(),
{
    if keys.len() > 0 {
        let d = keys.drop_last();
        let k = keys.last();
        assert(d.no_duplicates()) by {
            assert forall|i: int, j: int| 0 <= i < j < d.len() implies d[i] != d[j] by {
                assert(keys[i] != keys[j]);
            }
        }
        assert forall|m: int| 0 <= m < d.len() implies p.groups@.contains_key(#[trigger] d[m]) by {
            assert(d[m] == keys[m]);
        }
        lemma_group_entries(p, parent, d);
        assert(p.groups@.contains_key(keys[keys.len() - 1]));
        assert(group_sound(p, k));
        let rest = group_entries(p, parent, d);
        let e = entry_of(p, ObjectRef::Group(k));
        assert(!rest.contains(e)) by {
            if rest.contains(e) {
                let m = choose|m: int|
                    0 <= m < d.len() && is_child(p, parent, ObjectRef::Group(#[trigger] d[m])) && e
                        == entry_of(p, ObjectRef::Group(d[m]));
                assert(keys[m] == d[m]);
            }
        }
        let t = group_entries(p, parent, keys);
        if is_child(p, parent, ObjectRef::Group(k)) {
            assert(t == rest.push(e));
        } else {
            assert(t == rest);
        }
        assert forall|x: ChildEntry| #[trigger] t.contains(x) implies exists|m: int|
            0 <= m < keys.len() && is_child(p, parent, ObjectRef::Group(#[trigger] keys[m])) && x
                == entry_of(p, ObjectRef::Group(keys[m])) by {
            if rest.contains(x) {
                let m = choose|m: int|
                    0 <= m < d.len() && is_child(p, parent, ObjectRef::Group(#[trigger] d[m])) && x
                        == entry_of(p, ObjectRef::Group(d[m]));
                assert(keys[m] == d[m]);
            } else {
                let q = choose|q: int| 0 <= q < t.len() && t[q] == x;
                assert(q == t.len() - 1);
                assert(x == e);
                assert(keys[keys.len() - 1] == k);
            }
        }
        assert forall|x: ChildEntry|
            (exists|m: int|
                0 <= m < keys.len() && is_child(p, parent, ObjectRef::Group(#[trigger] keys[m])) && x
                    == entry_of(p, ObjectRef::Group(keys[m]))) implies #[trigger] t.contains(x) by {
            let m = choose|m: int|
                0 <= m < keys.len() && is_child(p, parent, ObjectRef::Group(#[trigger] keys[m])) && x
                    == entry_of(p, ObjectRef::Group(keys[m]));
            if m < keys.len() - 1 {
                assert(d[m] == keys[m]);
                assert(rest.contains(x));
                let q = choose|q: int| 0 <= q < rest.len() && rest[q] == x;
                assert(t[q] == x);
            } else {
                assert(keys[m] == k);
                assert(t[t.len() - 1] == x);
            }
        }
        if is_child(p, parent, ObjectRef::Group(k)) {
            assert forall|i: int, j: int| 0 <= i < j < t.len() implies t[i] != t[j] by {
                if j == t.len() - 1 {
                    assert(rest.contains(t[i]));
                }
            }
        }
    }
}

/// The shape entries are those of the children among the keys, each once.
proof fn lemma_shape_entries(p: Project, parent: ObjectId, keys: Seq<ObjectId>)
    requires
        sound(p),
        keys.no_duplicates(),
        forall|m: int| 0 <= m < keys.len() ==> p.shapes@.contains_key(#[trigger] keys[m]),
    ensures
        shape_entries(p, parent, keys).no_duplicates(),
        forall|e: ChildEntry| #[trigger]
            shape_entries(p, parent, keys).contains(e) <==> exists|m: int|
                0 <= m < keys.len() && is_child(p, parent, ObjectRef::Shape(#[trigger] keys[m]))
                    && e == entry_of(p, ObjectRef::Shape(keys[m])),
    decreases keys.len(),
{
    if keys.len() > 0 {
        let d = keys.drop_last();
        let k = keys.last();
        assert(d.no_duplicates()) by {
            assert forall|i: int, j: int| 0 <= i < j < d.len() implies d[i] != d[j] by {
                assert(keys[i] != keys[j]);
            }
        }
        assert forall|m: int| 0 <= m < d.len() implies p.shapes@.contains_key(#[trigger] d[m]) by {
            assert(d[m] == keys[m]);
        }
        lemma_shape_entries(p, parent, d);
        assert(p.shapes@.contains_key(keys[keys.len() - 1]));
        assert(shape_sound(p, k));
        let rest = shape_entries(p, parent, d);
        let e = entry_of(p, ObjectRef::Shape(k));
        assert(!rest.contains(e)) by {
            if rest.contains(e) {
                let m = choose|m: int|
                    0 <= m < d.len() && is_child(p, parent, ObjectRef::Shape(#[trigger] d[m])) && e
                        == entry_of(p, ObjectRef::Shape(d[m]));
                assert(keys[m] == d[m]);
            }
        }
        let t = shape_entries(p, parent, keys);
        if is_child(p, parent, ObjectRef::Shape(k)) {
            assert(t == rest.push(e));
        } else {
            assert(t == rest);
        }
        assert forall|x: ChildEntry| #[trigger] t.contains(x) implies exists|m: int|
            0 <= m < keys.len() && is_child(p, parent, ObjectRef::Shape(#[trigger] keys[m])) && x
                == entry_of(p, ObjectRef::Shape(keys[m])) by {
            if rest.contains(x) {
                let m = choose|m: int|
                    0 <= m < d.len() && is_child(p, parent, ObjectRef::Shape(#[trigger] d[m])) && x
                        == entry_of(p, ObjectRef::Shape(d[m]));
                assert(keys[m] == d[m]);
            } else {
                let q = choose|q: int| 0 <= q < t.len() && t[q] == x;
                assert(q == t.len() - 1);
                assert(x == e);
                assert(keys[keys.len() - 1] == k);
            }
        }
        assert forall|x: ChildEntry|
            (exists|m: int|
                0 <= m < keys.len() && is_child(p, parent, ObjectRef::Shape(#[trigger] keys[m])) && x
                    == entry_of(p, ObjectRef::Shape(keys[m]))) implies #[trigger] t.contains(x) by {
            let m = choose|m: int|
                0 <= m < keys.len() && is_child(p, parent, ObjectRef::Shape(#[trigger] keys[m])) && x
                    == entry_of(p, ObjectRef::Shape(keys[m]));
            if m < keys.len() - 1 {
                assert(d[m] == keys[m]);
                assert(rest.contains(x));
                let q = choose|q: int| 0 <= q < rest.len() && rest[q] == x;
                assert(t[q] == x);
            } else {
                assert(keys[m] == k);
                assert(t[t.len() - 1] == x);
            }
        }
        if is_child(p, parent, ObjectRef::Shape(k)) {
            assert forall|i: int, j: int| 0 <= i < j < t.len() implies t[i] != t[j] by {
                if j == t.len() - 1 {
                    assert(rest.contains(t[i]));
                }
            }
        }
    }
}

/// The piece entries are those of the children among the keys, each once.
proof fn lemma_piece_entries(p: Project, parent: ObjectId, keys: Seq<ObjectId>)
    requires
        sound(p),
        keys.no_duplicates(),
        forall|m: int| 0 <= m < keys.len() ==> p.pieces@.contains_key(#[trigger] keys[m]),
    ensures
        piece_entries(p, parent, keys).no_duplicates(),
        forall|e: ChildEntry| #[trigger]
            piece_entries(p, parent, keys).contains(e) <==> exists|m: int|
                0 <= m < keys.len() && is_child(p, parent, ObjectRef::Piece(#[trigger] keys[m]))
                    && e == entry_of(p, ObjectRef::Piece(keys[m])),
    decreases keys.len(),
{
    if keys.len() > 0 {
        let d = keys.drop_last();
        let k = keys.last();
        assert(d.no_duplicates()) by {
            assert forall|i: int, j: int| 0 <= i < j < d.len() implies d[i] != d[j] by {
                assert(keys[i] != keys[j]);
            }
        }
        assert forall|m: int| 0 <= m < d.len() implies p.pieces@.contains_key(#[trigger] d[m]) by {
            assert(d[m] == keys[m]);
        }
        lemma_piece_entries(p, parent, d);
        assert(p.pieces@.contains_key(keys[keys.len() - 1]));
        assert(piece_sound(p, k));
        let rest = piece_entries(p, parent, d);
        let e = entry_of(p, ObjectRef::Piece(k));
        assert(!rest.contains(e)) by {
            if rest.contains(e) {
                let m = choose|m: int|
                    0 <= m < d.len() && is_child(p, parent, ObjectRef::Piece(#[trigger] d[m])) && e
                        == entry_of(p, ObjectRef::Piece(d[m]));
                assert(keys[m] == d[m]);
            }
        }
        let t = piece_entries(p, parent, keys);
        if is_child(p, parent, ObjectRef::Piece(k)) {
            assert(t == rest.push(e));
        } else {
            assert(t == rest);
        }
        assert forall|x: ChildEntry| #[trigger] t.contains(x) implies exists|m: int|
            0 <= m < keys.len() && is_child(p, parent, ObjectRef::Piece(#[trigger] keys[m])) && x
                == entry_of(p, ObjectRef::Piece(keys[m])) by {
            if rest.contains(x) {
                let m = choose|m: int|
                    0 <= m < d.len() && is_child(p, parent, ObjectRef::Piece(#[trigger] d[m])) && x
                        == entry_of(p, ObjectRef::Piece(d[m]));
                assert(keys[m] == d[m]);
            } else {
                let q = choose|q: int| 0 <= q < t.len() && t[q] == x;
                assert(q == t.len() - 1);
                assert(x == e);
                assert(keys[keys.len() - 1] == k);
            }
        }
        assert forall|x: ChildEntry|
            (exists|m: int|
                0 <= m < keys.len() && is_child(p, parent, ObjectRef::Piece(#[trigger] keys[m])) && x
                    == entry_of(p, ObjectRef::Piece(keys[m]))) implies #[trigger] t.contains(x) by {
            let m = choose|m: int|
                0 <= m < keys.len() && is_child(p, parent, ObjectRef::Piece(#[trigger] keys[m])) && x
                    == entry_of(p, ObjectRef::Piece(keys[m]));
            if m < keys.len() - 1 {
                assert(d[m] == keys[m]);
                assert(rest.contains(x));
                let q = choose|q: int| 0 <= q < rest.len() && rest[q] == x;
                assert(t[q] == x);
            } else {
                assert(keys[m] == k);
                assert(t[t.len() - 1] == x);
            }
        }
        if is_child(p, parent, ObjectRef::Piece(k)) {
            assert forall|i: int, j: int| 0 <= i < j < t.len() implies t[i] != t[j] by {
                if j == t.len() - 1 {
                    assert(rest.contains(t[i]));
                }
            }
        }
    }
}

/// The entries of the three kinds of children, each kind among all stored keys.
proof fn lemma_entry_parts(p: Project, parent: ObjectId)
    requires
        sound(p),
    ensures
        ({
            let ge = group_entries(p, parent, sorted_ids_of(p.groups@.dom()));
            let se = shape_entries(p, parent, sorted_ids_of(p.shapes@.dom()));
            let pe = piece_entries(p, parent, sorted_ids_of(p.pieces@.dom()));
            &&& child_entries(p, parent) == ge + se + pe
            &&& ge.no_duplicates() && se.no_duplicates() && pe.no_duplicates()
            &&& forall|e: ChildEntry| #[trigger] ge.contains(e) <==> exists|id: ObjectId|
                is_child(p, parent, ObjectRef::Group(id)) && e == entry_of(p, ObjectRef::Group(id))
            &&& forall|e: ChildEntry| #[trigger] se.contains(e) <==> exists|id: ObjectId|
                is_child(p, parent, ObjectRef::Shape(id)) && e == entry_of(p, ObjectRef::Shape(id))
            &&& forall|e: ChildEntry| #[trigger] pe.contains(e) <==> exists|id: ObjectId|
                is_child(p, parent, ObjectRef::Piece(id)) && e == entry_of(p, ObjectRef::Piece(id))
        }),
{
    let gk = sorted_ids_of(p.groups@.dom());
    let sk = sorted_ids_of(p.shapes@.dom());
    let pk = sorted_ids_of(p.pieces@.dom());
    crate::ordered::lemma_sorted_ids_exist(p.groups@.dom());
    crate::ordered::lemma_sorted_ids_exist(p.shapes@.dom());
    crate::ordered::lemma_sorted_ids_exist(p.pieces@.dom());
    assert forall|m: int| 0 <= m < gk.len() implies p.groups@.contains_key(#[trigger] gk[m]) by {
        assert(gk.to_set().contains(gk[m]));
    }
    assert forall|m: int| 0 <= m < sk.len() implies p.shapes@.contains_key(#[trigger] sk[m]) by {
        assert(sk.to_set().contains(sk[m]));
    }
    assert forall|m: int| 0 <= m < pk.len() implies p.pieces@.contains_key(#[trigger] pk[m]) by {
        assert(pk.to_set().contains(pk[m]));
    }
    lemma_group_entries(p, parent, gk);
    lemma_shape_entries(p, parent, sk);
    lemma_piece_entries(p, parent, pk);
    let ge = group_entries(p, parent, gk);
    let se = shape_entries(p, parent, sk);
    let pe = piece_entries(p, parent, pk);
    assert forall|e: ChildEntry| #[trigger] ge.contains(e) <==> exists|id: ObjectId|
        is_child(p, parent, ObjectRef::Group(id)) && e == entry_of(p, ObjectRef::Group(id)) by {
        if exists|id: ObjectId| is_child(p, parent, ObjectRef::Group(id)) && e == entry_of(p, ObjectRef::Group(id)) {
            let id = choose|id: ObjectId| is_child(p, parent, ObjectRef::Group(id)) && e == entry_of(p, ObjectRef::Group(id));
            assert(gk.to_set().contains(id));
            let m = choose|m: int| 0 <= m < gk.len() && gk[m] == id;
            assert(is_child(p, parent, ObjectRef::Group(gk[m])));
        }
    }
    assert forall|e: ChildEntry| #[trigger] se.contains(e) <==> exists|id: ObjectId|
        is_child(p, parent, ObjectRef::Shape(id)) && e == entry_of(p, ObjectRef::Shape(id)) by {
        if exists|id: ObjectId| is_child(p, parent, ObjectRef::Shape(id)) && e == entry_of(p, ObjectRef::Shape(id)) {
            let id = choose|id: ObjectId| is_child(p, parent, ObjectRef::Shape(id)) && e == entry_of(p, ObjectRef::Shape(id));
            assert(sk.to_set().contains(id));
            let m = choose|m: int| 0 <= m < sk.len() && sk[m] == id;
            assert(is_child(p, parent, ObjectRef::Shape(sk[m])));
        }
    }
    assert forall|e: ChildEntry| #[trigger] pe.contains(e) <==> exists|id: ObjectId|
        is_child(p, parent, ObjectRef::Piece(id)) && e == entry_of(p, ObjectRef::Piece(id)) by {
        if exists|id: ObjectId| is_child(p, parent, ObjectRef::Piece(id)) && e == entry_of(p, ObjectRef::Piece(id)) {
            let id = choose|id: ObjectId| is_child(p, parent, ObjectRef::Piece(id)) && e == entry_of(p, ObjectRef::Piece(id));
            assert(pk.to_set().contains(id));
            let m = choose|m: int| 0 <= m < pk.len() && pk[m] == id;
            assert(is_child(p, parent, ObjectRef::Piece(pk[m])));
        }
    }
}

/// The entries of a group's children are those of the stored objects whose parent it is,
/// each once.
pub proof fn lemma_child_entries(p: Project, parent: ObjectId)
    requires
        sound(p),
    ensures
        child_entries(p, parent).no_duplicates(),
        forall|e: ChildEntry| #[trigger]
            child_entries(p, parent).contains(e) <==> exists|c: ObjectRef|
                is_child(p, parent, c) && e == entry_of(p, c),
{
    lemma_entry_parts(p, parent);
    let ge = group_entries(p, parent, sorted_ids_of(p.groups@.dom()));
    let se = shape_entries(p, parent, sorted_ids_of(p.shapes@.dom()));
    let pe = piece_entries(p, parent, sorted_ids_of(p.pieces@.dom()));
    let all = child_entries(p, parent);
    let a = ge.len() as int;
    let b = a + se.len();
    assert forall|q: int| 0 <= q < all.len() implies (q < a ==> ge.contains(#[trigger] all[q]) && all[q].2 is Group)
        && (a <= q < b ==> se.contains(all[q]) && all[q].2 is Shape)
        && (b <= q ==> pe.contains(all[q]) && all[q].2 is Piece) by {
        if q < a {
            assert(ge[q] == all[q]);
            assert(ge.contains(all[q]));
            let id = choose|id: ObjectId| is_child(p, parent, ObjectRef::Group(id)) && all[q] == entry_of(p, ObjectRef::Group(id));
            assert(all[q].2 == ObjectRef::Group(id));
        } else if q < b {
            assert(se[q - a] == all[q]);
            assert(se.contains(all[q]));
            let id = choose|id: ObjectId| is_child(p, parent, ObjectRef::Shape(id)) && all[q] == entry_of(p, ObjectRef::Shape(id));
            assert(all[q].2 == ObjectRef::Shape(id));
        } else {
            assert(pe[q - b] == all[q]);
            assert(pe.contains(all[q]));
            let id = choose|id: ObjectId| is_child(p, parent, ObjectRef::Piece(id)) && all[q] == entry_of(p, ObjectRef::Piece(id));
            assert(all[q].2 == ObjectRef::Piece(id));
        }
    }
    assert forall|e: ChildEntry| #[trigger] all.contains(e) <==> exists|c: ObjectRef|
        is_child(p, parent, c) && e == entry_of(p, c) by {
        if all.contains(e) {
            let q = choose|q: int| 0 <= q < all.len() && all[q] == e;
            if q < a {
                let id = choose|id: ObjectId| is_child(p, parent, ObjectRef::Group(id)) && e == entry_of(p, ObjectRef::Group(id));
                assert(is_child(p, parent, ObjectRef::Group(id)));
            } else if q < b {
                let id = choose|id: ObjectId| is_child(p, parent, ObjectRef::Shape(id)) && e == entry_of(p, ObjectRef::Shape(id));
                assert(is_child(p, parent, ObjectRef::Shape(id)));
            } else {
                let id = choose|id: ObjectId| is_child(p, parent, ObjectRef::Piece(id)) && e == entry_of(p, ObjectRef::Piece(id));
                assert(is_child(p, parent, ObjectRef::Piece(id)));
            }
        }
        if exists|c: ObjectRef| is_child(p, parent, c) && e == entry_of(p, c) {
            let c = choose|c: ObjectRef| is_child(p, parent, c) && e == entry_of(p, c);
            match c {
                ObjectRef::Group(id) => {
                    assert(ge.contains(e));
                    let q = choose|q: int| 0 <= q < ge.len() && ge[q] == e;
                    assert(all[q] == e);
                },
                ObjectRef::Shape(id) => {
                    assert(se.contains(e));
                    let q = choose|q: int| 0 <= q < se.len() && se[q] == e;
                    assert(all[a + q] == e);
                },
                ObjectRef::Piece(id) => {
                    assert(pe.contains(e));
                    let q = choose|q: int| 0 <= q < pe.len() && pe[q] == e;
                    assert(all[b + q] == e);
                },
            }
        }
    }
    assert forall|i: int, j: int| 0 <= i < j < all.len() implies all[i] != all[j] by {
        if j < a {
            assert(ge[i] != ge[j]);
        } else if a <= i && j < b {
            assert(se[i - a] != se[j - a]);
        } else if b <= i {
            assert(pe[i - b] != pe[j - b]);
        }
    }
}

/// The listing of a group's children holds each child once.
pub proof fn lemma_children_members(p: Project, parent: ObjectId)
    requires
        sound(p),
    ensures
        children_of(p, parent).no_duplicates(),
        forall|c: ObjectRef| #[trigger]
            children_of(p, parent).contains(c) <==> is_child(p, parent, c),
{
    lemma_child_entries(p, parent);
    let entries = child_entries(p, parent);
    lemma_sort_entries(entries);
    let sorted = sort_entries(entries);
    let listing = children_of(p, parent);
    assert(listing.len() == sorted.len());
    assert forall|k: int| 0 <= k < sorted.len() implies #[trigger] sorted[k] == entry_of(p, sorted[k].2)
        && is_child(p, parent, sorted[k].2) by {
        assert(sorted.contains(sorted[k]));
        assert(entries.contains(sorted[k]));
        let c = choose|c: ObjectRef| is_child(p, parent, c) && sorted[k] == entry_of(p, c);
    }
    assert forall|c: ObjectRef| #[trigger] listing.contains(c) <==> is_child(p, parent, c) by {
        if listing.contains(c) {
            let k = choose|k: int| 0 <= k < listing.len() && listing[k] == c;
            assert(sorted[k].2 == c);
        }
        if is_child(p, parent, c) {
            let e = entry_of(p, c);
            assert(entries.contains(e));
            assert(sorted.contains(e));
            let k = choose|k: int| 0 <= k < sorted.len() && sorted[k] == e;
            assert(listing[k] == c);
        }
    }
    assert forall|i: int, j: int| 0 <= i < j < listing.len() implies listing[i] != listing[j] by {
        assert(sorted[i] != sorted[j]);
        assert(listing[i] == sorted[i].2);
        assert(listing[j] == sorted[j].2);
    }
}

/// Leaving out an object keeps the others, in order, each as often.
proof fn lemma_without(list: Seq<ObjectRef>, o: ObjectRef)
    ensures
        forall|x: ObjectRef| #[trigger] without(list, o).contains(x) <==> (list.contains(x) && x != o),
        list.no_duplicates() ==> without(list, o).no_duplicates(),
    decreases list.len(),
{
    if list.len() > 0 {
        let d = list.drop_last();
        lemma_without(d, o);
        let w = without(d, o);
        assert forall|x: ObjectRef| #[trigger] without(list, o).contains(x) <==> (list.contains(x) && x != o) by {
            if list.contains(x) && x != o {
                let k = choose|k: int| 0 <= k < list.len() && list[k] == x;
                if k < list.len() - 1 {
                    assert(d[k] == x);
                    assert(w.contains(x));
                    let q = choose|q: int| 0 <= q < w.len() && w[q] == x;
                    if list.last() == o {
                    } else {
                        assert(without(list, o)[q] == x);
                    }
                } else {
                    assert(without(list, o)[w.len() as int] == x);
                }
            }
            if without(list, o).contains(x) {
                let q = choose|q: int| 0 <= q < without(list, o).len() && without(list, o)[q] == x;
                if q < w.len() {
                    assert(w[q] == x);
                    assert(w.contains(x));
                    let k = choose|k: int| 0 <= k < d.len() && d[k] == x;
                    assert(list[k] == x);
                } else {
                    assert(list[list.len() - 1] == x);
                }
            }
        }
        if list.no_duplicates() {
            assert(d.no_duplicates()) by {
                assert forall|i: int, j: int| 0 <= i < j < d.len() implies d[i] != d[j] by {
                    assert(list[i] != list[j]);
                }
            }
            if list.last() != o {
                assert(!w.contains(list.last())) by {
                    if w.contains(list.last()) {
                        let k = choose|k: int| 0 <= k < d.len() && d[k] == list.last();
                        assert(list[k] == list[list.len() - 1]);
                    }
                }
                let t = without(list, o);
                assert forall|i: int, j: int| 0 <= i < j < t.len() implies t[i] != t[j] by {
                    if j == t.len() - 1 {
                        assert(w.contains(t[i]));
                    } else {
                        assert(w[i] != w[j]);
                    }
                }
            }
        }
    }
}

/// In a list without repeats the last position of an element is its only one.
proof fn lemma_last_index_unique(list: Seq<ObjectRef>, n: int, i: int)
    requires
        list.no_duplicates(),
        0 <= i < n <= list.len(),
    ensures
        last_index(list, n, list[i]) == Some(i),
    decreases n,
{
    if list[n - 1] != list[i] {
        lemma_last_index_unique(list, n - 1, i);
    }
}

/// Some element of the sequence is `x`.
pub open spec fn takes_value(v: Seq<int>, x: int) -> bool {
    exists|i: int| 0 <= i < v.len() && v[i] == x
}

/// An increasing sequence that takes exactly the values `0 .. n` is `0, 1, ..., n - 1`.
proof fn lemma_ranks(v: Seq<int>, n: int, k: int)
    requires
        forall|i: int, j: int| 0 <= i < j < v.len() ==> #[trigger] v[i] < #[trigger] v[j],
        forall|i: int| 0 <= i < v.len() ==> 0 <= #[trigger] v[i] < n,
        forall|x: int| 0 <= x < n ==> #[trigger] takes_value(v, x),
        0 <= k <= v.len(),
    ensures
        forall|j: int| 0 <= j < k ==> #[trigger] v[j] == j,
    decreases k,
{
    if k > 0 {
        lemma_ranks(v, n, k - 1);
        let j = k - 1;
        if j > 0 {
            assert(v[j - 1] == j - 1);
            assert(v[j - 1] < v[j]);
        }
        assert(v[j] >= j);
        assert(j < n);
        assert(takes_value(v, j));
        let m = choose|m: int| 0 <= m < v.len() && v[m] == j;
        if m < j {
            assert(v[m] == m);
        }
        if m > j {
            assert(v[j] < v[m]);
        }
    }
}

/// Putting `object` back into `listing` without it, right after `target`, gives a list of
/// the same elements, each once.
proof fn lemma_put_back(listing: Seq<ObjectRef>, object: ObjectRef, target: ObjectRef)
    requires
        listing.no_duplicates(),
        listing.contains(object),
        without(listing, object).contains(target),
    ensures
        ({
            let rest = without(listing, object);
            let list = rest.insert(first_index(rest, target) + 1, object);
            &&& list.no_duplicates()
            &&& list.len() == listing.len()
            &&& forall|x: ObjectRef| #[trigger] list.contains(x) <==> listing.contains(x)
        }),
{
    let rest = without(listing, object);
    lemma_without(listing, object);
    let t = choose|t: int| 0 <= t < rest.len() && rest[t] == target;
    assert(forall|j: int| 0 <= j < t ==> #[trigger] rest[j] != target);
    let idx = first_index(rest, target);
    assert(0 <= idx < rest.len());
    let list = rest.insert(idx + 1, object);
    assert forall|x: ObjectRef| #[trigger] list.contains(x) <==> listing.contains(x) by {
        if list.contains(x) {
            let k = choose|k: int| 0 <= k < list.len() && list[k] == x;
            if k <= idx {
                assert(rest[k] == x);
                assert(rest.contains(x));
            } else if k > idx + 1 {
                assert(rest[k - 1] == x);
                assert(rest.contains(x));
            }
        }
        if listing.contains(x) {
            if x == object {
                assert(list[idx + 1] == x);
            } else {
                assert(rest.contains(x));
                let k = choose|k: int| 0 <= k < rest.len() && rest[k] == x;
                if k <= idx {
                    assert(list[k] == x);
                } else {
                    assert(list[k + 1] == x);
                }
            }
        }
    }
    assert(list.no_duplicates()) by {
        assert(!rest.contains(object));
        assert forall|i: int, j: int| 0 <= i < j < list.len() implies list[i] != list[j] by {
            if i == idx + 1 {
                assert(rest.contains(list[j]));
            } else if j == idx + 1 {
                assert(rest.contains(list[i]));
            } else {
                let ii = if i < idx + 1 { i } else { i - 1 };
                let jj = if j < idx + 1 { j } else { j - 1 };
                assert(list[i] == rest[ii]);
                assert(list[j] == rest[jj]);
            }
        }
    }
    lemma_without_len(listing, object);
}

/// Putting `object` back into the listing without it, right after `target`, gives a list of
/// the same children, each once, all of them stored.
proof fn lemma_moved_list(p: Project, parent: ObjectId, object: ObjectRef, target: ObjectRef)
    requires
        sound(p),
        is_child(p, parent, object),
        without(children_of(p, parent), object).contains(target),
    ensures
        ({
            let rest = without(children_of(p, parent), object);
            let list = rest.insert(first_index(rest, target) + 1, object);
            &&& list.no_duplicates()
            &&& list.len() == children_of(p, parent).len()
            &&& forall|x: ObjectRef| #[trigger] list.contains(x) <==> is_child(p, parent, x)
            &&& first_missing(p, list) == list.len()
        }),
{
    let listing = children_of(p, parent);
    lemma_children_members(p, parent);
    assert(listing.contains(object));
    lemma_put_back(listing, object, target);
    let rest = without(listing, object);
    let list = rest.insert(first_index(rest, target) + 1, object);
    assert forall|i: int| 0 <= i < list.len() implies crate::project::object_exists(
        p,
        #[trigger] list[i],
    ) by {
        assert(list.contains(list[i]));
        assert(is_child(p, parent, list[i]));
    }
    lemma_none_missing(p, list);
}

/// A list of stored objects has nothing missing.
proof fn lemma_none_missing(p: Project, list: Seq<ObjectRef>)
    requires
        forall|i: int| 0 <= i < list.len() ==> crate::project::object_exists(p, #[trigger] list[i]),
    ensures
        first_missing(p, list) == list.len(),
{
}

/// Leaving out an element that occurs once shortens the list by one.
proof fn lemma_without_len(list: Seq<ObjectRef>, o: ObjectRef)
    requires
        list.no_duplicates(),
        list.contains(o),
    ensures
        without(list, o).len() == list.len() - 1,
    decreases list.len(),
{
    let d = list.drop_last();
    if list.last() == o {
        lemma_without_absent(d, o);
        assert(!d.contains(o)) by {
            if d.contains(o) {
                let k = choose|k: int| 0 <= k < d.len() && d[k] == o;
                assert(list[k] == list[list.len() - 1]);
            }
        }
    } else {
        let k = choose|k: int| 0 <= k < list.len() && list[k] == o;
        assert(d[k] == o);
        assert(d.no_duplicates()) by {
            assert forall|i: int, j: int| 0 <= i < j < d.len() implies d[i] != d[j] by {
                assert(list[i] != list[j]);
            }
        }
        lemma_without_len(d, o);
    }
}

/// Leaving out an element that does not occur changes nothing.
proof fn lemma_without_absent(list: Seq<ObjectRef>, o: ObjectRef)
    ensures
        !list.contains(o) ==> without(list, o) == list,
    decreases list.len(),
{
    if list.len() > 0 && !list.contains(o) {
        let d = list.drop_last();
        assert(!d.contains(o)) by {
            if d.contains(o) {
                let k = choose|k: int| 0 <= k < d.len() && d[k] == o;
                assert(list[k] == o);
            }
        }
        lemma_without_absent(d, o);
        assert(list[list.len() - 1] != o);
        assert(d.push(list.last()) =~= list);
    }
}

/// A list of a group's children, each once, whose sibling orders are their positions in it,
/// is the listing of that group.
proof fn lemma_listing_by_rank(p: Project, parent: ObjectId, list: Seq<ObjectRef>)
    requires
        sound(p),
        list.no_duplicates(),
        list.len() <= u64::MAX,
        forall|x: ObjectRef| #[trigger] list.contains(x) <==> is_child(p, parent, x),
        forall|i: int| 0 <= i < list.len() ==> #[trigger] entry_of(p, list[i]).0 == i,
    ensures
        children_of(p, parent) == list,
{
    lemma_child_entries(p, parent);
    let entries = child_entries(p, parent);
    lemma_sort_entries(entries);
    let sorted = sort_entries(entries);
    let n = list.len() as int;
    assert forall|k: int| 0 <= k < sorted.len() implies exists|i: int|
        0 <= i < list.len() && #[trigger] sorted[k] == entry_of(p, list[i]) by {
        assert(sorted.contains(sorted[k]));
        assert(entries.contains(sorted[k]));
        let c = choose|c: ObjectRef| is_child(p, parent, c) && sorted[k] == entry_of(p, c);
        assert(list.contains(c));
        let i = choose|i: int| 0 <= i < list.len() && list[i] == c;
        assert(entry_of(p, list[i]) == sorted[k]);
    }
    let orders = sorted.map_values(|e: ChildEntry| e.0 as int);
    assert forall|i: int, j: int| 0 <= i < j < orders.len() implies #[trigger] orders[i]
        < #[trigger] orders[j] by {
        let x = choose|x: int| 0 <= x < list.len() && sorted[i] == entry_of(p, list[x]);
        let y = choose|y: int| 0 <= y < list.len() && sorted[j] == entry_of(p, list[y]);
        assert(entry_le(sorted[i], sorted[j]));
        assert(sorted[i] != sorted[j]);
        assert(x != y);
        assert(entry_of(p, list[x]).0 == x);
        assert(entry_of(p, list[y]).0 == y);
    }
    assert forall|i: int| 0 <= i < orders.len() implies 0 <= #[trigger] orders[i] < n by {
        let x = choose|x: int| 0 <= x < list.len() && sorted[i] == entry_of(p, list[x]);
        assert(entry_of(p, list[x]).0 == x);
    }
    assert forall|x: int| 0 <= x < n implies #[trigger] takes_value(orders, x) by {
        let e = entry_of(p, list[x]);
        assert(list.contains(list[x]));
        assert(is_child(p, parent, list[x]));
        assert(entries.contains(e));
        assert(sorted.contains(e));
        let k = choose|k: int| 0 <= k < sorted.len() && sorted[k] == e;
        assert(orders[k] == x);
    }
    lemma_ranks(orders, n, orders.len() as int);
    if orders.len() > n {
        assert(orders[n] == n);
    }
    if orders.len() < n {
        assert(takes_value(orders, n - 1));
        let k = choose|k: int| 0 <= k < orders.len() && orders[k] == n - 1;
        assert(orders[k] == k);
    }
    assert(sorted.len() == list.len());
    assert forall|k: int| 0 <= k < list.len() implies children_of(p, parent)[k] == list[k] by {
        let x = choose|x: int| 0 <= x < list.len() && sorted[k] == entry_of(p, list[x]);
        assert(orders[k] == k);
        assert(entry_of(p, list[x]).0 == x);
        assert(children_of(p, parent)[k] == sorted[k].2);
    }
    assert(children_of(p, parent) =~= list);
}

/// Moving an object right after a sibling lists it right after that sibling: the listing of
/// the sibling's group becomes its listing once the object has joined the group, without the
/// object, and with the object put back right after the sibling.
pub proof fn lemma_move_after_listing(
    a: Project,
    mid: Project,
    b: Project,
    object: ObjectRef,
    target: ObjectRef,
    parent: ObjectId,
    moved: Result<(), DomainError>,
    r: Result<(), DomainError>,
)
    requires
        validation_error(a) is None,
        reparent_result(a, mid, object, parent, moved),
        moved is Ok,
        reorder_result(mid, b, object, target, parent, r),
        r is Ok,
        children_of(mid, parent).len() <= u64::MAX,
    ensures
        ({
            let rest = without(children_of(mid, parent), object);
            children_of(b, parent) == rest.insert(first_index(rest, target) + 1, object)
        }),
{
    crate::keeps_valid::lemma_reparent_keeps_valid(a, mid, object, parent, moved);
    crate::invariants::lemma_valid_iff_sound(mid);
    crate::keeps_valid::lemma_reorder_keeps_valid(mid, b, object, target, parent, r);
    crate::invariants::lemma_valid_iff_sound(b);
    let rest = without(children_of(mid, parent), object);
    assert(is_child(mid, parent, object));
    lemma_moved_list(mid, parent, object, target);
    let list = rest.insert(first_index(rest, target) + 1, object);
    let n = list.len() as int;
    assert(first_missing(mid, list) == n);
    assert forall|c: ObjectRef| #[trigger] is_child(b, parent, c) <==> is_child(mid, parent, c) by {
    }
    assert forall|x: ObjectRef| #[trigger] list.contains(x) <==> is_child(b, parent, x) by {
        assert(is_child(b, parent, x) <==> is_child(mid, parent, x));
    }
    assert forall|i: int| 0 <= i < list.len() implies #[trigger] entry_of(b, list[i]).0 == i by {
        lemma_last_index_unique(list, n, i);
        assert(list.contains(list[i]));
        assert(is_child(mid, parent, list[i]));
    }
    lemma_listing_by_rank(b, parent, list);
}

} // verus!
