//! What the editing operations promise, stated over their inputs and results: where a moved
//! object is listed, what a converted piece keeps, which shapes block output, which pieces
//! the parts tree shows and which pieces count as supported.

use vstd::prelude::*;

use crate::analysis::{remaining_shapes, shapes_with_beads};
use crate::convert::convert_result;
use crate::geometry::{key_position, BeadKey, Plane};
use crate::hierarchy::reparent_result;
use crate::listing::{entry_of, is_child};
use crate::structure::{
    joints_of, joints_upto, pieces_in_order, rests_on, structural_warnings_of, unsupported_at,
    unsupported_upto,
};
use crate::model::{DomainError, ObjectId, ObjectRef, Piece, StructuralWarning};
use crate::project::{child_order_taken, listed_child, lookup_order, max_child_order, next_sibling_order_of};
use crate::validate::validation_error;
use crate::ordered::{lemma_sorted_ids_exist, sorted_ids_of};
use crate::project::Project;
use crate::workspace::{child_groups_in, child_pieces_in, child_shapes_in, tree_children_of};

verus! {

broadcast use vstd::std_specs::btree::group_btree_axioms, vstd::laws_cmp::group_laws_cmp;

/// The groups listed under `g` among `keys` are exactly the stored ones there whose parent is
/// `g`, each named by its id.
proof fn lemma_groups_listed(p: Project, g: ObjectId, keys: Seq<ObjectId>)
    ensures
        forall|x: ObjectRef| #[trigger] child_groups_in(p, g, keys).contains(x) <==> exists|j: int|
            0 <= j < keys.len() && p.groups@[#[trigger] keys[j]].parent_group_id == Some(g) && x
                == ObjectRef::Group(p.groups@[keys[j]].id),
    decreases keys.len(),
{
    if keys.len() > 0 {
        let d = keys.drop_last();
        lemma_groups_listed(p, g, d);
        let l = child_groups_in(p, g, keys);
        let rest = child_groups_in(p, g, d);
        assert forall|x: ObjectRef| #[trigger] l.contains(x) <==> exists|j: int|
            0 <= j < keys.len() && p.groups@[#[trigger] keys[j]].parent_group_id == Some(g) && x
                == ObjectRef::Group(p.groups@[keys[j]].id) by {
            if l.contains(x) {
                let i = choose|i: int| 0 <= i < l.len() && l[i] == x;
                if i < rest.len() {
                    assert(rest[i] == x);
                    assert(rest.contains(x));
                    let j = choose|j: int|
                        0 <= j < d.len() && p.groups@[#[trigger] d[j]].parent_group_id == Some(g) && x
                            == ObjectRef::Group(p.groups@[d[j]].id);
                    assert(keys[j] == d[j]);
                } else {
                    assert(keys[keys.len() - 1] == keys.last());
                }
            }
            if exists|j: int|
                0 <= j < keys.len() && p.groups@[#[trigger] keys[j]].parent_group_id == Some(g) && x
                    == ObjectRef::Group(p.groups@[keys[j]].id) {
                let j = choose|j: int|
                    0 <= j < keys.len() && p.groups@[#[trigger] keys[j]].parent_group_id == Some(g) && x
                        == ObjectRef::Group(p.groups@[keys[j]].id);
                if j < keys.len() - 1 {
                    assert(d[j] == keys[j]);
                    assert(rest.contains(x));
                    let i = choose|i: int| 0 <= i < rest.len() && rest[i] == x;
                    assert(l[i] == x);
                } else {
                    assert(l[l.len() - 1] == x);
                }
            }
        }
    }
}

/// The shapes listed under `g` among `keys` are exactly the stored ones there whose parent is
/// `g`, each named by its id.
proof fn lemma_shapes_listed(p: Project, g: ObjectId, keys: Seq<ObjectId>)
    ensures
        forall|x: ObjectRef| #[trigger] child_shapes_in(p, g, keys).contains(x) <==> exists|j: int|
            0 <= j < keys.len() && p.shapes@[#[trigger] keys[j]].parent_group_id == g && x
                == ObjectRef::Shape(p.shapes@[keys[j]].id),
    decreases keys.len(),
{
    if keys.len() > 0 {
        let d = keys.drop_last();
        lemma_shapes_listed(p, g, d);
        let l = child_shapes_in(p, g, keys);
        let rest = child_shapes_in(p, g, d);
        assert forall|x: ObjectRef| #[trigger] l.contains(x) <==> exists|j: int|
            0 <= j < keys.len() && p.shapes@[#[trigger] keys[j]].parent_group_id == g && x
                == ObjectRef::Shape(p.shapes@[keys[j]].id) by {
            if l.contains(x) {
                let i = choose|i: int| 0 <= i < l.len() && l[i] == x;
                if i < rest.len() {
                    assert(rest[i] == x);
                    assert(rest.contains(x));
                    let j = choose|j: int|
                        0 <= j < d.len() && p.shapes@[#[trigger] d[j]].parent_group_id == g && x
                            == ObjectRef::Shape(p.shapes@[d[j]].id);
                    assert(keys[j] == d[j]);
                } else {
                    assert(keys[keys.len() - 1] == keys.last());
                }
            }
            if exists|j: int|
                0 <= j < keys.len() && p.shapes@[#[trigger] keys[j]].parent_group_id == g && x
                    == ObjectRef::Shape(p.shapes@[keys[j]].id) {
                let j = choose|j: int|
                    0 <= j < keys.len() && p.shapes@[#[trigger] keys[j]].parent_group_id == g && x
                        == ObjectRef::Shape(p.shapes@[keys[j]].id);
                if j < keys.len() - 1 {
                    assert(d[j] == keys[j]);
                    assert(rest.contains(x));
                    let i = choose|i: int| 0 <= i < rest.len() && rest[i] == x;
                    assert(l[i] == x);
                } else {
                    assert(l[l.len() - 1] == x);
                }
            }
        }
    }
}

/// The pieces listed under `g` among `keys` are exactly the stored ones there whose parent is
/// `g`, each named by its id.
proof fn lemma_pieces_listed(p: Project, g: ObjectId, keys: Seq<ObjectId>)
    ensures
        forall|x: ObjectRef| #[trigger] child_pieces_in(p, g, keys).contains(x) <==> exists|j: int|
            0 <= j < keys.len() && p.pieces@[#[trigger] keys[j]].parent_group_id == g && x
                == ObjectRef::Piece(p.pieces@[keys[j]].id),
    decreases keys.len(),
{
    if keys.len() > 0 {
        let d = keys.drop_last();
        lemma_pieces_listed(p, g, d);
        let l = child_pieces_in(p, g, keys);
        let rest = child_pieces_in(p, g, d);
        assert forall|x: ObjectRef| #[trigger] l.contains(x) <==> exists|j: int|
            0 <= j < keys.len() && p.pieces@[#[trigger] keys[j]].parent_group_id == g && x
                == ObjectRef::Piece(p.pieces@[keys[j]].id) by {
            if l.contains(x) {
                let i = choose|i: int| 0 <= i < l.len() && l[i] == x;
                if i < rest.len() {
                    assert(rest[i] == x);
                    assert(rest.contains(x));
                    let j = choose|j: int|
                        0 <= j < d.len() && p.pieces@[#[trigger] d[j]].parent_group_id == g && x
                            == ObjectRef::Piece(p.pieces@[d[j]].id);
                    assert(keys[j] == d[j]);
                } else {
                    assert(keys[keys.len() - 1] == keys.last());
                }
            }
            if exists|j: int|
                0 <= j < keys.len() && p.pieces@[#[trigger] keys[j]].parent_group_id == g && x
                    == ObjectRef::Piece(p.pieces@[keys[j]].id) {
                let j = choose|j: int|
                    0 <= j < keys.len() && p.pieces@[#[trigger] keys[j]].parent_group_id == g && x
                        == ObjectRef::Piece(p.pieces@[keys[j]].id);
                if j < keys.len() - 1 {
                    assert(d[j] == keys[j]);
                    assert(rest.contains(x));
                    let i = choose|i: int| 0 <= i < rest.len() && rest[i] == x;
                    assert(l[i] == x);
                } else {
                    assert(l[l.len() - 1] == x);
                }
            }
        }
    }
}

/// The parts tree of a stored group lists exactly its child groups, shapes and pieces: every
/// stored object whose parent is that group's id appears, named by its id, whatever beads it
/// holds, and nothing else appears.
pub proof fn lemma_tree_lists_every_child(p: Project, g: ObjectId)
    requires
        p.groups@.contains_key(g),
    ensures
        forall|k: ObjectId|
            p.groups@.contains_key(k) && p.groups@[k].parent_group_id == Some(p.groups@[g].id)
                ==> #[trigger] tree_children_of(p, g).contains(ObjectRef::Group(p.groups@[k].id)),
        forall|k: ObjectId|
            p.shapes@.contains_key(k) && p.shapes@[k].parent_group_id == p.groups@[g].id
                ==> #[trigger] tree_children_of(p, g).contains(ObjectRef::Shape(p.shapes@[k].id)),
        forall|k: ObjectId|
            p.pieces@.contains_key(k) && p.pieces@[k].parent_group_id == p.groups@[g].id
                ==> #[trigger] tree_children_of(p, g).contains(ObjectRef::Piece(p.pieces@[k].id)),
        forall|x: ObjectRef| #[trigger]
            tree_children_of(p, g).contains(x) ==> {
                ||| exists|k: ObjectId|
                    p.groups@.contains_key(k) && p.groups@[k].parent_group_id == Some(
                        p.groups@[g].id,
                    ) && x == ObjectRef::Group(#[trigger] p.groups@[k].id)
                ||| exists|k: ObjectId|
                    p.shapes@.contains_key(k) && p.shapes@[k].parent_group_id == p.groups@[g].id
                        && x == ObjectRef::Shape(#[trigger] p.shapes@[k].id)
                ||| exists|k: ObjectId|
                    p.pieces@.contains_key(k) && p.pieces@[k].parent_group_id == p.groups@[g].id
                        && x == ObjectRef::Piece(#[trigger] p.pieces@[k].id)
            },
{
    let id = p.groups@[g].id;
    assert(p.groups@.dom().finite());
    assert(p.shapes@.dom().finite());
    assert(p.pieces@.dom().finite());
    let gk = sorted_ids_of(p.groups@.dom());
    let sk = sorted_ids_of(p.shapes@.dom());
    let pk = sorted_ids_of(p.pieces@.dom());
    lemma_sorted_ids_exist(p.groups@.dom());
    lemma_sorted_ids_exist(p.shapes@.dom());
    lemma_sorted_ids_exist(p.pieces@.dom());
    lemma_groups_listed(p, id, gk);
    lemma_shapes_listed(p, id, sk);
    lemma_pieces_listed(p, id, pk);
    let gl = child_groups_in(p, id, gk);
    let sl = child_shapes_in(p, id, sk);
    let pl = child_pieces_in(p, id, pk);
    let t = tree_children_of(p, g);
    assert(t == gl + sl + pl);
    assert forall|k: ObjectId|
        p.groups@.contains_key(k) && p.groups@[k].parent_group_id == Some(id) implies #[trigger] t.contains(
        ObjectRef::Group(p.groups@[k].id),
    ) by {
        assert(gk.to_set().contains(k));
        let j = choose|j: int| 0 <= j < gk.len() && gk[j] == k;
        assert(gl.contains(ObjectRef::Group(p.groups@[k].id)));
        let i = choose|i: int| 0 <= i < gl.len() && gl[i] == ObjectRef::Group(p.groups@[k].id);
        assert(t[i] == gl[i]);
    }
    assert forall|k: ObjectId|
        p.shapes@.contains_key(k) && p.shapes@[k].parent_group_id == id implies #[trigger] t.contains(
        ObjectRef::Shape(p.shapes@[k].id),
    ) by {
        assert(sk.to_set().contains(k));
        let j = choose|j: int| 0 <= j < sk.len() && sk[j] == k;
        assert(sl.contains(ObjectRef::Shape(p.shapes@[k].id)));
        let i = choose|i: int| 0 <= i < sl.len() && sl[i] == ObjectRef::Shape(p.shapes@[k].id);
        assert(t[gl.len() + i] == sl[i]);
    }
    assert forall|k: ObjectId|
        p.pieces@.contains_key(k) && p.pieces@[k].parent_group_id == id implies #[trigger] t.contains(
        ObjectRef::Piece(p.pieces@[k].id),
    ) by {
        assert(pk.to_set().contains(k));
        let j = choose|j: int| 0 <= j < pk.len() && pk[j] == k;
        assert(pl.contains(ObjectRef::Piece(p.pieces@[k].id)));
        let i = choose|i: int| 0 <= i < pl.len() && pl[i] == ObjectRef::Piece(p.pieces@[k].id);
        assert(t[gl.len() + sl.len() + i] == pl[i]);
    }
    assert forall|x: ObjectRef| #[trigger] t.contains(x) implies {
        ||| exists|k: ObjectId|
            p.groups@.contains_key(k) && p.groups@[k].parent_group_id == Some(id) && x
                == ObjectRef::Group(#[trigger] p.groups@[k].id)
        ||| exists|k: ObjectId|
            p.shapes@.contains_key(k) && p.shapes@[k].parent_group_id == id && x == ObjectRef::Shape(
                #[trigger] p.shapes@[k].id,
            )
        ||| exists|k: ObjectId|
            p.pieces@.contains_key(k) && p.pieces@[k].parent_group_id == id && x == ObjectRef::Piece(
                #[trigger] p.pieces@[k].id,
            )
    } by {
        let i = choose|i: int| 0 <= i < t.len() && t[i] == x;
        if i < gl.len() {
            assert(gl[i] == x);
            assert(gl.contains(x));
            let j = choose|j: int|
                0 <= j < gk.len() && p.groups@[#[trigger] gk[j]].parent_group_id == Some(id) && x
                    == ObjectRef::Group(p.groups@[gk[j]].id);
            assert(gk.to_set().contains(gk[j]));
        } else if i < gl.len() + sl.len() {
            assert(sl[i - gl.len()] == x);
            assert(sl.contains(x));
            let j = choose|j: int|
                0 <= j < sk.len() && p.shapes@[#[trigger] sk[j]].parent_group_id == id && x
                    == ObjectRef::Shape(p.shapes@[sk[j]].id);
            assert(sk.to_set().contains(sk[j]));
        } else {
            assert(pl[i - gl.len() - sl.len()] == x);
            assert(pl.contains(x));
            let j = choose|j: int|
                0 <= j < pk.len() && p.pieces@[#[trigger] pk[j]].parent_group_id == id && x
                    == ObjectRef::Piece(p.pieces@[pk[j]].id);
            assert(pk.to_set().contains(pk[j]));
        }
    }
}

/// A converted piece is placed where its shape was: same translation and rotation, oriented
/// as the plane, in the shape's group, and it takes exactly the shape's beads that lie on the
/// plane, with their colors, while the shape keeps the others.
pub proof fn lemma_converted_piece_keeps_the_shape_place(
    a: Project,
    b: Project,
    shape_id: ObjectId,
    plane: Plane,
    name: Seq<char>,
    r: Result<ObjectId, DomainError>,
)
    requires
        convert_result(a, b, shape_id, plane, name, r),
        r is Ok,
    ensures
        ({
            let s = a.shapes@[shape_id];
            let q = b.pieces@[r->Ok_0];
            &&& q.placement.translation == s.placement.translation
            &&& q.placement.rotation == s.placement.rotation
            &&& q.placement.orientation == plane.spec_orientation()
            &&& q.parent_group_id == s.parent_group_id
            &&& q.plane == plane
            &&& q.name@ == name
            &&& forall|k: BeadKey| #[trigger]
                q.beads@.contains_key(k) <==> s.beads@.contains_key(k) && plane.spec_contains(
                    key_position(k),
                )
            &&& forall|k: BeadKey| #[trigger] q.beads@.contains_key(k) ==> q.beads@[k] == s.beads@[k]
            &&& forall|k: BeadKey| #[trigger]
                b.shapes@[shape_id].beads@.contains_key(k) <==> s.beads@.contains_key(k)
                    && !plane.spec_contains(key_position(k))
        }),
{
}

/// The shapes under the keys that are listed as holding beads are exactly those whose bead
/// map is not empty, each named by its id.
proof fn lemma_shapes_with_beads_listed(p: Project, keys: Seq<ObjectId>)
    ensures
        forall|x: ObjectId| #[trigger] shapes_with_beads(p, keys).contains(x) <==> exists|j: int|
            0 <= j < keys.len() && !p.shapes@[#[trigger] keys[j]].beads@.is_empty() && x
                == p.shapes@[keys[j]].id,
    decreases keys.len(),
{
    if keys.len() > 0 {
        let d = keys.drop_last();
        lemma_shapes_with_beads_listed(p, d);
        let l = shapes_with_beads(p, keys);
        let rest = shapes_with_beads(p, d);
        assert forall|x: ObjectId| #[trigger] l.contains(x) <==> exists|j: int|
            0 <= j < keys.len() && !p.shapes@[#[trigger] keys[j]].beads@.is_empty() && x
                == p.shapes@[keys[j]].id by {
            if l.contains(x) {
                let i = choose|i: int| 0 <= i < l.len() && l[i] == x;
                if i < rest.len() {
                    assert(rest[i] == x);
                    assert(rest.contains(x));
                    let j = choose|j: int|
                        0 <= j < d.len() && !p.shapes@[#[trigger] d[j]].beads@.is_empty() && x
                            == p.shapes@[d[j]].id;
                    assert(keys[j] == d[j]);
                } else {
                    assert(keys[keys.len() - 1] == keys.last());
                }
            }
            if exists|j: int|
                0 <= j < keys.len() && !p.shapes@[#[trigger] keys[j]].beads@.is_empty() && x
                    == p.shapes@[keys[j]].id {
                let j = choose|j: int|
                    0 <= j < keys.len() && !p.shapes@[#[trigger] keys[j]].beads@.is_empty() && x
                        == p.shapes@[keys[j]].id;
                if j < keys.len() - 1 {
                    assert(d[j] == keys[j]);
                    assert(rest.contains(x));
                    let i = choose|i: int| 0 <= i < rest.len() && rest[i] == x;
                    assert(l[i] == x);
                } else {
                    assert(l[l.len() - 1] == x);
                }
            }
        }
    }
}

/// Output readiness of a valid project lists exactly the shapes that still hold beads, shown
/// or hidden, and so is ready exactly when no shape holds a bead.
pub proof fn lemma_readiness_lists_shapes_with_beads(p: Project)
    requires
        validation_error(p) is None,
    ensures
        forall|k: ObjectId| #[trigger]
            remaining_shapes(p).contains(k) <==> p.shapes@.contains_key(k)
                && !p.shapes@[k].beads@.is_empty(),
        (remaining_shapes(p).len() == 0) <==> forall|k: ObjectId| #[trigger]
            p.shapes@.contains_key(k) ==> p.shapes@[k].beads@.is_empty(),
{
    crate::invariants::lemma_valid_iff_sound(p);
    assert(p.shapes@.dom().finite());
    let keys = sorted_ids_of(p.shapes@.dom());
    lemma_sorted_ids_exist(p.shapes@.dom());
    lemma_shapes_with_beads_listed(p, keys);
    let l = remaining_shapes(p);
    assert forall|k: ObjectId| #[trigger] l.contains(k) <==> p.shapes@.contains_key(k)
        && !p.shapes@[k].beads@.is_empty() by {
        if l.contains(k) {
            let j = choose|j: int|
                0 <= j < keys.len() && !p.shapes@[#[trigger] keys[j]].beads@.is_empty() && k
                    == p.shapes@[keys[j]].id;
            assert(keys.to_set().contains(keys[j]));
            assert(crate::invariants::shape_sound(p, keys[j]));
        }
        if p.shapes@.contains_key(k) && !p.shapes@[k].beads@.is_empty() {
            assert(keys.to_set().contains(k));
            let j = choose|j: int| 0 <= j < keys.len() && keys[j] == k;
            assert(crate::invariants::shape_sound(p, k));
        }
    }
    if l.len() != 0 {
        assert(l.contains(l[0]));
    } else {
        assert forall|k: ObjectId| #[trigger] p.shapes@.contains_key(k) implies p.shapes@[k].beads@.is_empty() by {
            if !p.shapes@[k].beads@.is_empty() {
                assert(l.contains(k));
            }
        }
    }
}

/// In a valid project whose children of `parent` all have orders below the largest value,
/// each of them comes before the order a new child of `parent` receives.
proof fn lemma_new_order_after_children(a: Project, parent: ObjectId, c: ObjectRef)
    requires
        validation_error(a) is None,
        is_child(a, parent, c),
        forall|d: ObjectRef| is_child(a, parent, d) ==> #[trigger] entry_of(a, d).0 < u64::MAX,
    ensures
        entry_of(a, c).0 < next_sibling_order_of(a, parent),
{
    crate::invariants::lemma_valid_iff_sound(a);
    let o = entry_of(a, c).0;
    match c {
        ObjectRef::Group(id) => {
            assert(crate::invariants::group_sound(a, id));
            assert(a.groups@[id] == a.groups@[id]);
        },
        ObjectRef::Shape(id) => {
            assert(crate::invariants::shape_sound(a, id));
            assert(a.shapes@[id] == a.shapes@[id]);
        },
        ObjectRef::Piece(id) => {
            assert(crate::invariants::piece_sound(a, id));
            assert(a.pieces@[id] == a.pieces@[id]);
        },
    }
    assert(listed_child(a, parent, c));
    assert(lookup_order(a, c) == Some(o));
    assert(child_order_taken(a, parent, o));
    let m = choose|m: u64| max_child_order(a, parent, m);
    // the largest order is that of some listed child, which is itself a child
    crate::project::lemma_max_child_order_exists(a, parent, o);
    assert(max_child_order(a, parent, m));
    assert(o <= m);
    let d = choose|d: ObjectRef|
        #![trigger lookup_order(a, d)]
        listed_child(a, parent, d) && lookup_order(a, d) == Some(m);
    lemma_listed_is_child(a, parent, d);
    assert(entry_of(a, d).0 == m);
}

/// A listed child of `parent` in a valid project is a child stored under its own id.
proof fn lemma_listed_is_child(a: Project, parent: ObjectId, d: ObjectRef)
    requires
        validation_error(a) is None,
        listed_child(a, parent, d),
    ensures
        is_child(a, parent, d),
        lookup_order(a, d) == Some(entry_of(a, d).0),
{
    crate::invariants::lemma_valid_iff_sound(a);
    match d {
        ObjectRef::Group(id) => {
            let k = choose|k: ObjectId|
                #![trigger a.groups@[k]]
                a.groups@.contains_key(k) && a.groups@[k].parent_group_id == Some(parent)
                    && a.groups@[k].id == id;
            assert(crate::invariants::group_sound(a, k));
        },
        ObjectRef::Shape(id) => {
            let k = choose|k: ObjectId|
                #![trigger a.shapes@[k]]
                a.shapes@.contains_key(k) && a.shapes@[k].parent_group_id == parent && a.shapes@[k].id
                    == id;
            assert(crate::invariants::shape_sound(a, k));
        },
        ObjectRef::Piece(id) => {
            let k = choose|k: ObjectId|
                #![trigger a.pieces@[k]]
                a.pieces@.contains_key(k) && a.pieces@[k].parent_group_id == parent && a.pieces@[k].id
                    == id;
            assert(crate::invariants::piece_sound(a, k));
        },
    }
}

/// Moving an object of a valid project into a group it was not in puts it after every other
/// child of that group: its sibling order is strictly greater than theirs, so the group's
/// listing shows it last. Moving it into the group it is already in keeps its order.
pub proof fn lemma_reparented_object_goes_last(
    a: Project,
    b: Project,
    object: ObjectRef,
    parent: ObjectId,
    r: Result<(), DomainError>,
)
    requires
        validation_error(a) is None,
        reparent_result(a, b, object, parent, r),
        r is Ok,
        forall|d: ObjectRef| is_child(a, parent, d) ==> #[trigger] entry_of(a, d).0 < u64::MAX,
    ensures
        is_child(b, parent, object),
        !is_child(a, parent, object) ==> forall|c: ObjectRef|
            c != object && #[trigger] is_child(b, parent, c) ==> entry_of(b, c).0 < entry_of(
                b,
                object,
            ).0,
        is_child(a, parent, object) ==> entry_of(b, object).0 == entry_of(a, object).0,
        forall|c: ObjectRef, g: ObjectId|
            c != object ==> (#[trigger] is_child(b, g, c) <==> is_child(a, g, c)) && entry_of(b, c)
                == entry_of(a, c),
{
    if !is_child(a, parent, object) {
        assert forall|c: ObjectRef|
            c != object && #[trigger] is_child(b, parent, c) implies entry_of(b, c).0 < entry_of(
            b,
            object,
        ).0 by {
            assert(is_child(a, parent, c) && entry_of(b, c) == entry_of(a, c));
            lemma_new_order_after_children(a, parent, c);
        }
    }
}

/// The joint warnings of one piece name only shallow joints.
proof fn lemma_joints_of_are_joints(pieces: Seq<Piece>, i: int, end: int)
    ensures
        forall|w: StructuralWarning| #[trigger] joints_of(pieces, i, end).contains(w) ==> w is ShallowJoint,
    decreases end - i,
{
    if end > i + 1 {
        lemma_joints_of_are_joints(pieces, i, end - 1);
        let l = joints_of(pieces, i, end);
        let rest = joints_of(pieces, i, end - 1);
        assert forall|w: StructuralWarning| #[trigger] l.contains(w) implies w is ShallowJoint by {
            let q = choose|q: int| 0 <= q < l.len() && l[q] == w;
            if q < rest.len() {
                assert(rest[q] == w);
                assert(rest.contains(w));
            }
        }
    }
}

/// The joint warnings name only shallow joints.
proof fn lemma_joints_are_joints(pieces: Seq<Piece>, rows: int)
    ensures
        forall|w: StructuralWarning| #[trigger] joints_upto(pieces, rows).contains(w) ==> w is ShallowJoint,
    decreases rows,
{
    if rows > 0 {
        lemma_joints_are_joints(pieces, rows - 1);
        lemma_joints_of_are_joints(pieces, rows - 1, pieces.len() as int);
        let a = joints_upto(pieces, rows - 1);
        let b = joints_of(pieces, rows - 1, pieces.len() as int);
        assert forall|w: StructuralWarning| #[trigger] (a + b).contains(w) implies w is ShallowJoint by {
            let q = choose|q: int| 0 <= q < (a + b).len() && (a + b)[q] == w;
            if q < a.len() {
                assert(a[q] == w);
                assert(a.contains(w));
            } else {
                assert(b[q - a.len()] == w);
                assert(b.contains(w));
            }
        }
    }
}

/// A piece is warned about as unsupported exactly when some piece among the first `n` with
/// its id is unsupported.
proof fn lemma_unsupported_listed(pieces: Seq<Piece>, n: int, x: ObjectId)
    requires
        n <= pieces.len(),
    ensures
        unsupported_upto(pieces, n).contains(StructuralWarning::UnsupportedPiece { piece_id: x })
            <==> exists|i: int| 0 <= i < n && #[trigger] unsupported_at(pieces, i) && pieces[i].id == x,
    decreases n,
{
    let w = StructuralWarning::UnsupportedPiece { piece_id: x };
    if n > 0 {
        lemma_unsupported_listed(pieces, n - 1, x);
        let l = unsupported_upto(pieces, n);
        let rest = unsupported_upto(pieces, n - 1);
        if l.contains(w) {
            let q = choose|q: int| 0 <= q < l.len() && l[q] == w;
            if q < rest.len() {
                assert(rest[q] == w);
                assert(rest.contains(w));
            } else {
                assert(unsupported_at(pieces, n - 1));
            }
        }
        if exists|i: int| 0 <= i < n && #[trigger] unsupported_at(pieces, i) && pieces[i].id == x {
            let i = choose|i: int| 0 <= i < n && #[trigger] unsupported_at(pieces, i) && pieces[i].id == x;
            if i < n - 1 {
                assert(rest.contains(w));
                let q = choose|q: int| 0 <= q < rest.len() && rest[q] == w;
                assert(l[q] == w);
            } else {
                assert(l[l.len() - 1] == w);
            }
        }
    }
}

/// Whether a piece is warned about as unsupported, in terms of the pieces in id order.
proof fn lemma_unsupported_warning(p: Project, k: ObjectId)
    requires
        validation_error(p) is None,
        p.pieces@.contains_key(k),
    ensures
        structural_warnings_of(p).contains(StructuralWarning::UnsupportedPiece { piece_id: k })
            <==> exists|i: int|
            0 <= i < pieces_in_order(p).len() && #[trigger] unsupported_at(pieces_in_order(p), i)
                && pieces_in_order(p)[i].id == k,
{
    let pieces = pieces_in_order(p);
    let n = pieces.len() as int;
    let w = StructuralWarning::UnsupportedPiece { piece_id: k };
    lemma_joints_are_joints(pieces, n);
    lemma_unsupported_listed(pieces, n, k);
    let j = joints_upto(pieces, n);
    let u = unsupported_upto(pieces, n);
    let all = structural_warnings_of(p);
    assert(all == j + u);
    if all.contains(w) {
        let q = choose|q: int| 0 <= q < all.len() && all[q] == w;
        if q < j.len() {
            assert(j[q] == w);
            assert(j.contains(w));
        } else {
            assert(u[q - j.len()] == w);
            assert(u.contains(w));
        }
    }
    if u.contains(w) {
        let q = choose|q: int| 0 <= q < u.len() && u[q] == w;
        assert(all[j.len() + q] == w);
    }
}

/// The pieces in id order are the stored pieces, each at the index of its id.
proof fn lemma_pieces_in_order(p: Project)
    requires
        validation_error(p) is None,
    ensures
        forall|i: int|
            0 <= i < pieces_in_order(p).len() ==> p.pieces@.contains_key(
                #[trigger] pieces_in_order(p)[i].id,
            ) && p.pieces@[pieces_in_order(p)[i].id] == pieces_in_order(p)[i],
        forall|k: ObjectId|
            #[trigger] p.pieces@.contains_key(k) ==> exists|i: int|
                0 <= i < pieces_in_order(p).len() && #[trigger] pieces_in_order(p)[i].id == k,
{
    crate::invariants::lemma_valid_iff_sound(p);
    assert(p.pieces@.dom().finite());
    let keys = sorted_ids_of(p.pieces@.dom());
    lemma_sorted_ids_exist(p.pieces@.dom());
    let pieces = pieces_in_order(p);
    assert forall|i: int| 0 <= i < pieces.len() implies p.pieces@.contains_key(
        #[trigger] pieces[i].id,
    ) && p.pieces@[pieces[i].id] == pieces[i] by {
        assert(keys.to_set().contains(keys[i]));
        assert(crate::invariants::piece_sound(p, keys[i]));
    }
    assert forall|k: ObjectId| #[trigger] p.pieces@.contains_key(k) implies exists|i: int|
        0 <= i < pieces.len() && #[trigger] pieces[i].id == k by {
        assert(keys.to_set().contains(k));
        let i = choose|i: int| 0 <= i < keys.len() && keys[i] == k;
        assert(crate::invariants::piece_sound(p, k));
        assert(pieces[i].id == k);
    }
}

/// A piece of a valid project is not warned about as unsupported when one of its beads lies
/// higher than a bead of another piece, straight above it or one step aside along x or y.
pub proof fn lemma_piece_above_a_neighbour_is_supported(
    p: Project,
    k: ObjectId,
    m: ObjectId,
    a: BeadKey,
    b: BeadKey,
)
    requires
        validation_error(p) is None,
        p.pieces@.contains_key(k),
        p.pieces@.contains_key(m),
        k != m,
        p.pieces@[k].beads@.contains_key(a),
        p.pieces@[m].beads@.contains_key(b),
        a.2 > b.2,
        (a.0 == b.0 && -1 <= a.1 - b.1 <= 1) || (a.1 == b.1 && -1 <= a.0 - b.0 <= 1),
    ensures
        !structural_warnings_of(p).contains(StructuralWarning::UnsupportedPiece { piece_id: k }),
{
    lemma_pieces_in_order(p);
    lemma_unsupported_warning(p, k);
    let pieces = pieces_in_order(p);
    if structural_warnings_of(p).contains(StructuralWarning::UnsupportedPiece { piece_id: k }) {
        let i = choose|i: int| 0 <= i < pieces.len() && #[trigger] unsupported_at(pieces, i) && pieces[i].id == k;
        assert(p.pieces@.contains_key(m));
        let j = choose|j: int| 0 <= j < pieces.len() && #[trigger] pieces[j].id == m;
        assert(pieces[i] == p.pieces@[k]);
        assert(pieces[j] == p.pieces@[m]);
        assert(crate::structure::rests_above(a, b));
        assert(rests_on(pieces[i].beads@, pieces[j].beads@));
    }
}

/// A piece of a valid project that holds beads is warned about as unsupported when none of
/// its beads lies higher than a bead of another piece, straight above it or one step aside
/// along x or y.
pub proof fn lemma_piece_above_nothing_is_unsupported(p: Project, k: ObjectId)
    requires
        validation_error(p) is None,
        p.pieces@.contains_key(k),
        !p.pieces@[k].beads@.is_empty(),
        forall|m: ObjectId, a: BeadKey, b: BeadKey|
            #![trigger p.pieces@[m].beads@.contains_key(b), p.pieces@[k].beads@.contains_key(a)]
            p.pieces@.contains_key(m) && m != k && p.pieces@[k].beads@.contains_key(a)
                && p.pieces@[m].beads@.contains_key(b) ==> !(a.2 > b.2 && ((a.0 == b.0 && -1 <= a.1
                - b.1 <= 1) || (a.1 == b.1 && -1 <= a.0 - b.0 <= 1))),
    ensures
        structural_warnings_of(p).contains(StructuralWarning::UnsupportedPiece { piece_id: k }),
{
    lemma_pieces_in_order(p);
    lemma_unsupported_warning(p, k);
    let pieces = pieces_in_order(p);
    let i = choose|i: int| 0 <= i < pieces.len() && #[trigger] pieces[i].id == k;
    assert(pieces[i] == p.pieces@[k]);
    assert forall|j: int|
        0 <= j < pieces.len() && pieces[j].id != pieces[i].id implies !#[trigger] rests_on(
        pieces[i].beads@,
        pieces[j].beads@,
    ) by {
        if rests_on(pieces[i].beads@, pieces[j].beads@) {
            let (a, b) = choose|a: BeadKey, b: BeadKey|
                pieces[i].beads@.dom().contains(a) && pieces[j].beads@.dom().contains(b)
                    && #[trigger] crate::structure::rests_above(a, b);
            let m = pieces[j].id;
            assert(p.pieces@[m] == pieces[j]);
            assert(p.pieces@[m].beads@.contains_key(b) && p.pieces@[k].beads@.contains_key(a));
        }
    }
    assert(unsupported_at(pieces, i));
}

} // verus!
