//! The ordered children of a group, and moving an object right after a sibling.

use vstd::prelude::*;

use crate::hierarchy::{parent_of, reparent_result, reparent_walk_ends};
use crate::model::{DomainError, ObjectId, ObjectRef};
use crate::ordered::{sorted_ids, sorted_ids_of};
use crate::project::{not_found, object_exists, same_header, Project};

verus! {

broadcast use vstd::std_specs::btree::group_btree_axioms, vstd::laws_cmp::group_laws_cmp;

/// A child as the listing sees it: its sibling order, its id, and the reference to it.
pub type ChildEntry = (u64, ObjectId, ObjectRef);

/// Listing order: by sibling order, then by id.
pub open spec fn entry_le(a: ChildEntry, b: ChildEntry) -> bool {
    a.0 < b.0 || (a.0 == b.0 && a.1 <= b.1)
}

pub fn entry_less_eq(a: ChildEntry, b: ChildEntry) -> (r: bool)
    ensures
        r == entry_le(a, b),
{
    a.0 < b.0 || (a.0 == b.0 && a.1 <= b.1)
}

/// Inserts `e` after every trailing element that does not come after it.
pub open spec fn insert_entry(s: Seq<ChildEntry>, e: ChildEntry) -> Seq<ChildEntry>
    decreases s.len(),
{
    if s.len() == 0 {
        seq![e]
    } else if entry_le(s.last(), e) {
        s.push(e)
    } else {
        insert_entry(s.drop_last(), e).push(s.last())
    }
}

/// The stable sort of entries by listing order: equal entries keep their relative order.
pub open spec fn sort_entries(s: Seq<ChildEntry>) -> Seq<ChildEntry>
    decreases s.len(),
{
    if s.len() == 0 {
        Seq::empty()
    } else {
        insert_entry(sort_entries(s.drop_last()), s.last())
    }
}

/// Entries of the groups under the given keys whose parent is `parent`, in key order.
pub open spec fn group_entries(p: Project, parent: ObjectId, keys: Seq<ObjectId>) -> Seq<ChildEntry>
    decreases keys.len(),
{
    if keys.len() == 0 {
        Seq::empty()
    } else {
        let rest = group_entries(p, parent, keys.drop_last());
        let g = p.groups@[keys.last()];
        if g.parent_group_id == Some(parent) {
            rest.push((g.sibling_order, g.id, ObjectRef::Group(g.id)))
        } else {
            rest
        }
    }
}

/// Entries of the shapes under the given keys whose parent is `parent`, in key order.
pub open spec fn shape_entries(p: Project, parent: ObjectId, keys: Seq<ObjectId>) -> Seq<ChildEntry>
    decreases keys.len(),
{
    if keys.len() == 0 {
        Seq::empty()
    } else {
        let rest = shape_entries(p, parent, keys.drop_last());
        let s = p.shapes@[keys.last()];
        if s.parent_group_id == parent {
            rest.push((s.sibling_order, s.id, ObjectRef::Shape(s.id)))
        } else {
            rest
        }
    }
}

/// Entries of the pieces under the given keys whose parent is `parent`, in key order.
pub open spec fn piece_entries(p: Project, parent: ObjectId, keys: Seq<ObjectId>) -> Seq<ChildEntry>
    decreases keys.len(),
{
    if keys.len() == 0 {
        Seq::empty()
    } else {
        let rest = piece_entries(p, parent, keys.drop_last());
        let q = p.pieces@[keys.last()];
        if q.parent_group_id == parent {
            rest.push((q.sibling_order, q.id, ObjectRef::Piece(q.id)))
        } else {
            rest
        }
    }
}

/// The children of `parent`: its groups, then its shapes, then its pieces, each by id.
pub open spec fn child_entries(p: Project, parent: ObjectId) -> Seq<ChildEntry> {
    group_entries(p, parent, sorted_ids_of(p.groups@.dom())) + shape_entries(
        p,
        parent,
        sorted_ids_of(p.shapes@.dom()),
    ) + piece_entries(p, parent, sorted_ids_of(p.pieces@.dom()))
}

/// The children of `parent` in listing order.
pub open spec fn children_of(p: Project, parent: ObjectId) -> Seq<ObjectRef> {
    sort_entries(child_entries(p, parent)).map_values(|e: ChildEntry| e.2)
}

/// Inserting into the position found by scanning back from the end.
proof fn lemma_insert_entry_at(s: Seq<ChildEntry>, e: ChildEntry, j: int)
    requires
        0 <= j <= s.len(),
        forall|m: int| j <= m < s.len() ==> !entry_le(#[trigger] s[m], e),
        j == 0 || entry_le(s[j - 1], e),
    ensures
        insert_entry(s, e) == s.insert(j, e),
    decreases s.len(),
{
    if s.len() == j {
        if s.len() == 0 {
            assert(s.insert(j, e) =~= seq![e]);
        } else {
            assert(s.insert(j, e) =~= s.push(e));
        }
    } else {
        let t = s.drop_last();
        assert forall|m: int| j <= m < t.len() implies !entry_le(#[trigger] t[m], e) by {
            assert(t[m] == s[m]);
        }
        lemma_insert_entry_at(t, e, j);
        assert(!entry_le(s[s.len() - 1], e));
        assert(s.insert(j, e) =~= t.insert(j, e).push(s.last()));
    }
}

/// Inserts an entry into a sorted listing, after the entries that do not come after it.
fn insert_child(v: &mut Vec<ChildEntry>, e: ChildEntry)
    ensures
        final(v)@ == insert_entry(old(v)@, e),
{
    let mut j = v.len();
    while j > 0 && !entry_less_eq(v[j - 1], e)
        invariant
            0 <= j <= v@.len(),
            v@ == old(v)@,
            forall|m: int| j <= m < v@.len() ==> !entry_le(#[trigger] v@[m], e),
        decreases j,
    {
        j = j - 1;
    }
    proof {
        lemma_insert_entry_at(v@, e, j as int);
    }
    v.insert(j, e);
}

/// `b` is `a` after writing sibling orders `0, 1, ...` to the first `n` objects of `list`,
/// a later position winning for an object listed twice.
pub open spec fn orders_assigned(a: Project, b: Project, list: Seq<ObjectRef>, n: int) -> bool {
    &&& same_header(a, b)
    &&& b.next_id == a.next_id
    &&& b.groups@.dom() == a.groups@.dom()
    &&& b.shapes@.dom() == a.shapes@.dom()
    &&& b.pieces@.dom() == a.pieces@.dom()
    &&& forall|k: ObjectId| #[trigger]
        b.groups@.contains_key(k) ==> b.groups@[k] == match last_index(
            list,
            n,
            ObjectRef::Group(k),
        ) {
            Some(i) => crate::model::Group { sibling_order: i as u64, ..a.groups@[k] },
            None => a.groups@[k],
        }
    &&& forall|k: ObjectId| #[trigger]
        b.shapes@.contains_key(k) ==> b.shapes@[k] == match last_index(
            list,
            n,
            ObjectRef::Shape(k),
        ) {
            Some(i) => crate::model::Shape { sibling_order: i as u64, ..a.shapes@[k] },
            None => a.shapes@[k],
        }
    &&& forall|k: ObjectId| #[trigger]
        b.pieces@.contains_key(k) ==> b.pieces@[k] == match last_index(
            list,
            n,
            ObjectRef::Piece(k),
        ) {
            Some(i) => crate::model::Piece { sibling_order: i as u64, ..a.pieces@[k] },
            None => a.pieces@[k],
        }
}

/// The last position before `n` at which `list` holds `object`.
pub open spec fn last_index(list: Seq<ObjectRef>, n: int, object: ObjectRef) -> Option<int>
    decreases n,
{
    if n <= 0 {
        None
    } else if list[n - 1] == object {
        Some(n - 1)
    } else {
        last_index(list, n - 1, object)
    }
}

/// The first position of `list` holding an object the project does not store, or its length.
pub open spec fn first_missing(p: Project, list: Seq<ObjectRef>) -> int {
    if exists|i: int| 0 <= i < list.len() && !object_exists(p, #[trigger] list[i]) {
        choose|i: int|
            0 <= i < list.len() && !object_exists(p, #[trigger] list[i]) && forall|j: int|
                0 <= j < i ==> object_exists(p, #[trigger] list[j])
    } else {
        list.len() as int
    }
}

/// Every element of `list` except `object`, in order.
pub open spec fn without(list: Seq<ObjectRef>, object: ObjectRef) -> Seq<ObjectRef>
    decreases list.len(),
{
    if list.len() == 0 {
        Seq::empty()
    } else if list.last() == object {
        without(list.drop_last(), object)
    } else {
        without(list.drop_last(), object).push(list.last())
    }
}

/// The first position of `object` in `list`.
pub open spec fn first_index(list: Seq<ObjectRef>, object: ObjectRef) -> int {
    choose|i: int|
        0 <= i < list.len() && list[i] == object && forall|j: int|
            0 <= j < i ==> #[trigger] list[j] != object
}

proof fn lemma_orders_step(mid: Project, before: Project, after: Project, list: Seq<ObjectRef>, i: int)
    requires
        0 <= i < list.len(),
        orders_assigned(mid, before, list, i),
        object_exists(before, list[i]),
        crate::project::object_changed(
            before,
            after,
            list[i],
            |a: crate::model::Group, b: crate::model::Group|
                b == (crate::model::Group { sibling_order: i as u64, ..a }),
            |a: crate::model::Shape, b: crate::model::Shape|
                b == (crate::model::Shape { sibling_order: i as u64, ..a }),
            |a: crate::model::Piece, b: crate::model::Piece|
                b == (crate::model::Piece { sibling_order: i as u64, ..a }),
        ),
    ensures
        orders_assigned(mid, after, list, i + 1),
{
    match list[i] {
        ObjectRef::Group(id) => {
            assert(after.groups@.dom() =~= before.groups@.dom());
        },
        ObjectRef::Shape(id) => {
            assert(after.shapes@.dom() =~= before.shapes@.dom());
        },
        ObjectRef::Piece(id) => {
            assert(after.pieces@.dom() =~= before.pieces@.dom());
        },
    }
    assert forall|k: ObjectId| #[trigger] after.groups@.contains_key(k) implies after.groups@[k] == match last_index(list, i + 1, ObjectRef::Group(k)) {
        Some(j) => crate::model::Group { sibling_order: j as u64, ..mid.groups@[k] },
        None => mid.groups@[k],
    } by {
        assert(before.groups@.contains_key(k));
    }
    assert forall|k: ObjectId| #[trigger] after.shapes@.contains_key(k) implies after.shapes@[k] == match last_index(list, i + 1, ObjectRef::Shape(k)) {
        Some(j) => crate::model::Shape { sibling_order: j as u64, ..mid.shapes@[k] },
        None => mid.shapes@[k],
    } by {
        assert(before.shapes@.contains_key(k));
    }
    assert forall|k: ObjectId| #[trigger] after.pieces@.contains_key(k) implies after.pieces@[k] == match last_index(list, i + 1, ObjectRef::Piece(k)) {
        Some(j) => crate::model::Piece { sibling_order: j as u64, ..mid.pieces@[k] },
        None => mid.pieces@[k],
    } by {
        assert(before.pieces@.contains_key(k));
    }
}

/// After the move has reparented `object` (the state `mid`): the new sibling listing and
/// the orders written to it, or the error that stops the rewriting.
pub open spec fn reorder_result(
    mid: Project,
    b: Project,
    object: ObjectRef,
    target: ObjectRef,
    parent: ObjectId,
    r: Result<(), DomainError>,
) -> bool {
    let rest = without(children_of(mid, parent), object);
    if !rest.contains(target) {
        r == Err::<(), DomainError>(DomainError::InvalidSiblingTarget(target)) && b == mid
    } else {
        let list = rest.insert(first_index(rest, target) + 1, object);
        let n = first_missing(mid, list);
        orders_assigned(mid, b, list, n) && if n < list.len() {
            r == Err::<(), DomainError>(not_found(list[n]))
        } else {
            r is Ok
        }
    }
}

impl Project {
    /// Writes the sibling order of a group, shape or piece.
    pub(crate) fn set_sibling_order(&mut self, object: ObjectRef, sibling_order: u64) -> (r: Result<
        (),
        DomainError,
    >)
        ensures
            crate::project::object_edit(
                *old(self),
                *final(self),
                object,
                r,
                |a: crate::model::Group, b: crate::model::Group|
                    b == (crate::model::Group { sibling_order, ..a }),
                |a: crate::model::Shape, b: crate::model::Shape|
                    b == (crate::model::Shape { sibling_order, ..a }),
                |a: crate::model::Piece, b: crate::model::Piece|
                    b == (crate::model::Piece { sibling_order, ..a }),
            ),
    {
        match object {
            ObjectRef::Group(id) => {
                if !self.groups.contains_key(&id) {
                    return Err(DomainError::GroupNotFound(id));
                }
                let mut group = self.groups.remove(&id).unwrap();
                group.sibling_order = sibling_order;
                self.groups.insert(id, group);
                proof {
                    assert(self.groups@ =~= old(self).groups@.insert(id, self.groups@[id]));
                }
            },
            ObjectRef::Shape(id) => {
                if !self.shapes.contains_key(&id) {
                    return Err(DomainError::ShapeNotFound(id));
                }
                let mut shape = self.shapes.remove(&id).unwrap();
                shape.sibling_order = sibling_order;
                self.shapes.insert(id, shape);
                proof {
                    assert(self.shapes@ =~= old(self).shapes@.insert(id, self.shapes@[id]));
                }
            },
            ObjectRef::Piece(id) => {
                if !self.pieces.contains_key(&id) {
                    return Err(DomainError::PieceNotFound(id));
                }
                let mut piece = self.pieces.remove(&id).unwrap();
                piece.sibling_order = sibling_order;
                self.pieces.insert(id, piece);
                proof {
                    assert(self.pieces@ =~= old(self).pieces@.insert(id, self.pieces@[id]));
                }
            },
        }
        Ok(())
    }

    /// The children of a group, sorted by sibling order and then by id; ties keep groups
    /// before shapes before pieces.
    pub fn child_objects(&self, parent_group_id: ObjectId) -> (r: Vec<ObjectRef>)
        ensures
            r@ == children_of(*self, parent_group_id),
    {
        let mut v: Vec<ChildEntry> = Vec::new();
        let group_ids = sorted_ids(&self.groups);
        let mut i: usize = 0;
        assert(group_ids@.take(0) =~= Seq::<ObjectId>::empty());
        while i < group_ids.len()
            invariant
                0 <= i <= group_ids.len(),
                group_ids@ == sorted_ids_of(self.groups@.dom()),
                group_ids@.to_set() == self.groups@.dom(),
                v@ == sort_entries(group_entries(*self, parent_group_id, group_ids@.take(i as int))),
            decreases group_ids.len() - i,
        {
            let k = group_ids[i];
            proof {
                assert(group_ids@.to_set().contains(k));
                assert(group_ids@.take(i + 1).drop_last() =~= group_ids@.take(i as int));
            }
            let g = self.groups.get(&k).unwrap();
            if g.parent_group_id == Some(parent_group_id) {
                let ghost before = group_entries(*self, parent_group_id, group_ids@.take(i as int));
                insert_child(&mut v, (g.sibling_order, g.id, ObjectRef::Group(g.id)));
                proof {
                    let e = (g.sibling_order, g.id, ObjectRef::Group(g.id));
                    assert(before.push(e).drop_last() =~= before);
                }
            }
            i = i + 1;
        }
        assert(group_ids@.take(group_ids@.len() as int) =~= group_ids@);
        let ghost gs = group_entries(*self, parent_group_id, group_ids@);
        let shape_ids = sorted_ids(&self.shapes);
        let mut i: usize = 0;
        assert(shape_ids@.take(0) =~= Seq::<ObjectId>::empty());
        assert(gs + Seq::<ChildEntry>::empty() =~= gs);
        while i < shape_ids.len()
            invariant
                0 <= i <= shape_ids.len(),
                gs == group_entries(*self, parent_group_id, sorted_ids_of(self.groups@.dom())),
                shape_ids@ == sorted_ids_of(self.shapes@.dom()),
                shape_ids@.to_set() == self.shapes@.dom(),
                v@ == sort_entries(gs + shape_entries(*self, parent_group_id, shape_ids@.take(i as int))),
            decreases shape_ids.len() - i,
        {
            let k = shape_ids[i];
            proof {
                assert(shape_ids@.to_set().contains(k));
                assert(shape_ids@.take(i + 1).drop_last() =~= shape_ids@.take(i as int));
            }
            let s = self.shapes.get(&k).unwrap();
            if s.parent_group_id == parent_group_id {
                let ghost before = shape_entries(*self, parent_group_id, shape_ids@.take(i as int));
                insert_child(&mut v, (s.sibling_order, s.id, ObjectRef::Shape(s.id)));
                proof {
                    let e = (s.sibling_order, s.id, ObjectRef::Shape(s.id));
                    assert((gs + before.push(e)).drop_last() =~= gs + before);
                    assert(gs + before.push(e) =~= (gs + before).push(e));
                }
            }
            i = i + 1;
        }
        assert(shape_ids@.take(shape_ids@.len() as int) =~= shape_ids@);
        let ghost ss = gs + shape_entries(*self, parent_group_id, shape_ids@);
        let piece_ids = sorted_ids(&self.pieces);
        let mut i: usize = 0;
        assert(piece_ids@.take(0) =~= Seq::<ObjectId>::empty());
        assert(ss + Seq::<ChildEntry>::empty() =~= ss);
        while i < piece_ids.len()
            invariant
                0 <= i <= piece_ids.len(),
                ss == group_entries(*self, parent_group_id, sorted_ids_of(self.groups@.dom()))
                    + shape_entries(*self, parent_group_id, sorted_ids_of(self.shapes@.dom())),
                piece_ids@ == sorted_ids_of(self.pieces@.dom()),
                piece_ids@.to_set() == self.pieces@.dom(),
                v@ == sort_entries(ss + piece_entries(*self, parent_group_id, piece_ids@.take(i as int))),
            decreases piece_ids.len() - i,
        {
            let k = piece_ids[i];
            proof {
                assert(piece_ids@.to_set().contains(k));
                assert(piece_ids@.take(i + 1).drop_last() =~= piece_ids@.take(i as int));
            }
            let q = self.pieces.get(&k).unwrap();
            if q.parent_group_id == parent_group_id {
                let ghost before = piece_entries(*self, parent_group_id, piece_ids@.take(i as int));
                insert_child(&mut v, (q.sibling_order, q.id, ObjectRef::Piece(q.id)));
                proof {
                    let e = (q.sibling_order, q.id, ObjectRef::Piece(q.id));
                    assert((ss + before.push(e)).drop_last() =~= ss + before);
                    assert(ss + before.push(e) =~= (ss + before).push(e));
                }
            }
            i = i + 1;
        }
        assert(piece_ids@.take(piece_ids@.len() as int) =~= piece_ids@);
        let mut r: Vec<ObjectRef> = Vec::new();
        let mut i: usize = 0;
        while i < v.len()
            invariant
                0 <= i <= v.len(),
                r@ == v@.take(i as int).map_values(|e: ChildEntry| e.2),
            decreases v.len() - i,
        {
            r.push(v[i].2);
            proof {
                assert(v@.take(i + 1).map_values(|e: ChildEntry| e.2) =~= v@.take(i as int).map_values(
                    |e: ChildEntry| e.2,
                ).push(v@[i as int].2));
            }
            i = i + 1;
        }
        assert(v@.take(v@.len() as int) =~= v@);
        r
    }

    /// Moves `object` right after `target` among the children of `target`'s parent,
    /// reparenting it first when needed, and renumbers those children `0, 1, ...`.
    pub fn move_object_after(&mut self, object: ObjectRef, target: ObjectRef) -> (r: Result<
        (),
        DomainError,
    >)
        requires
            (object != target && object_exists(*old(self), target) && parent_of(
                *old(self),
                target,
            ) is Some) ==> reparent_walk_ends(*old(self), object, parent_of(*old(self), target)->0),
        ensures
            if object == target {
                r == Err::<(), DomainError>(DomainError::InvalidSiblingTarget(target)) && *final(self)
                    == *old(self)
            } else if !object_exists(*old(self), target) {
                r == Err::<(), DomainError>(not_found(target)) && *final(self) == *old(self)
            } else if parent_of(*old(self), target) is None {
                r == Err::<(), DomainError>(DomainError::InvalidSiblingTarget(target)) && *final(self)
                    == *old(self)
            } else {
                exists|mid: Project, rr: Result<(), DomainError>|
                    #![trigger reparent_result(*old(self), mid, object, parent_of(*old(self), target)->0, rr)]
                    reparent_result(*old(self), mid, object, parent_of(*old(self), target)->0, rr) && if rr is Err {
                        r == rr && *final(self) == mid
                    } else {
                        reorder_result(mid, *final(self), object, target, parent_of(*old(self), target)->0, r)
                    }
            },
    {
        if object == target {
            return Err(DomainError::InvalidSiblingTarget(target));
        }
        let parent_group_id = match self.object_parent_group(target) {
            Ok(Some(parent)) => parent,
            Ok(None) => return Err(DomainError::InvalidSiblingTarget(target)),
            Err(e) => return Err(e),
        };
        let rr = self.reparent_object(object, parent_group_id);
        let ghost mid = *self;
        proof {
            assert(reparent_result(*old(self), mid, object, parent_group_id, rr));
        }
        if let Err(e) = rr {
            return Err(e);
        }
        let siblings = self.child_objects(parent_group_id);
        let mut rest: Vec<ObjectRef> = Vec::new();
        let mut i: usize = 0;
        while i < siblings.len()
            invariant
                0 <= i <= siblings.len(),
                rest@ == without(siblings@.take(i as int), object),
            decreases siblings.len() - i,
        {
            proof {
                assert(siblings@.take(i + 1).drop_last() =~= siblings@.take(i as int));
            }
            if siblings[i] != object {
                rest.push(siblings[i]);
            }
            i = i + 1;
        }
        assert(siblings@.take(siblings@.len() as int) =~= siblings@);
        let mut idx: usize = 0;
        while idx < rest.len() && rest[idx] != target
            invariant
                0 <= idx <= rest.len(),
                forall|j: int| 0 <= j < idx ==> rest@[j] != target,
            decreases rest.len() - idx,
        {
            idx = idx + 1;
        }
        if idx == rest.len() {
            proof {
                assert(!rest@.contains(target));
            }
            return Err(DomainError::InvalidSiblingTarget(target));
        }
        proof {
            assert(rest@.contains(target));
            let f = first_index(rest@, target);
            assert(f == idx);
        }
        let ghost rest_before = rest@;
        rest.insert(idx + 1, object);
        let ghost list = rest@;
        proof {
            assert(orders_assigned(mid, *self, list, 0));
        }
        let mut i: usize = 0;
        while i < rest.len()
            invariant
                0 <= i <= rest.len(),
                rest@ == list,
                reparent_result(*old(self), mid, object, parent_group_id, rr),
                rr is Ok,
                object != target,
                object_exists(*old(self), target),
                parent_of(*old(self), target) == Some(parent_group_id),
                rest_before == without(children_of(mid, parent_group_id), object),
                rest_before.contains(target),
                list == rest_before.insert(first_index(rest_before, target) + 1, object),
                orders_assigned(mid, *self, list, i as int),
                forall|j: int| 0 <= j < i ==> object_exists(mid, #[trigger] list[j]),
            decreases rest.len() - i,
        {
            let item = rest[i];
            let ghost before = *self;
            match self.set_sibling_order(item, i as u64) {
                Ok(()) => {
                    proof {
                        lemma_orders_step(mid, before, *self, list, i as int);
                    }
                },
                Err(e) => {
                    proof {
                        assert(!object_exists(mid, list[i as int]));
                        let c = first_missing(mid, list);
                        assert(0 <= c < list.len() && !object_exists(mid, list[c]));
                        if c < i {
                            assert(object_exists(mid, list[c]));
                        }
                        if c > i {
                            assert(object_exists(mid, list[i as int]));
                        }
                        assert(c == i);
                        assert(reorder_result(mid, *self, object, target, parent_group_id, Err(e)));
                        assert(parent_of(*old(self), target)->0 == parent_group_id);
                        assert(reparent_result(*old(self), mid, object, parent_of(*old(self), target)->0, rr));
                        assert(exists|mid: Project, rr: Result<(), DomainError>|
                            #![trigger reparent_result(*old(self), mid, object, parent_of(*old(self), target)->0, rr)]
                            reparent_result(*old(self), mid, object, parent_of(*old(self), target)->0, rr) && if rr is Err {
                                Err::<(), DomainError>(e) == rr && *self == mid
                            } else {
                                reorder_result(mid, *self, object, target, parent_of(*old(self), target)->0, Err::<(), DomainError>(e))
                            });
                    }
                    return Err(e);
                },
            }
            i = i + 1;
        }
        proof {
            assert(!exists|j: int| 0 <= j < list.len() && !object_exists(mid, #[trigger] list[j]));
            assert(reorder_result(mid, *self, object, target, parent_group_id, Ok(())));
        }
        Ok(())
    }
}

} // verus!
