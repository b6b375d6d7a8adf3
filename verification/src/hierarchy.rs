//! The group hierarchy: parents, moving objects between groups, and the order of siblings.

use vstd::prelude::*;

use crate::model::{DomainError, Group, ObjectId, ObjectRef};
use crate::project::{
    group_set, next_sibling_order_of, not_found, object_exists, piece_set, shape_set, Project,
};

verus! {

broadcast use vstd::std_specs::btree::group_btree_axioms, vstd::laws_cmp::group_laws_cmp;

/// The parent group of an existing object; a group may have none.
pub open spec fn parent_of(p: Project, object: ObjectRef) -> Option<ObjectId> {
    match object {
        ObjectRef::Group(id) => p.groups@[id].parent_group_id,
        ObjectRef::Shape(id) => Some(p.shapes@[id].parent_group_id),
        ObjectRef::Piece(id) => Some(p.pieces@[id].parent_group_id),
    }
}

/// Following parent links `n` times from `start`; the walk ends (`None`) at a group without
/// a parent or at an id that names no group.
pub open spec fn ancestor_at(groups: Map<ObjectId, Group>, start: ObjectId, n: nat) -> Option<
    ObjectId,
>
    decreases n,
{
    if n == 0 {
        Some(start)
    } else {
        match ancestor_at(groups, start, (n - 1) as nat) {
            Some(g) => if groups.contains_key(g) {
                groups[g].parent_group_id
            } else {
                None
            },
            None => None,
        }
    }
}

/// `id` is `start` or one of its ancestors.
pub open spec fn reaches(groups: Map<ObjectId, Group>, start: ObjectId, id: ObjectId) -> bool {
    exists|n: nat| ancestor_at(groups, start, n) == Some(id)
}

/// The walk up from `start` ends, or meets `id`, after finitely many steps.
pub open spec fn walk_stops(groups: Map<ObjectId, Group>, start: ObjectId, id: ObjectId) -> bool {
    exists|n: nat|
        #![trigger ancestor_at(groups, start, n)]
        ancestor_at(groups, start, n) is None || ancestor_at(groups, start, n) == Some(id)
}

/// Once the walk has ended it stays ended.
pub proof fn lemma_ancestor_none_stays(groups: Map<ObjectId, Group>, start: ObjectId, m: nat, n: nat)
    requires
        m <= n,
        ancestor_at(groups, start, m) is None,
    ensures
        ancestor_at(groups, start, n) is None,
    decreases n - m,
{
    if m < n {
        lemma_ancestor_none_stays(groups, start, m, (n - 1) as nat);
    }
}

/// The requirement of `reparent_object`: moving a group that could be moved, the walk
/// from the new parent up the hierarchy ends or meets the group.
pub open spec fn reparent_walk_ends(p: Project, object: ObjectRef, new_parent: ObjectId) -> bool {
    match object {
        ObjectRef::Group(id) => (id != p.assembly.root_group_id && p.groups@.contains_key(id)
            && p.groups@.contains_key(new_parent)) ==> walk_stops(p.groups@, new_parent, id),
        _ => true,
    }
}

/// What `reparent_object` does.
pub open spec fn reparent_result(
    a: Project,
    b: Project,
    object: ObjectRef,
    new_parent: ObjectId,
    r: Result<(), DomainError>,
) -> bool {
    if !a.groups@.contains_key(new_parent) {
        r == Err::<(), DomainError>(DomainError::GroupNotFound(new_parent)) && b == a
    } else if !object_exists(a, object) {
        r == Err::<(), DomainError>(not_found(object)) && b == a
    } else {
        let changed = parent_of(a, object) != Some(new_parent);
        let order = next_sibling_order_of(a, new_parent);
        match object {
            ObjectRef::Group(id) => if id == a.assembly.root_group_id {
                r == Err::<(), DomainError>(DomainError::CannotReparentRootGroup) && b == a
            } else if reaches(a.groups@, new_parent, id) {
                r == Err::<(), DomainError>(DomainError::HierarchyCycle(id)) && b == a
            } else {
                r is Ok && group_set(
                    a,
                    b,
                    id,
                    Group {
                        parent_group_id: Some(new_parent),
                        sibling_order: if changed {
                            order
                        } else {
                            a.groups@[id].sibling_order
                        },
                        ..a.groups@[id]
                    },
                )
            },
            ObjectRef::Shape(id) => r is Ok && shape_set(
                a,
                b,
                id,
                crate::model::Shape {
                    parent_group_id: new_parent,
                    sibling_order: if changed {
                        order
                    } else {
                        a.shapes@[id].sibling_order
                    },
                    ..a.shapes@[id]
                },
            ),
            ObjectRef::Piece(id) => r is Ok && piece_set(
                a,
                b,
                id,
                crate::model::Piece {
                    parent_group_id: new_parent,
                    sibling_order: if changed {
                        order
                    } else {
                        a.pieces@[id].sibling_order
                    },
                    ..a.pieces@[id]
                },
            ),
        }
    }
}

impl Project {
    /// The parent group of an object, `None` for a group without a parent.
    pub(crate) fn object_parent_group(&self, object: ObjectRef) -> (r: Result<
        Option<ObjectId>,
        DomainError,
    >)
        ensures
            r == if object_exists(*self, object) {
                Ok::<Option<ObjectId>, DomainError>(parent_of(*self, object))
            } else {
                Err(not_found(object))
            },
    {
        match object {
            ObjectRef::Group(id) => match self.groups.get(&id) {
                Some(group) => Ok(group.parent_group_id),
                None => Err(DomainError::GroupNotFound(id)),
            },
            ObjectRef::Shape(id) => match self.shapes.get(&id) {
                Some(shape) => Ok(Some(shape.parent_group_id)),
                None => Err(DomainError::ShapeNotFound(id)),
            },
            ObjectRef::Piece(id) => match self.pieces.get(&id) {
                Some(piece) => Ok(Some(piece.parent_group_id)),
                None => Err(DomainError::PieceNotFound(id)),
            },
        }
    }

    /// Whether walking up from `start` meets `id`.
    fn walk_meets(&self, start: ObjectId, id: ObjectId) -> (r: bool)
        requires
            walk_stops(self.groups@, start, id),
        ensures
            r == reaches(self.groups@, start, id),
    {
        let ghost bound: nat = choose|n: nat|
            #![trigger ancestor_at(self.groups@, start, n)]
            ancestor_at(self.groups@, start, n) is None || ancestor_at(self.groups@, start, n) == Some(
                id,
            );
        let ghost mut steps: nat = 0;
        let mut ancestor: Option<ObjectId> = Some(start);
        loop
            invariant
                ancestor == ancestor_at(self.groups@, start, steps),
                steps <= bound,
                ancestor_at(self.groups@, start, bound) is None || ancestor_at(self.groups@, start, bound)
                    == Some(id),
                forall|m: nat| m < steps ==> ancestor_at(self.groups@, start, m) != Some(id),
            decreases bound - steps,
        {
            match ancestor {
                None => {
                    proof {
                        assert forall|n: nat| ancestor_at(self.groups@, start, n) != Some(id) by {
                            if n >= steps {
                                lemma_ancestor_none_stays(self.groups@, start, steps, n);
                            }
                        }
                    }
                    return false;
                },
                Some(group_id) => {
                    if group_id == id {
                        return true;
                    }
                    ancestor = match self.groups.get(&group_id) {
                        Some(group) => group.parent_group_id,
                        None => None,
                    };
                    proof {
                        steps = steps + 1;
                    }
                },
            }
        }
    }

    /// Moves an object under another group. A group cannot move under itself or one of its
    /// descendants, and the root group cannot move. An object that changes parent goes after
    /// the last child of its new parent.
    pub fn reparent_object(&mut self, object: ObjectRef, new_parent_group_id: ObjectId) -> (r:
        Result<(), DomainError>)
        requires
            reparent_walk_ends(*old(self), object, new_parent_group_id),
        ensures
            reparent_result(*old(self), *final(self), object, new_parent_group_id, r),
    {
        self.require_group(new_parent_group_id)?;
        let parent_changed = match self.object_parent_group(object) {
            Ok(parent) => parent != Some(new_parent_group_id),
            Err(e) => return Err(e),
        };
        let sibling_order = self.next_sibling_order(new_parent_group_id);
        match object {
            ObjectRef::Group(id) => {
                if id == self.root_group_id() {
                    return Err(DomainError::CannotReparentRootGroup);
                }
                self.require_group(id)?;
                if self.walk_meets(new_parent_group_id, id) {
                    return Err(DomainError::HierarchyCycle(id));
                }
                let mut group = self.groups.remove(&id).unwrap();
                group.parent_group_id = Some(new_parent_group_id);
                if parent_changed {
                    group.sibling_order = sibling_order;
                }
                self.groups.insert(id, group);
                proof {
                    assert(self.groups@ =~= old(self).groups@.insert(id, self.groups@[id]));
                }
            },
            ObjectRef::Shape(id) => {
                let mut shape = self.shapes.remove(&id).unwrap();
                shape.parent_group_id = new_parent_group_id;
                if parent_changed {
                    shape.sibling_order = sibling_order;
                }
                self.shapes.insert(id, shape);
                proof {
                    assert(self.shapes@ =~= old(self).shapes@.insert(id, self.shapes@[id]));
                }
            },
            ObjectRef::Piece(id) => {
                let mut piece = self.pieces.remove(&id).unwrap();
                piece.parent_group_id = new_parent_group_id;
                if parent_changed {
                    piece.sibling_order = sibling_order;
                }
                self.pieces.insert(id, piece);
                proof {
                    assert(self.pieces@ =~= old(self).pieces@.insert(id, self.pieces@[id]));
                }
            },
        }
        Ok(())
    }
}

} // verus!
