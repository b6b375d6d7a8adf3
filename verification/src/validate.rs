//! Checking a project: the root group, ids, rotations, parents, cycles, planarity and the
//! id counter.

use std::collections::BTreeSet;
use vstd::prelude::*;

use crate::model::{planarity_check, DomainError, Group, ObjectId, ObjectRef};
use crate::ordered::sorted_ids;
use crate::project::Project;

verus! {

broadcast use vstd::std_specs::btree::group_btree_axioms, vstd::laws_cmp::group_laws_cmp;

/// The error the walk up from `current` (the parent of group `id`) meets: a group visited
/// twice, or an id naming no group. `seen` holds the groups already visited.
pub open spec fn walk_error(
    groups: Map<ObjectId, Group>,
    id: ObjectId,
    current: Option<ObjectId>,
    seen: Set<ObjectId>,
) -> Option<DomainError>
    decreases groups.dom().difference(seen).len(),
    when groups.dom().finite()
{
    match current {
        None => None,
        Some(g) => if seen.contains(g) {
            Some(DomainError::HierarchyCycle(id))
        } else if !groups.contains_key(g) {
            Some(DomainError::GroupNotFound(g))
        } else {
            proof {
                lemma_difference_shrinks(groups.dom(), seen, g);
            }
            walk_error(groups, id, groups[g].parent_group_id, seen.insert(g))
        },
    }
}

pub proof fn lemma_difference_shrinks(dom: Set<ObjectId>, seen: Set<ObjectId>, g: ObjectId)
    requires
        dom.finite(),
        dom.contains(g),
        !seen.contains(g),
    ensures
        dom.difference(seen.insert(g)).len() < dom.difference(seen).len(),
{
    assert(dom.difference(seen.insert(g)) =~= dom.difference(seen).remove(g));
    assert(dom.difference(seen).contains(g));
}

/// The first problem with the group stored under `k`.
pub open spec fn group_error(p: Project, k: ObjectId) -> Option<DomainError> {
    let g = p.groups@[k];
    let root = p.assembly.root_group_id;
    if g.id != k {
        Some(DomainError::ObjectIdMismatch { key: k, actual: g.id })
    } else if k == p.assembly.id {
        Some(DomainError::DuplicateObjectId(k))
    } else if !g.placement.rotation.spec_is_valid() {
        Some(DomainError::InvalidGridRotation(ObjectRef::Group(k)))
    } else if k != root && g.parent_group_id is None {
        Some(DomainError::GroupNotFound(k))
    } else if k != root && !p.groups@.contains_key(g.parent_group_id->0) {
        Some(DomainError::GroupNotFound(g.parent_group_id->0))
    } else {
        walk_error(p.groups@, k, g.parent_group_id, Set::empty())
    }
}

/// The first problem with the shape stored under `k`.
pub open spec fn shape_error(p: Project, k: ObjectId) -> Option<DomainError> {
    let s = p.shapes@[k];
    if s.id != k {
        Some(DomainError::ObjectIdMismatch { key: k, actual: s.id })
    } else if k == p.assembly.id || p.groups@.contains_key(k) {
        Some(DomainError::DuplicateObjectId(k))
    } else if !s.placement.rotation.spec_is_valid() {
        Some(DomainError::InvalidGridRotation(ObjectRef::Shape(k)))
    } else if !p.groups@.contains_key(s.parent_group_id) {
        Some(DomainError::GroupNotFound(s.parent_group_id))
    } else {
        None
    }
}

/// The first problem with the piece stored under `k`.
pub open spec fn piece_error(p: Project, k: ObjectId) -> Option<DomainError> {
    let q = p.pieces@[k];
    if q.id != k {
        Some(DomainError::ObjectIdMismatch { key: k, actual: q.id })
    } else if k == p.assembly.id || p.groups@.contains_key(k) || p.shapes@.contains_key(k) {
        Some(DomainError::DuplicateObjectId(k))
    } else if !q.placement.rotation.spec_is_valid() {
        Some(DomainError::InvalidGridRotation(ObjectRef::Piece(k)))
    } else if !p.groups@.contains_key(q.parent_group_id) {
        Some(DomainError::GroupNotFound(q.parent_group_id))
    } else {
        match planarity_check(q.id, q.plane, q.beads@) {
            Ok(_) => None,
            Err(e) => Some(e),
        }
    }
}

/// `k` is the least group key with a problem.
pub open spec fn first_bad_group(p: Project, k: ObjectId) -> bool {
    p.groups@.contains_key(k) && group_error(p, k) is Some && forall|j: ObjectId|
        #![trigger group_error(p, j)]
        p.groups@.contains_key(j) && j < k ==> group_error(p, j) is None
}

/// `k` is the least shape key with a problem.
pub open spec fn first_bad_shape(p: Project, k: ObjectId) -> bool {
    p.shapes@.contains_key(k) && shape_error(p, k) is Some && forall|j: ObjectId|
        #![trigger shape_error(p, j)]
        p.shapes@.contains_key(j) && j < k ==> shape_error(p, j) is None
}

/// `k` is the least piece key with a problem.
pub open spec fn first_bad_piece(p: Project, k: ObjectId) -> bool {
    p.pieces@.contains_key(k) && piece_error(p, k) is Some && forall|j: ObjectId|
        #![trigger piece_error(p, j)]
        p.pieces@.contains_key(j) && j < k ==> piece_error(p, j) is None
}

/// Every id in use: the assembly's and the keys of the three maps.
pub open spec fn used_ids(p: Project) -> Set<ObjectId> {
    set![p.assembly.id].union(p.groups@.dom()).union(p.shapes@.dom()).union(p.pieces@.dom())
}

/// The problem `validate` reports, if any: the root group first, then the groups, the
/// shapes and the pieces by increasing key, then the id counter.
pub open spec fn validation_error(p: Project) -> Option<DomainError> {
    let root = p.assembly.root_group_id;
    if root == 0 || !p.groups@.contains_key(root) {
        Some(DomainError::InvalidRootGroup(root))
    } else if p.groups@[root].parent_group_id is Some {
        Some(DomainError::InvalidRootGroup(p.groups@[root].id))
    } else if exists|k: ObjectId| first_bad_group(p, k) {
        group_error(p, choose|k: ObjectId| first_bad_group(p, k))
    } else if exists|k: ObjectId| first_bad_shape(p, k) {
        shape_error(p, choose|k: ObjectId| first_bad_shape(p, k))
    } else if exists|k: ObjectId| first_bad_piece(p, k) {
        piece_error(p, choose|k: ObjectId| first_bad_piece(p, k))
    } else if exists|id: ObjectId| used_ids(p).contains(id) && p.next_id <= id {
        Some(DomainError::InvalidNextId(p.next_id))
    } else {
        None
    }
}

/// Every stored rotation can be checked by `is_valid` without overflow.
pub open spec fn rotations_checkable(p: Project) -> bool {
    &&& forall|k: ObjectId| #[trigger]
        p.groups@.contains_key(k) ==> p.groups@[k].placement.rotation.abs_sums_fit()
    &&& forall|k: ObjectId| #[trigger]
        p.shapes@.contains_key(k) ==> p.shapes@[k].placement.rotation.abs_sums_fit()
    &&& forall|k: ObjectId| #[trigger]
        p.pieces@.contains_key(k) ==> p.pieces@[k].placement.rotation.abs_sums_fit()
}

impl Project {
    /// Whether every stored rotation can be checked by `is_valid` without overflow.
    pub fn rotations_in_range(&self) -> (r: bool)
        ensures
            r == rotations_checkable(*self),
    {
        let keys = sorted_ids(&self.groups);
        let mut i: usize = 0;
        while i < keys.len()
            invariant
                0 <= i <= keys.len(),
                keys@.to_set() == self.groups@.dom(),
                forall|j: int|
                    0 <= j < i ==> #[trigger] self.groups@[keys@[j]].placement.rotation.abs_sums_fit(),
            decreases keys.len() - i,
        {
            proof {
                assert(keys@.to_set().contains(keys@[i as int]));
            }
            if !self.groups.get(&keys[i]).unwrap().placement.rotation.abs_sums_in_range() {
                return false;
            }
            i = i + 1;
        }
        let shape_keys = sorted_ids(&self.shapes);
        let mut i: usize = 0;
        while i < shape_keys.len()
            invariant
                0 <= i <= shape_keys.len(),
                shape_keys@.to_set() == self.shapes@.dom(),
                forall|j: int|
                    0 <= j < i ==> #[trigger] self.shapes@[shape_keys@[j]].placement.rotation.abs_sums_fit(),
            decreases shape_keys.len() - i,
        {
            proof {
                assert(shape_keys@.to_set().contains(shape_keys@[i as int]));
            }
            if !self.shapes.get(&shape_keys[i]).unwrap().placement.rotation.abs_sums_in_range() {
                return false;
            }
            i = i + 1;
        }
        let piece_keys = sorted_ids(&self.pieces);
        let mut i: usize = 0;
        while i < piece_keys.len()
            invariant
                0 <= i <= piece_keys.len(),
                piece_keys@.to_set() == self.pieces@.dom(),
                forall|j: int|
                    0 <= j < i ==> #[trigger] self.pieces@[piece_keys@[j]].placement.rotation.abs_sums_fit(),
            decreases piece_keys.len() - i,
        {
            proof {
                assert(piece_keys@.to_set().contains(piece_keys@[i as int]));
            }
            if !self.pieces.get(&piece_keys[i]).unwrap().placement.rotation.abs_sums_in_range() {
                return false;
            }
            i = i + 1;
        }
        proof {
            assert forall|k: ObjectId| #[trigger] self.groups@.contains_key(k) implies self.groups@[k].placement.rotation.abs_sums_fit() by {
                assert(keys@.to_set().contains(k));
                let j = choose|j: int| 0 <= j < keys@.len() && keys@[j] == k;
                assert(self.groups@[keys@[j]].placement.rotation.abs_sums_fit());
            }
            assert forall|k: ObjectId| #[trigger] self.shapes@.contains_key(k) implies self.shapes@[k].placement.rotation.abs_sums_fit() by {
                assert(shape_keys@.to_set().contains(k));
                let j = choose|j: int| 0 <= j < shape_keys@.len() && shape_keys@[j] == k;
                assert(self.shapes@[shape_keys@[j]].placement.rotation.abs_sums_fit());
            }
            assert forall|k: ObjectId| #[trigger] self.pieces@.contains_key(k) implies self.pieces@[k].placement.rotation.abs_sums_fit() by {
                assert(piece_keys@.to_set().contains(k));
                let j = choose|j: int| 0 <= j < piece_keys@.len() && piece_keys@[j] == k;
                assert(self.pieces@[piece_keys@[j]].placement.rotation.abs_sums_fit());
            }
        }
        true
    }
}

impl Project {
    /// Walks up from the parent of group `id`, reporting a revisited group or a missing one.
    fn check_ancestry(&self, id: ObjectId, start: Option<ObjectId>) -> (r: Result<(), DomainError>)
        ensures
            r == match walk_error(self.groups@, id, start, Set::empty()) {
                None => Ok::<(), DomainError>(()),
                Some(e) => Err(e),
            },
    {
        let mut seen: BTreeSet<ObjectId> = BTreeSet::new();
        let mut current = start;
        proof {
            vstd::std_specs::btree::axiom_btree_map_view_finite_dom(self.groups);
        }
        loop
            invariant
                self.groups@.dom().finite(),
                seen@.subset_of(self.groups@.dom()),
                walk_error(self.groups@, id, start, Set::empty()) == walk_error(
                    self.groups@,
                    id,
                    current,
                    seen@,
                ),
            decreases self.groups@.dom().difference(seen@).len(),
        {
            match current {
                None => {
                    return Ok(());
                },
                Some(group_id) => {
                    let ghost before = seen@;
                    if !seen.insert(group_id) {
                        return Err(DomainError::HierarchyCycle(id));
                    }
                    match self.groups.get(&group_id) {
                        Some(group) => {
                            proof {
                                lemma_difference_shrinks(self.groups@.dom(), before, group_id);
                            }
                            current = group.parent_group_id;
                        },
                        None => {
                            return Err(DomainError::GroupNotFound(group_id));
                        },
                    }
                },
            }
        }
    }

    pub(crate) fn validate_map_id(&self, key: ObjectId, actual: ObjectId) -> (r: Result<(), DomainError>)
        ensures
            r == if key == actual {
                Ok::<(), DomainError>(())
            } else {
                Err(DomainError::ObjectIdMismatch { key, actual })
            },
    {
        if key == actual {
            Ok(())
        } else {
            Err(DomainError::ObjectIdMismatch { key, actual })
        }
    }

    /// Checks the project: its root group, then each group, shape and piece by increasing
    /// id (id matches key, no id used twice, valid rotation, existing parent, no cycle, and
    /// beads on the plane for pieces), then that the next id exceeds every id in use.
    pub fn validate(&self) -> (r: Result<(), DomainError>)
        requires
            rotations_checkable(*self),
        ensures
            r == match validation_error(*self) {
                None => Ok::<(), DomainError>(()),
                Some(e) => Err(e),
            },
    {
        let root_id = self.assembly.root_group_id;
        if root_id == 0 || !self.groups.contains_key(&root_id) {
            return Err(DomainError::InvalidRootGroup(root_id));
        }
        let root = self.groups.get(&root_id).unwrap();
        if root.parent_group_id.is_some() {
            return Err(DomainError::InvalidRootGroup(root.id));
        }
        let mut ids: BTreeSet<ObjectId> = BTreeSet::new();
        ids.insert(self.assembly.id);
        let mut max_id = self.assembly.id;
        let group_ids = sorted_ids(&self.groups);
        let mut i: usize = 0;
        while i < group_ids.len()
            invariant
                0 <= i <= group_ids.len(),
                crate::ordered::enumerates(group_ids@, self.groups@.dom()),
                rotations_checkable(*self),
                root_id == self.assembly.root_group_id,
                root_id != 0,
                self.groups@.contains_key(root_id),
                self.groups@[root_id].parent_group_id is None,
                ids@ == set![self.assembly.id].union(group_ids@.take(i as int).to_set()),
                ids@.contains(max_id),
                forall|x: ObjectId| ids@.contains(x) ==> x <= max_id,
                forall|j: int| 0 <= j < i ==> group_error(*self, #[trigger] group_ids@[j]) is None,
            decreases group_ids.len() - i,
        {
            let k = group_ids[i];
            proof {
                assert(group_ids@.to_set().contains(k));
                crate::ordered::lemma_take_to_set(group_ids@, i as int);
            }
            let group = self.groups.get(&k).unwrap();
            let checked = self.check_group(k, group, &mut ids);
            if let Err(e) = checked {
                proof {
                    self.lemma_group_is_first_bad(group_ids@, i as int);
                }
                return Err(e);
            }
            if k > max_id {
                max_id = k;
            }
            i = i + 1;
        }
        proof {
            assert(group_ids@.take(group_ids@.len() as int) =~= group_ids@);
            assert forall|k: ObjectId| !first_bad_group(*self, k) by {
                if self.groups@.contains_key(k) {
                    assert(group_ids@.to_set().contains(k));
                    let j = choose|j: int| 0 <= j < group_ids@.len() && group_ids@[j] == k;
                    assert(group_error(*self, group_ids@[j]) is None);
                }
            }
        }
        let shape_ids = sorted_ids(&self.shapes);
        let mut i: usize = 0;
        while i < shape_ids.len()
            invariant
                0 <= i <= shape_ids.len(),
                crate::ordered::enumerates(shape_ids@, self.shapes@.dom()),
                rotations_checkable(*self),
                self.assembly.root_group_id != 0,
                self.groups@.contains_key(self.assembly.root_group_id),
                self.groups@[self.assembly.root_group_id].parent_group_id is None,
                forall|k: ObjectId| !first_bad_group(*self, k),
                ids@ == set![self.assembly.id].union(self.groups@.dom()).union(shape_ids@.take(i as int).to_set()),
                ids@.contains(max_id),
                forall|x: ObjectId| ids@.contains(x) ==> x <= max_id,
                forall|j: int| 0 <= j < i ==> shape_error(*self, #[trigger] shape_ids@[j]) is None,
            decreases shape_ids.len() - i,
        {
            let k = shape_ids[i];
            proof {
                assert(shape_ids@.to_set().contains(k));
                crate::ordered::lemma_take_to_set(shape_ids@, i as int);
                assert(!shape_ids@.take(i as int).to_set().contains(k));
            }
            let shape = self.shapes.get(&k).unwrap();
            let mut failed: Option<DomainError> = None;
            if let Err(e) = self.validate_map_id(k, shape.id) {
                failed = Some(e);
            } else if !ids.insert(k) {
                failed = Some(DomainError::DuplicateObjectId(k));
            } else if !shape.placement.rotation.is_valid() {
                failed = Some(DomainError::InvalidGridRotation(ObjectRef::Shape(k)));
            } else if let Err(e) = self.require_group(shape.parent_group_id) {
                failed = Some(e);
            }
            if let Some(e) = failed {
                proof {
                    assert(shape_error(*self, k) == Some(e));
                    assert(first_bad_shape(*self, k));
                    let c = choose|c: ObjectId| first_bad_shape(*self, c);
                    lemma_first_bad_shape_unique(*self, c, k, shape_ids@, i as int);
                }
                return Err(e);
            }
            if k > max_id {
                max_id = k;
            }
            i = i + 1;
        }
        proof {
            assert(shape_ids@.take(shape_ids@.len() as int) =~= shape_ids@);
            assert forall|k: ObjectId| !first_bad_shape(*self, k) by {
                if self.shapes@.contains_key(k) {
                    assert(shape_ids@.to_set().contains(k));
                    let j = choose|j: int| 0 <= j < shape_ids@.len() && shape_ids@[j] == k;
                    assert(shape_error(*self, shape_ids@[j]) is None);
                }
            }
        }
        let piece_ids = sorted_ids(&self.pieces);
        let mut i: usize = 0;
        while i < piece_ids.len()
            invariant
                0 <= i <= piece_ids.len(),
                crate::ordered::enumerates(piece_ids@, self.pieces@.dom()),
                rotations_checkable(*self),
                self.assembly.root_group_id != 0,
                self.groups@.contains_key(self.assembly.root_group_id),
                self.groups@[self.assembly.root_group_id].parent_group_id is None,
                forall|k: ObjectId| !first_bad_group(*self, k),
                forall|k: ObjectId| !first_bad_shape(*self, k),
                ids@ == set![self.assembly.id].union(self.groups@.dom()).union(self.shapes@.dom()).union(
                    piece_ids@.take(i as int).to_set(),
                ),
                ids@.contains(max_id),
                forall|x: ObjectId| ids@.contains(x) ==> x <= max_id,
                forall|j: int| 0 <= j < i ==> piece_error(*self, #[trigger] piece_ids@[j]) is None,
            decreases piece_ids.len() - i,
        {
            let k = piece_ids[i];
            proof {
                assert(piece_ids@.to_set().contains(k));
                crate::ordered::lemma_take_to_set(piece_ids@, i as int);
                assert(!piece_ids@.take(i as int).to_set().contains(k));
            }
            let piece = self.pieces.get(&k).unwrap();
            let mut failed: Option<DomainError> = None;
            if let Err(e) = self.validate_map_id(k, piece.id) {
                failed = Some(e);
            } else if !ids.insert(k) {
                failed = Some(DomainError::DuplicateObjectId(k));
            } else if !piece.placement.rotation.is_valid() {
                failed = Some(DomainError::InvalidGridRotation(ObjectRef::Piece(k)));
            } else if let Err(e) = self.require_group(piece.parent_group_id) {
                failed = Some(e);
            } else if let Err(e) = piece.validate() {
                failed = Some(e);
            }
            if let Some(e) = failed {
                proof {
                    assert(piece_error(*self, k) == Some(e));
                    assert(first_bad_piece(*self, k));
                    let c = choose|c: ObjectId| first_bad_piece(*self, c);
                    lemma_first_bad_piece_unique(*self, c, k, piece_ids@, i as int);
                }
                return Err(e);
            }
            if k > max_id {
                max_id = k;
            }
            i = i + 1;
        }
        proof {
            assert(piece_ids@.take(piece_ids@.len() as int) =~= piece_ids@);
            assert forall|k: ObjectId| !first_bad_piece(*self, k) by {
                if self.pieces@.contains_key(k) {
                    assert(piece_ids@.to_set().contains(k));
                    let j = choose|j: int| 0 <= j < piece_ids@.len() && piece_ids@[j] == k;
                    assert(piece_error(*self, piece_ids@[j]) is None);
                }
            }
            assert(piece_ids@.to_set() == self.pieces@.dom());
            assert(ids@ =~= used_ids(*self));
        }
        if self.next_id <= max_id {
            return Err(DomainError::InvalidNextId(self.next_id));
        }
        Ok(())
    }

    /// The checks of one group, in order; `ids` gains the group's key.
    fn check_group(&self, k: ObjectId, group: &Group, ids: &mut BTreeSet<ObjectId>) -> (r: Result<(), DomainError>)
        requires
            self.groups@.contains_key(k),
            *group == self.groups@[k],
            group.placement.rotation.abs_sums_fit(),
            self.groups@.contains_key(self.assembly.root_group_id),
            self.groups@[self.assembly.root_group_id].parent_group_id is None,
            old(ids)@.contains(self.assembly.id),
            forall|x: ObjectId| #[trigger] old(ids)@.contains(x) && x != self.assembly.id ==> x < k,
        ensures
            r == match group_error(*self, k) {
                None => Ok::<(), DomainError>(()),
                Some(e) => Err(e),
            },
            r is Ok ==> final(ids)@ == old(ids)@.insert(k),
    {
        self.validate_map_id(k, group.id)?;
        if !ids.insert(k) {
            return Err(DomainError::DuplicateObjectId(k));
        }
        if !group.placement.rotation.is_valid() {
            return Err(DomainError::InvalidGridRotation(ObjectRef::Group(k)));
        }
        if k != self.root_group_id() {
            let parent = match group.parent_group_id {
                Some(parent) => parent,
                None => return Err(DomainError::GroupNotFound(k)),
            };
            self.require_group(parent)?;
        }
        self.check_ancestry(k, group.parent_group_id)
    }

    proof fn lemma_group_is_first_bad(&self, group_ids: Seq<ObjectId>, i: int)
        requires
            crate::ordered::enumerates(group_ids, self.groups@.dom()),
            0 <= i < group_ids.len(),
            group_error(*self, group_ids[i]) is Some,
            forall|j: int| 0 <= j < i ==> group_error(*self, #[trigger] group_ids[j]) is None,
        ensures
            (choose|c: ObjectId| first_bad_group(*self, c)) == group_ids[i],
            exists|c: ObjectId| first_bad_group(*self, c),
    {
        let k = group_ids[i];
        assert(group_ids.to_set().contains(k));
        assert forall|j: ObjectId| #![trigger group_error(*self, j)]
            self.groups@.contains_key(j) && j < k implies group_error(*self, j) is None by {
            assert(group_ids.to_set().contains(j));
            let m = choose|m: int| 0 <= m < group_ids.len() && group_ids[m] == j;
            if m >= i {
                assert(group_ids[i] <= group_ids[m]);
            }
            assert(group_error(*self, group_ids[m]) is None);
        }
        assert(first_bad_group(*self, k));
        let c = choose|c: ObjectId| first_bad_group(*self, c);
        if c < k {
            assert(group_error(*self, c) is None);
        }
        if k < c {
            assert(group_error(*self, k) is None);
        }
    }
}

proof fn lemma_first_bad_shape_unique(p: Project, c: ObjectId, k: ObjectId, ids: Seq<ObjectId>, i: int)
    requires
        first_bad_shape(p, c),
        crate::ordered::enumerates(ids, p.shapes@.dom()),
        0 <= i < ids.len(),
        ids[i] == k,
        shape_error(p, k) is Some,
        forall|j: int| 0 <= j < i ==> shape_error(p, #[trigger] ids[j]) is None,
    ensures
        c == k,
{
    assert(ids.to_set().contains(c));
    let m = choose|m: int| 0 <= m < ids.len() && ids[m] == c;
    if m < i {
        assert(shape_error(p, ids[m]) is None);
    } else if m > i {
        assert(ids[i] < ids[m]);
        assert(shape_error(p, k) is None);
    }
}

proof fn lemma_first_bad_piece_unique(p: Project, c: ObjectId, k: ObjectId, ids: Seq<ObjectId>, i: int)
    requires
        first_bad_piece(p, c),
        crate::ordered::enumerates(ids, p.pieces@.dom()),
        0 <= i < ids.len(),
        ids[i] == k,
        piece_error(p, k) is Some,
        forall|j: int| 0 <= j < i ==> piece_error(p, #[trigger] ids[j]) is None,
    ensures
        c == k,
{
    assert(ids.to_set().contains(c));
    let m = choose|m: int| 0 <= m < ids.len() && ids[m] == c;
    if m < i {
        assert(piece_error(p, ids[m]) is None);
    } else if m > i {
        assert(ids[i] < ids[m]);
        assert(piece_error(p, k) is None);
    }
}

} // verus!
