//! The project: one assembly, a hierarchy of groups, and the shapes and pieces in it.

use std::collections::BTreeMap;
use vstd::prelude::*;

use crate::geometry::{default_placement, Placement};
use crate::model::{Assembly, DomainError, Group, ObjectId, ObjectRef, OutputSettings, Piece, Shape};
use crate::ordered::sorted_ids;
use crate::validate::validation_error;

verus! {

broadcast use vstd::std_specs::btree::group_btree_axioms, vstd::laws_cmp::group_laws_cmp;

#[derive(Debug, PartialEq, Eq)]
pub struct Project {
    pub name: String,
    pub assembly: Assembly,
    pub groups: BTreeMap<ObjectId, Group>,
    pub shapes: BTreeMap<ObjectId, Shape>,
    pub pieces: BTreeMap<ObjectId, Piece>,
    pub output_settings: OutputSettings,
    pub next_id: ObjectId,
}

/// `v + 1`, saturating at `u64::MAX`.
pub open spec fn saturating_succ(v: u64) -> u64 {
    if v == u64::MAX {
        u64::MAX
    } else {
        (v + 1) as u64
    }
}

/// The root group a fresh project starts with.
pub open spec fn is_root_group(g: Group, id: ObjectId) -> bool {
    &&& g.id == id
    &&& g.name@ == seq!['R', 'o', 'o', 't']
    &&& g.parent_group_id is None
    &&& g.sibling_order == 0
    &&& g.placement == default_placement()
    &&& g.visible
}

/// The project's fields other than its three object maps and the id counter are unchanged.
pub open spec fn same_header(a: Project, b: Project) -> bool {
    &&& a.name == b.name
    &&& a.assembly == b.assembly
    &&& a.output_settings == b.output_settings
}

/// The two projects hold the same state: equal header fields and id counter, and object maps
/// with the same contents.
pub open spec fn same_project(a: Project, b: Project) -> bool {
    &&& same_header(a, b)
    &&& a.groups@ == b.groups@
    &&& a.shapes@ == b.shapes@
    &&& a.pieces@ == b.pieces@
    &&& a.next_id == b.next_id
}

impl Clone for Project {
    fn clone(&self) -> (r: Self)
        ensures
            same_project(r, *self),
    {
        Project {
            name: self.name.clone(),
            assembly: Assembly {
                id: self.assembly.id,
                name: self.assembly.name.clone(),
                root_group_id: self.assembly.root_group_id,
            },
            groups: self.groups.clone(),
            shapes: self.shapes.clone(),
            pieces: self.pieces.clone(),
            output_settings: self.output_settings,
            next_id: self.next_id,
        }
    }
}

/// Only the group map differs between the two projects.
pub open spec fn only_groups_differ(a: Project, b: Project) -> bool {
    same_header(a, b) && a.shapes@ == b.shapes@ && a.pieces@ == b.pieces@ && a.next_id == b.next_id
}

/// Only the shape map differs between the two projects.
pub open spec fn only_shapes_differ(a: Project, b: Project) -> bool {
    same_header(a, b) && a.groups@ == b.groups@ && a.pieces@ == b.pieces@ && a.next_id == b.next_id
}

/// Only the piece map differs between the two projects.
pub open spec fn only_pieces_differ(a: Project, b: Project) -> bool {
    same_header(a, b) && a.groups@ == b.groups@ && a.shapes@ == b.shapes@ && a.next_id == b.next_id
}

/// The sibling order stored for an object, found by its kind and id.
pub open spec fn lookup_order(p: Project, object: ObjectRef) -> Option<u64> {
    match object {
        ObjectRef::Group(id) => if p.groups@.contains_key(id) {
            Some(p.groups@[id].sibling_order)
        } else {
            None
        },
        ObjectRef::Shape(id) => if p.shapes@.contains_key(id) {
            Some(p.shapes@[id].sibling_order)
        } else {
            None
        },
        ObjectRef::Piece(id) => if p.pieces@.contains_key(id) {
            Some(p.pieces@[id].sibling_order)
        } else {
            None
        },
    }
}

/// Some stored object whose parent is `parent` carries the kind and the id of `object`
/// (the project lists `object` among the children of `parent`).
pub open spec fn listed_child(p: Project, parent: ObjectId, object: ObjectRef) -> bool {
    match object {
        ObjectRef::Group(id) => exists|k: ObjectId|
            #![trigger p.groups@[k]]
            p.groups@.contains_key(k) && p.groups@[k].parent_group_id == Some(parent)
                && p.groups@[k].id == id,
        ObjectRef::Shape(id) => exists|k: ObjectId|
            #![trigger p.shapes@[k]]
            p.shapes@.contains_key(k) && p.shapes@[k].parent_group_id == parent && p.shapes@[k].id
                == id,
        ObjectRef::Piece(id) => exists|k: ObjectId|
            #![trigger p.pieces@[k]]
            p.pieces@.contains_key(k) && p.pieces@[k].parent_group_id == parent && p.pieces@[k].id
                == id,
    }
}

/// `order` is the stored sibling order of some listed child of `parent`.
pub open spec fn child_order_taken(p: Project, parent: ObjectId, order: u64) -> bool {
    exists|object: ObjectRef|
        #![trigger lookup_order(p, object)]
        listed_child(p, parent, object) && lookup_order(p, object) == Some(order)
}

/// The largest sibling order among the listed children of `parent`.
pub open spec fn max_child_order(p: Project, parent: ObjectId, order: u64) -> bool {
    child_order_taken(p, parent, order) && forall|o: u64|
        #![trigger child_order_taken(p, parent, o)]
        child_order_taken(p, parent, o) ==> o <= order
}

/// The order a new child of `parent` receives: one past the largest order of its listed
/// children (saturating), or 0 when it has none.
pub open spec fn next_sibling_order_of(p: Project, parent: ObjectId) -> u64 {
    if exists|o: u64| child_order_taken(p, parent, o) {
        saturating_succ(choose|m: u64| max_child_order(p, parent, m))
    } else {
        0
    }
}

/// The order a new child receives depends only on the three object maps.
pub proof fn lemma_next_order_ignores_counter(a: Project, b: Project, parent: ObjectId)
    requires
        a.groups@ == b.groups@,
        a.shapes@ == b.shapes@,
        a.pieces@ == b.pieces@,
    ensures
        next_sibling_order_of(a, parent) == next_sibling_order_of(b, parent),
{
    assert forall|object: ObjectRef| #![trigger listed_child(a, parent, object)] #![trigger listed_child(b, parent, object)]
        listed_child(a, parent, object) == listed_child(b, parent, object) && lookup_order(a, object) == lookup_order(b, object) by {
    }
    assert forall|o: u64| #![trigger child_order_taken(a, parent, o)] #![trigger child_order_taken(b, parent, o)]
        child_order_taken(a, parent, o) == child_order_taken(b, parent, o) by {
        if child_order_taken(a, parent, o) {
            let object = choose|object: ObjectRef| #![trigger lookup_order(a, object)] listed_child(a, parent, object) && lookup_order(a, object) == Some(o);
            assert(listed_child(b, parent, object) && lookup_order(b, object) == Some(o));
        }
        if child_order_taken(b, parent, o) {
            let object = choose|object: ObjectRef| #![trigger lookup_order(b, object)] listed_child(b, parent, object) && lookup_order(b, object) == Some(o);
            assert(listed_child(a, parent, object) && lookup_order(a, object) == Some(o));
        }
    }
    assert forall|m: u64| #![trigger max_child_order(a, parent, m)] #![trigger max_child_order(b, parent, m)]
        max_child_order(a, parent, m) == max_child_order(b, parent, m) by {
    }
    if exists|o: u64| child_order_taken(a, parent, o) {
        let o = choose|o: u64| child_order_taken(a, parent, o);
        lemma_max_child_order_exists(a, parent, o);
        let ma = choose|m: u64| max_child_order(a, parent, m);
        let mb = choose|m: u64| max_child_order(b, parent, m);
        assert(max_child_order(b, parent, ma));
        assert(max_child_order(b, parent, mb));
        assert(child_order_taken(b, parent, ma));
        assert(child_order_taken(b, parent, mb));
    }
}

/// When some child of `parent` has an order, a largest one exists.
pub proof fn lemma_max_child_order_exists(p: Project, parent: ObjectId, o: u64)
    requires
        child_order_taken(p, parent, o),
    ensures
        exists|m: u64| max_child_order(p, parent, m),
    decreases u64::MAX - o,
{
    if forall|x: u64| #![trigger child_order_taken(p, parent, x)]
        child_order_taken(p, parent, x) ==> x <= o {
        assert(max_child_order(p, parent, o));
    } else {
        let x = choose|x: u64| child_order_taken(p, parent, x) && !(x <= o);
        lemma_max_child_order_exists(p, parent, x);
    }
}

/// A freshly created group.
pub open spec fn is_new_group(
    g: Group,
    id: ObjectId,
    name: Seq<char>,
    parent: ObjectId,
    sibling_order: u64,
) -> bool {
    &&& g.id == id
    &&& g.name@ == name
    &&& g.parent_group_id == Some(parent)
    &&& g.sibling_order == sibling_order
    &&& g.placement == default_placement()
    &&& g.visible
}

/// A freshly created, empty shape.
pub open spec fn is_new_shape(
    s: Shape,
    id: ObjectId,
    name: Seq<char>,
    parent: ObjectId,
    sibling_order: u64,
) -> bool {
    &&& s.id == id
    &&& s.name@ == name
    &&& s.parent_group_id == parent
    &&& s.sibling_order == sibling_order
    &&& s.placement == default_placement()
    &&& s.visible
    &&& s.beads@ == Map::<crate::geometry::BeadKey, crate::model::Color>::empty()
}

/// A freshly created, empty piece on `plane`.
pub open spec fn is_new_piece(
    q: Piece,
    id: ObjectId,
    name: Seq<char>,
    parent: ObjectId,
    sibling_order: u64,
    plane: crate::geometry::Plane,
) -> bool {
    &&& q.id == id
    &&& q.name@ == name
    &&& q.parent_group_id == parent
    &&& q.sibling_order == sibling_order
    &&& q.placement == (Placement { orientation: plane.spec_orientation(), ..default_placement() })
    &&& q.visible
    &&& q.plane == plane
    &&& q.beads@ == Map::<crate::geometry::BeadKey, crate::model::Color>::empty()
}

/// `b` is `a` with the group under `id` replaced by (or set to) `g`.
pub open spec fn group_set(a: Project, b: Project, id: ObjectId, g: Group) -> bool {
    only_groups_differ(a, b) && b.groups@ == a.groups@.insert(id, g)
}

/// `b` is `a` with the shape under `id` replaced by (or set to) `s`.
pub open spec fn shape_set(a: Project, b: Project, id: ObjectId, s: Shape) -> bool {
    only_shapes_differ(a, b) && b.shapes@ == a.shapes@.insert(id, s)
}

/// `b` is `a` with the piece under `id` replaced by (or set to) `q`.
pub open spec fn piece_set(a: Project, b: Project, id: ObjectId, q: Piece) -> bool {
    only_pieces_differ(a, b) && b.pieces@ == a.pieces@.insert(id, q)
}

/// Whether the project stores the referenced object under its id.
pub open spec fn object_exists(p: Project, object: ObjectRef) -> bool {
    match object {
        ObjectRef::Group(id) => p.groups@.contains_key(id),
        ObjectRef::Shape(id) => p.shapes@.contains_key(id),
        ObjectRef::Piece(id) => p.pieces@.contains_key(id),
    }
}

/// The error reported for a reference to an object the project does not store.
pub open spec fn not_found(object: ObjectRef) -> DomainError {
    match object {
        ObjectRef::Group(id) => DomainError::GroupNotFound(id),
        ObjectRef::Shape(id) => DomainError::ShapeNotFound(id),
        ObjectRef::Piece(id) => DomainError::PieceNotFound(id),
    }
}

/// The placement of the referenced object, when it exists.
pub open spec fn object_placement(p: Project, object: ObjectRef) -> Placement {
    match object {
        ObjectRef::Group(id) => p.groups@[id].placement,
        ObjectRef::Shape(id) => p.shapes@[id].placement,
        ObjectRef::Piece(id) => p.pieces@[id].placement,
    }
}

/// `b` is `a` with one field of the referenced object changed as `same_but` describes.
pub open spec fn object_changed(
    a: Project,
    b: Project,
    object: ObjectRef,
    group_ok: spec_fn(Group, Group) -> bool,
    shape_ok: spec_fn(Shape, Shape) -> bool,
    piece_ok: spec_fn(Piece, Piece) -> bool,
) -> bool {
    match object {
        ObjectRef::Group(id) => group_set(a, b, id, b.groups@[id]) && group_ok(
            a.groups@[id],
            b.groups@[id],
        ),
        ObjectRef::Shape(id) => shape_set(a, b, id, b.shapes@[id]) && shape_ok(
            a.shapes@[id],
            b.shapes@[id],
        ),
        ObjectRef::Piece(id) => piece_set(a, b, id, b.pieces@[id]) && piece_ok(
            a.pieces@[id],
            b.pieces@[id],
        ),
    }
}

/// The edit of one existing object either succeeds as described or reports the object
/// missing and changes nothing.
pub open spec fn object_edit(
    a: Project,
    b: Project,
    object: ObjectRef,
    r: Result<(), DomainError>,
    group_ok: spec_fn(Group, Group) -> bool,
    shape_ok: spec_fn(Shape, Shape) -> bool,
    piece_ok: spec_fn(Piece, Piece) -> bool,
) -> bool {
    if object_exists(a, object) {
        r is Ok && object_changed(a, b, object, group_ok, shape_ok, piece_ok)
    } else {
        r == Err::<(), DomainError>(not_found(object)) && b == a
    }
}

/// Some group, shape or piece names `id` as its parent group.
pub open spec fn group_has_children(p: Project, id: ObjectId) -> bool {
    ||| exists|k: ObjectId|
        #![trigger p.groups@[k]]
        p.groups@.contains_key(k) && p.groups@[k].parent_group_id == Some(id)
    ||| exists|k: ObjectId|
        #![trigger p.shapes@[k]]
        p.shapes@.contains_key(k) && p.shapes@[k].parent_group_id == id
    ||| exists|k: ObjectId|
        #![trigger p.pieces@[k]]
        p.pieces@.contains_key(k) && p.pieces@[k].parent_group_id == id
}

/// What `create_group` does: a new group under the counter's id, placed after the last child of
/// a stored parent, or a missing parent reported.
pub open spec fn create_group_result(
    a: Project,
    b: Project,
    parent_group_id: ObjectId,
    name: Seq<char>,
    r: Result<ObjectId, DomainError>,
) -> bool {
    match r {
        Ok(id) => {
            &&& a.groups@.contains_key(parent_group_id)
            &&& id == a.next_id
            &&& b.next_id == saturating_succ(a.next_id)
            &&& same_header(a, b)
            &&& b.shapes@ == a.shapes@
            &&& b.pieces@ == a.pieces@
            &&& b.groups@ == a.groups@.insert(id, b.groups@[id])
            &&& is_new_group(
                b.groups@[id],
                id,
                name,
                parent_group_id,
                next_sibling_order_of(a, parent_group_id),
            )
        },
        Err(e) => {
            &&& !a.groups@.contains_key(parent_group_id)
            &&& e == DomainError::GroupNotFound(parent_group_id)
            &&& b == a
        },
    }
}

/// What `create_shape_in_group` does: a new empty shape under the counter's id, placed after
/// the last child of a stored parent, or a missing parent reported.
pub open spec fn create_shape_result(
    a: Project,
    b: Project,
    parent_group_id: ObjectId,
    name: Seq<char>,
    r: Result<ObjectId, DomainError>,
) -> bool {
    match r {
        Ok(id) => {
            &&& a.groups@.contains_key(parent_group_id)
            &&& id == a.next_id
            &&& b.next_id == saturating_succ(a.next_id)
            &&& same_header(a, b)
            &&& b.groups@ == a.groups@
            &&& b.pieces@ == a.pieces@
            &&& b.shapes@ == a.shapes@.insert(id, b.shapes@[id])
            &&& is_new_shape(
                b.shapes@[id],
                id,
                name,
                parent_group_id,
                next_sibling_order_of(a, parent_group_id),
            )
        },
        Err(e) => {
            &&& !a.groups@.contains_key(parent_group_id)
            &&& e == DomainError::GroupNotFound(parent_group_id)
            &&& b == a
        },
    }
}

/// What `create_piece` does: a new empty piece on the plane under the counter's id, placed
/// after the last child of a stored parent, or a missing parent reported.
pub open spec fn create_piece_result(
    a: Project,
    b: Project,
    parent_group_id: ObjectId,
    name: Seq<char>,
    plane: crate::geometry::Plane,
    r: Result<ObjectId, DomainError>,
) -> bool {
    match r {
        Ok(id) => {
            &&& a.groups@.contains_key(parent_group_id)
            &&& id == a.next_id
            &&& b.next_id == saturating_succ(a.next_id)
            &&& same_header(a, b)
            &&& b.groups@ == a.groups@
            &&& b.shapes@ == a.shapes@
            &&& b.pieces@ == a.pieces@.insert(id, b.pieces@[id])
            &&& is_new_piece(
                b.pieces@[id],
                id,
                name,
                parent_group_id,
                next_sibling_order_of(a, parent_group_id),
                plane,
            )
        },
        Err(e) => {
            &&& !a.groups@.contains_key(parent_group_id)
            &&& e == DomainError::GroupNotFound(parent_group_id)
            &&& b == a
        },
    }
}

/// What `delete_object` does: the object removed, unless it is missing, the root group, or a
/// group that still has children.
pub open spec fn delete_result(
    a: Project,
    b: Project,
    object: ObjectRef,
    r: Result<(), DomainError>,
) -> bool {
    match object {
        ObjectRef::Group(id) => if id == a.assembly.root_group_id {
            r == Err::<(), DomainError>(DomainError::CannotDeleteRootGroup) && b == a
        } else if !a.groups@.contains_key(id) {
            r == Err::<(), DomainError>(DomainError::GroupNotFound(id)) && b == a
        } else if group_has_children(a, id) {
            r == Err::<(), DomainError>(DomainError::GroupIsNotEmpty(id)) && b == a
        } else {
            r is Ok && only_groups_differ(a, b) && b.groups@
                == a.groups@.remove(id)
        },
        ObjectRef::Shape(id) => if a.shapes@.contains_key(id) {
            r is Ok && only_shapes_differ(a, b) && b.shapes@
                == a.shapes@.remove(id)
        } else {
            r == Err::<(), DomainError>(DomainError::ShapeNotFound(id)) && b == a
        },
        ObjectRef::Piece(id) => if a.pieces@.contains_key(id) {
            r is Ok && only_pieces_differ(a, b) && b.pieces@
                == a.pieces@.remove(id)
        } else {
            r == Err::<(), DomainError>(DomainError::PieceNotFound(id)) && b == a
        },
    }
}

/// What `rename_object` does: the object's name replaced, or a missing object reported.
pub open spec fn rename_result(
    a: Project,
    b: Project,
    object: ObjectRef,
    name: Seq<char>,
    r: Result<(), DomainError>,
) -> bool {
    object_edit(
        a,
        b,
        object,
        r,
        |a: Group, b: Group| b == (Group { name: b.name, ..a }) && b.name@ == name,
        |a: Shape, b: Shape| b == (Shape { name: b.name, ..a }) && b.name@ == name,
        |a: Piece, b: Piece| b == (Piece { name: b.name, ..a }) && b.name@ == name,
    )
}

/// What `set_placement` does: the object's placement replaced, or a missing object reported.
pub open spec fn placement_result(
    a: Project,
    b: Project,
    object: ObjectRef,
    placement: Placement,
    r: Result<(), DomainError>,
) -> bool {
    object_edit(
        a,
        b,
        object,
        r,
        |a: Group, b: Group| b == (Group { placement, ..a }),
        |a: Shape, b: Shape| b == (Shape { placement, ..a }),
        |a: Piece, b: Piece| b == (Piece { placement, ..a }),
    )
}

/// What `set_visibility` does: the object shown or hidden, or a missing object reported.
pub open spec fn visibility_result(
    a: Project,
    b: Project,
    object: ObjectRef,
    visible: bool,
    r: Result<(), DomainError>,
) -> bool {
    object_edit(
        a,
        b,
        object,
        r,
        |a: Group, b: Group| b == (Group { visible, ..a }),
        |a: Shape, b: Shape| b == (Shape { visible, ..a }),
        |a: Piece, b: Piece| b == (Piece { visible, ..a }),
    )
}

/// What `rotate_object_quarter` does: the object's rotation turned by the quarter turns about
/// the axis, taken modulo four, or a missing object reported.
pub open spec fn rotation_result(
    a: Project,
    b: Project,
    object: ObjectRef,
    axis: crate::geometry::GridAxis,
    quarter_turns: i8,
    r: Result<(), DomainError>,
) -> bool {
    object_edit(
        a,
        b,
        object,
        r,
        |a: Group, b: Group|
            b == (Group {
                placement: Placement {
                    rotation: a.placement.rotation.rotated(axis, (quarter_turns % 4) as nat),
                    ..a.placement
                },
                ..a
            }),
        |a: Shape, b: Shape|
            b == (Shape {
                placement: Placement {
                    rotation: a.placement.rotation.rotated(axis, (quarter_turns % 4) as nat),
                    ..a.placement
                },
                ..a
            }),
        |a: Piece, b: Piece|
            b == (Piece {
                placement: Placement {
                    rotation: a.placement.rotation.rotated(axis, (quarter_turns % 4) as nat),
                    ..a.placement
                },
                ..a
            }),
    )
}

impl Project {
    pub open spec fn spec_next_id(&self) -> ObjectId {
        self.next_id
    }

    /// The id the next created object receives.
    pub fn next_id(&self) -> (r: ObjectId)
        ensures
            r == self.next_id,
    {
        self.next_id
    }

    /// A project from its parts, as a file stores them; nothing is checked.
    pub fn from_parts(
        name: String,
        assembly: Assembly,
        groups: BTreeMap<ObjectId, Group>,
        shapes: BTreeMap<ObjectId, Shape>,
        pieces: BTreeMap<ObjectId, Piece>,
        output_settings: OutputSettings,
        next_id: ObjectId,
    ) -> (r: Project)
        ensures
            r == (Project { name, assembly, groups, shapes, pieces, output_settings, next_id }),
    {
        Project { name, assembly, groups, shapes, pieces, output_settings, next_id }
    }

    /// An empty project: assembly 1 with root group 2, no shapes or pieces, A4 output with
    /// the assembly guide, and 3 as the next id.
    pub fn new(name: &str) -> (r: Project)
        ensures
            r.name@ == name@,
            r.assembly.id == 1,
            r.assembly.name@ == seq!['A', 's', 's', 'e', 'm', 'b', 'l', 'y'],
            r.assembly.root_group_id == 2,
            r.groups@.dom() == set![2u64],
            is_root_group(r.groups@[2], 2),
            r.shapes@ == Map::<ObjectId, Shape>::empty(),
            r.pieces@ == Map::<ObjectId, Piece>::empty(),
            r.output_settings == (OutputSettings {
                page_size: crate::model::PageSize::A4,
                include_assembly_guide: true,
            }),
            r.next_id == 3,
            validation_error(r) is None,
    {
        let assembly_id: ObjectId = 1;
        let root_group_id: ObjectId = 2;
        let mut groups: BTreeMap<ObjectId, Group> = BTreeMap::new();
        let root = Group {
            id: root_group_id,
            name: "Root".to_owned(),
            parent_group_id: None,
            sibling_order: 0,
            placement: Placement::default(),
            visible: true,
        };
        proof {
            reveal_strlit("Root");
            assert(root.name@ =~= seq!['R', 'o', 'o', 't']);
            assert(root.placement == default_placement());
        }
        groups.insert(root_group_id, root);
        assert(groups@[2] == root);
        proof {
            reveal_strlit("Assembly");
            assert(groups@.dom() =~= set![2u64]);
        }
        let project = Project {
            name: name.to_owned(),
            assembly: Assembly {
                id: assembly_id,
                name: "Assembly".to_owned(),
                root_group_id,
            },
            groups,
            shapes: BTreeMap::new(),
            pieces: BTreeMap::new(),
            output_settings: OutputSettings::default(),
            next_id: 3,
        };
        proof {
            assert(project.shapes@.dom() =~= Set::<ObjectId>::empty());
            assert(project.pieces@.dom() =~= Set::<ObjectId>::empty());
            crate::invariants::lemma_fresh_project_valid(project);
        }
        project
    }

    /// The id of the assembly's root group.
    pub fn root_group_id(&self) -> (r: ObjectId)
        ensures
            r == self.assembly.root_group_id,
    {
        self.assembly.root_group_id
    }

    pub(crate) fn require_group(&self, id: ObjectId) -> (r: Result<(), DomainError>)
        ensures
            r == if self.groups@.contains_key(id) {
                Ok(())
            } else {
                Err(DomainError::GroupNotFound(id))
            },
    {
        if self.groups.contains_key(&id) {
            Ok(())
        } else {
            Err(DomainError::GroupNotFound(id))
        }
    }

    /// Hands out the next id; the counter saturates at `u64::MAX`.
    pub(crate) fn allocate_id(&mut self) -> (r: ObjectId)
        ensures
            r == old(self).next_id,
            final(self).next_id == saturating_succ(old(self).next_id),
            final(self).name == old(self).name,
            final(self).assembly == old(self).assembly,
            final(self).groups == old(self).groups,
            final(self).shapes == old(self).shapes,
            final(self).pieces == old(self).pieces,
            final(self).output_settings == old(self).output_settings,
    {
        let id = self.next_id;
        self.next_id = self.next_id.saturating_add(1);
        id
    }

    /// One past the largest sibling order of the children listed under `parent_group_id`
    /// (saturating), or 0 when there are none.
    pub(crate) fn next_sibling_order(&self, parent_group_id: ObjectId) -> (r: u64)
        ensures
            r == next_sibling_order_of(*self, parent_group_id),
    {
        let mut best: Option<u64> = None;
        let group_ids = sorted_ids(&self.groups);
        let mut i: usize = 0;
        assert(group_ids@.take(0) =~= Seq::<ObjectId>::empty());
        while i < group_ids.len()
            invariant
                0 <= i <= group_ids.len(),
                group_ids@.to_set() == self.groups@.dom(),
                self.best_so_far(parent_group_id, best, group_ids@.take(i as int), Seq::empty(), Seq::empty()),
            decreases group_ids.len() - i,
        {
            let k = group_ids[i];
            proof { assert(group_ids@.to_set().contains(k)); }
            let g = self.groups.get(&k).unwrap();
            if g.parent_group_id == Some(parent_group_id) {
                if let Some(found) = self.groups.get(&g.id) {
                    let o = found.sibling_order;
                    best = match best {
                        None => Some(o),
                        Some(b) => if o > b { Some(o) } else { Some(b) },
                    };
                }
            }
            proof {
                assert(group_ids@.take(i + 1) =~= group_ids@.take(i as int).push(k));
                self.lemma_found_push(parent_group_id, group_ids@.take(i as int), Seq::empty(), Seq::empty(), 0, k);
            }
            i = i + 1;
        }
        assert(group_ids@.take(group_ids@.len() as int) =~= group_ids@);
        let shape_ids = sorted_ids(&self.shapes);
        let mut i: usize = 0;
        assert(shape_ids@.take(0) =~= Seq::<ObjectId>::empty());
        while i < shape_ids.len()
            invariant
                0 <= i <= shape_ids.len(),
                group_ids@.to_set() == self.groups@.dom(),
                shape_ids@.to_set() == self.shapes@.dom(),
                self.best_so_far(parent_group_id, best, group_ids@, shape_ids@.take(i as int), Seq::empty()),
            decreases shape_ids.len() - i,
        {
            let k = shape_ids[i];
            proof { assert(shape_ids@.to_set().contains(k)); }
            let s = self.shapes.get(&k).unwrap();
            if s.parent_group_id == parent_group_id {
                if let Some(found) = self.shapes.get(&s.id) {
                    let o = found.sibling_order;
                    best = match best {
                        None => Some(o),
                        Some(b) => if o > b { Some(o) } else { Some(b) },
                    };
                }
            }
            proof {
                assert(shape_ids@.take(i + 1) =~= shape_ids@.take(i as int).push(k));
                self.lemma_found_push(parent_group_id, group_ids@, shape_ids@.take(i as int), Seq::empty(), 1, k);
            }
            i = i + 1;
        }
        assert(shape_ids@.take(shape_ids@.len() as int) =~= shape_ids@);
        let piece_ids = sorted_ids(&self.pieces);
        let mut i: usize = 0;
        assert(piece_ids@.take(0) =~= Seq::<ObjectId>::empty());
        while i < piece_ids.len()
            invariant
                0 <= i <= piece_ids.len(),
                group_ids@.to_set() == self.groups@.dom(),
                shape_ids@.to_set() == self.shapes@.dom(),
                piece_ids@.to_set() == self.pieces@.dom(),
                self.best_so_far(parent_group_id, best, group_ids@, shape_ids@, piece_ids@.take(i as int)),
            decreases piece_ids.len() - i,
        {
            let k = piece_ids[i];
            proof { assert(piece_ids@.to_set().contains(k)); }
            let q = self.pieces.get(&k).unwrap();
            if q.parent_group_id == parent_group_id {
                if let Some(found) = self.pieces.get(&q.id) {
                    let o = found.sibling_order;
                    best = match best {
                        None => Some(o),
                        Some(b) => if o > b { Some(o) } else { Some(b) },
                    };
                }
            }
            proof {
                assert(piece_ids@.take(i + 1) =~= piece_ids@.take(i as int).push(k));
                self.lemma_found_push(parent_group_id, group_ids@, shape_ids@, piece_ids@.take(i as int), 2, k);
            }
            i = i + 1;
        }
        assert(piece_ids@.take(piece_ids@.len() as int) =~= piece_ids@);
        proof {
            self.lemma_best_complete(parent_group_id, best, group_ids@, shape_ids@, piece_ids@);
        }
        match best {
            None => 0,
            Some(b) => b.saturating_add(1),
        }
    }

    /// `best` is the largest order taken by a child found under the listed keys.
    pub(crate) open spec fn best_so_far(
        &self,
        parent: ObjectId,
        best: Option<u64>,
        gs: Seq<ObjectId>,
        ss: Seq<ObjectId>,
        ps: Seq<ObjectId>,
    ) -> bool {
        match best {
            None => forall|o: u64| !#[trigger] self.order_found(parent, o, gs, ss, ps),
            Some(b) => self.order_found(parent, b, gs, ss, ps) && forall|o: u64|
                #[trigger] self.order_found(parent, o, gs, ss, ps) ==> o <= b,
        }
    }

    /// The group stored under `k` is a child of `parent`, and the group found by its id
    /// has sibling order `o`.
    pub(crate) open spec fn group_hit(&self, parent: ObjectId, k: ObjectId, o: u64) -> bool {
        self.groups@.contains_key(k) && self.groups@[k].parent_group_id == Some(parent)
            && lookup_order(*self, ObjectRef::Group(self.groups@[k].id)) == Some(o)
    }

    pub(crate) open spec fn shape_hit(&self, parent: ObjectId, k: ObjectId, o: u64) -> bool {
        self.shapes@.contains_key(k) && self.shapes@[k].parent_group_id == parent && lookup_order(
            *self,
            ObjectRef::Shape(self.shapes@[k].id),
        ) == Some(o)
    }

    pub(crate) open spec fn piece_hit(&self, parent: ObjectId, k: ObjectId, o: u64) -> bool {
        self.pieces@.contains_key(k) && self.pieces@[k].parent_group_id == parent && lookup_order(
            *self,
            ObjectRef::Piece(self.pieces@[k].id),
        ) == Some(o)
    }

    /// `o` is the order of a listed child reached through one of the given keys.
    pub(crate) open spec fn order_found(
        &self,
        parent: ObjectId,
        o: u64,
        gs: Seq<ObjectId>,
        ss: Seq<ObjectId>,
        ps: Seq<ObjectId>,
    ) -> bool {
        ||| exists|i: int| 0 <= i < gs.len() && #[trigger] self.group_hit(parent, gs[i], o)
        ||| exists|i: int| 0 <= i < ss.len() && #[trigger] self.shape_hit(parent, ss[i], o)
        ||| exists|i: int| 0 <= i < ps.len() && #[trigger] self.piece_hit(parent, ps[i], o)
    }

    proof fn lemma_found_push(
        &self,
        parent: ObjectId,
        gs: Seq<ObjectId>,
        ss: Seq<ObjectId>,
        ps: Seq<ObjectId>,
        which: int,
        k: ObjectId,
    )
        ensures
            which == 0 ==> forall|o: u64|
                #[trigger] self.order_found(parent, o, gs.push(k), ss, ps) == (self.order_found(
                    parent,
                    o,
                    gs,
                    ss,
                    ps,
                ) || self.group_hit(parent, k, o)),
            which == 1 ==> forall|o: u64|
                #[trigger] self.order_found(parent, o, gs, ss.push(k), ps) == (self.order_found(
                    parent,
                    o,
                    gs,
                    ss,
                    ps,
                ) || self.shape_hit(parent, k, o)),
            which == 2 ==> forall|o: u64|
                #[trigger] self.order_found(parent, o, gs, ss, ps.push(k)) == (self.order_found(
                    parent,
                    o,
                    gs,
                    ss,
                    ps,
                ) || self.piece_hit(parent, k, o)),
    {
        assert forall|o: u64| #![trigger self.order_found(parent, o, gs.push(k), ss, ps)]
            which == 0 ==> self.order_found(parent, o, gs.push(k), ss, ps) == (self.order_found(
                parent,
                o,
                gs,
                ss,
                ps,
            ) || self.group_hit(parent, k, o)) by {
            if self.group_hit(parent, k, o) {
                assert(gs.push(k)[gs.len() as int] == k);
            }
            if exists|i: int| 0 <= i < gs.len() && #[trigger] self.group_hit(parent, gs[i], o) {
                let i = choose|i: int| 0 <= i < gs.len() && #[trigger] self.group_hit(parent, gs[i], o);
                assert(gs.push(k)[i] == gs[i]);
            }
            if exists|i: int| 0 <= i < gs.len() + 1 && #[trigger] self.group_hit(parent, gs.push(k)[i], o) {
                let i = choose|i: int| 0 <= i < gs.len() + 1 && #[trigger] self.group_hit(parent, gs.push(k)[i], o);
                if i < gs.len() {
                    assert(gs.push(k)[i] == gs[i]);
                }
            }
        }
        assert forall|o: u64| #![trigger self.order_found(parent, o, gs, ss.push(k), ps)]
            which == 1 ==> self.order_found(parent, o, gs, ss.push(k), ps) == (self.order_found(
                parent,
                o,
                gs,
                ss,
                ps,
            ) || self.shape_hit(parent, k, o)) by {
            if self.shape_hit(parent, k, o) {
                assert(ss.push(k)[ss.len() as int] == k);
            }
            if exists|i: int| 0 <= i < ss.len() && #[trigger] self.shape_hit(parent, ss[i], o) {
                let i = choose|i: int| 0 <= i < ss.len() && #[trigger] self.shape_hit(parent, ss[i], o);
                assert(ss.push(k)[i] == ss[i]);
            }
            if exists|i: int| 0 <= i < ss.len() + 1 && #[trigger] self.shape_hit(parent, ss.push(k)[i], o) {
                let i = choose|i: int| 0 <= i < ss.len() + 1 && #[trigger] self.shape_hit(parent, ss.push(k)[i], o);
                if i < ss.len() {
                    assert(ss.push(k)[i] == ss[i]);
                }
            }
        }
        assert forall|o: u64| #![trigger self.order_found(parent, o, gs, ss, ps.push(k))]
            which == 2 ==> self.order_found(parent, o, gs, ss, ps.push(k)) == (self.order_found(
                parent,
                o,
                gs,
                ss,
                ps,
            ) || self.piece_hit(parent, k, o)) by {
            if self.piece_hit(parent, k, o) {
                assert(ps.push(k)[ps.len() as int] == k);
            }
            if exists|i: int| 0 <= i < ps.len() && #[trigger] self.piece_hit(parent, ps[i], o) {
                let i = choose|i: int| 0 <= i < ps.len() && #[trigger] self.piece_hit(parent, ps[i], o);
                assert(ps.push(k)[i] == ps[i]);
            }
            if exists|i: int| 0 <= i < ps.len() + 1 && #[trigger] self.piece_hit(parent, ps.push(k)[i], o) {
                let i = choose|i: int| 0 <= i < ps.len() + 1 && #[trigger] self.piece_hit(parent, ps.push(k)[i], o);
                if i < ps.len() {
                    assert(ps.push(k)[i] == ps[i]);
                }
            }
        }
    }

    proof fn lemma_best_complete(
        &self,
        parent: ObjectId,
        best: Option<u64>,
        gs: Seq<ObjectId>,
        ss: Seq<ObjectId>,
        ps: Seq<ObjectId>,
    )
        requires
            gs.to_set() == self.groups@.dom(),
            ss.to_set() == self.shapes@.dom(),
            ps.to_set() == self.pieces@.dom(),
            self.best_so_far(parent, best, gs, ss, ps),
        ensures
            match best {
                None => next_sibling_order_of(*self, parent) == 0,
                Some(b) => next_sibling_order_of(*self, parent) == saturating_succ(b),
            },
    {
        assert forall|o: u64| child_order_taken(*self, parent, o) <==> self.order_found(parent, o, gs, ss, ps) by {
            if child_order_taken(*self, parent, o) {
                let object = choose|object: ObjectRef| #![trigger lookup_order(*self, object)] listed_child(*self, parent, object) && lookup_order(*self, object) == Some(o);
                match object {
                    ObjectRef::Group(id) => {
                        let k = choose|k: ObjectId| #![trigger self.groups@[k]] self.groups@.contains_key(k) && self.groups@[k].parent_group_id == Some(parent) && self.groups@[k].id == id;
                        assert(gs.to_set().contains(k));
                        let i = choose|i: int| 0 <= i < gs.len() && gs[i] == k;
                        assert(self.group_hit(parent, gs[i], o));
                    },
                    ObjectRef::Shape(id) => {
                        let k = choose|k: ObjectId| #![trigger self.shapes@[k]] self.shapes@.contains_key(k) && self.shapes@[k].parent_group_id == parent && self.shapes@[k].id == id;
                        assert(ss.to_set().contains(k));
                        let i = choose|i: int| 0 <= i < ss.len() && ss[i] == k;
                        assert(self.shape_hit(parent, ss[i], o));
                    },
                    ObjectRef::Piece(id) => {
                        let k = choose|k: ObjectId| #![trigger self.pieces@[k]] self.pieces@.contains_key(k) && self.pieces@[k].parent_group_id == parent && self.pieces@[k].id == id;
                        assert(ps.to_set().contains(k));
                        let i = choose|i: int| 0 <= i < ps.len() && ps[i] == k;
                        assert(self.piece_hit(parent, ps[i], o));
                    },
                }
            }
            if self.order_found(parent, o, gs, ss, ps) {
                if exists|i: int| 0 <= i < gs.len() && #[trigger] self.group_hit(parent, gs[i], o) {
                    let i = choose|i: int| 0 <= i < gs.len() && #[trigger] self.group_hit(parent, gs[i], o);
                    let object = ObjectRef::Group(self.groups@[gs[i]].id);
                    assert(listed_child(*self, parent, object));
                } else if exists|i: int| 0 <= i < ss.len() && #[trigger] self.shape_hit(parent, ss[i], o) {
                    let i = choose|i: int| 0 <= i < ss.len() && #[trigger] self.shape_hit(parent, ss[i], o);
                    let object = ObjectRef::Shape(self.shapes@[ss[i]].id);
                    assert(listed_child(*self, parent, object));
                } else {
                    let i = choose|i: int| 0 <= i < ps.len() && #[trigger] self.piece_hit(parent, ps[i], o);
                    let object = ObjectRef::Piece(self.pieces@[ps[i]].id);
                    assert(listed_child(*self, parent, object));
                }
            }
        }
        match best {
            None => {},
            Some(b) => {
                assert(max_child_order(*self, parent, b));
                let m = choose|m: u64| max_child_order(*self, parent, m);
                assert(m <= b && b <= m);
            },
        }
    }

    /// Creates an empty, visible group under `parent_group_id`, after its last child.
    pub fn create_group(&mut self, parent_group_id: ObjectId, name: &str) -> (r: Result<
        ObjectId,
        DomainError,
    >)
        ensures
            create_group_result(*old(self), *final(self), parent_group_id, name@, r),

    {
        self.require_group(parent_group_id)?;
        let sibling_order = self.next_sibling_order(parent_group_id);
        let id = self.allocate_id();
        let group = Group {
            id,
            name: name.to_owned(),
            parent_group_id: Some(parent_group_id),
            sibling_order,
            placement: Placement::default(),
            visible: true,
        };
        self.groups.insert(id, group);
        Ok(id)
    }

    /// Creates an empty shape in the root group.
    pub fn create_shape(&mut self, name: &str) -> (r: ObjectId)
        requires
            old(self).groups@.contains_key(old(self).assembly.root_group_id),
        ensures
            create_shape_result(
                *old(self),
                *final(self),
                old(self).assembly.root_group_id,
                name@,
                Ok::<ObjectId, DomainError>(r),
            ),
    {
        let root = self.root_group_id();
        match self.create_shape_in_group(root, name) {
            Ok(id) => id,
            Err(_) => {
                proof {
                    assert(false);
                }
                0
            },
        }
    }

    /// Creates an empty, visible shape under `parent_group_id`, after its last child.
    pub fn create_shape_in_group(&mut self, parent_group_id: ObjectId, name: &str) -> (r: Result<
        ObjectId,
        DomainError,
    >)
        ensures
            create_shape_result(*old(self), *final(self), parent_group_id, name@, r),

    {
        self.require_group(parent_group_id)?;
        let sibling_order = self.next_sibling_order(parent_group_id);
        let id = self.allocate_id();
        let shape = Shape {
            id,
            name: name.to_owned(),
            parent_group_id,
            sibling_order,
            placement: Placement::default(),
            visible: true,
            beads: BTreeMap::new(),
        };
        self.shapes.insert(id, shape);
        Ok(id)
    }

    /// Creates an empty, visible piece on `plane` under `parent_group_id`, after its last
    /// child.
    pub fn create_piece(
        &mut self,
        parent_group_id: ObjectId,
        name: &str,
        plane: crate::geometry::Plane,
    ) -> (r: Result<ObjectId, DomainError>)
        ensures
            create_piece_result(*old(self), *final(self), parent_group_id, name@, plane, r),

    {
        self.require_group(parent_group_id)?;
        let sibling_order = self.next_sibling_order(parent_group_id);
        let id = self.allocate_id();
        let no_beads: [crate::model::Bead; 0] = [];
        let mut piece = match Piece::new_in_group(id, name, parent_group_id, plane, &no_beads) {
            Ok(piece) => piece,
            Err(e) => {
                proof {
                    assert(no_beads@ =~= Seq::<crate::model::Bead>::empty());
                    assert(crate::model::beads_map(no_beads@) =~= Map::empty());
                    assert(false);
                }
                return Err(e);
            },
        };
        proof {
            assert(no_beads@ =~= Seq::<crate::model::Bead>::empty());
        }
        piece.sibling_order = sibling_order;
        self.pieces.insert(id, piece);
        Ok(id)
    }

    /// Whether some group, shape or piece names `id` as its parent group.
    fn has_children(&self, id: ObjectId) -> (r: bool)
        ensures
            r == group_has_children(*self, id),
    {
        let group_ids = sorted_ids(&self.groups);
        let mut i: usize = 0;
        while i < group_ids.len()
            invariant
                0 <= i <= group_ids.len(),
                group_ids@.to_set() == self.groups@.dom(),
                forall|j: int| 0 <= j < i ==> self.groups@[#[trigger] group_ids@[j]].parent_group_id != Some(id),
            decreases group_ids.len() - i,
        {
            let k = group_ids[i];
            proof { assert(group_ids@.to_set().contains(k)); }
            if self.groups.get(&k).unwrap().parent_group_id == Some(id) {
                return true;
            }
            i = i + 1;
        }
        let shape_ids = sorted_ids(&self.shapes);
        let mut i: usize = 0;
        while i < shape_ids.len()
            invariant
                0 <= i <= shape_ids.len(),
                shape_ids@.to_set() == self.shapes@.dom(),
                forall|j: int| 0 <= j < i ==> self.shapes@[#[trigger] shape_ids@[j]].parent_group_id != id,
            decreases shape_ids.len() - i,
        {
            let k = shape_ids[i];
            proof { assert(shape_ids@.to_set().contains(k)); }
            if self.shapes.get(&k).unwrap().parent_group_id == id {
                return true;
            }
            i = i + 1;
        }
        let piece_ids = sorted_ids(&self.pieces);
        let mut i: usize = 0;
        while i < piece_ids.len()
            invariant
                0 <= i <= piece_ids.len(),
                piece_ids@.to_set() == self.pieces@.dom(),
                forall|j: int| 0 <= j < i ==> self.pieces@[#[trigger] piece_ids@[j]].parent_group_id != id,
            decreases piece_ids.len() - i,
        {
            let k = piece_ids[i];
            proof { assert(piece_ids@.to_set().contains(k)); }
            if self.pieces.get(&k).unwrap().parent_group_id == id {
                return true;
            }
            i = i + 1;
        }
        proof {
            assert forall|k: ObjectId| #[trigger] self.groups@.contains_key(k) implies self.groups@[k].parent_group_id != Some(id) by {
                assert(group_ids@.to_set().contains(k));
                let j = choose|j: int| 0 <= j < group_ids@.len() && group_ids@[j] == k;
                assert(self.groups@[group_ids@[j]].parent_group_id != Some(id));
            }
            assert forall|k: ObjectId| #[trigger] self.shapes@.contains_key(k) implies self.shapes@[k].parent_group_id != id by {
                assert(shape_ids@.to_set().contains(k));
                let j = choose|j: int| 0 <= j < shape_ids@.len() && shape_ids@[j] == k;
                assert(self.shapes@[shape_ids@[j]].parent_group_id != id);
            }
            assert forall|k: ObjectId| #[trigger] self.pieces@.contains_key(k) implies self.pieces@[k].parent_group_id != id by {
                assert(piece_ids@.to_set().contains(k));
                let j = choose|j: int| 0 <= j < piece_ids@.len() && piece_ids@[j] == k;
                assert(self.pieces@[piece_ids@[j]].parent_group_id != id);
            }
        }
        false
    }

    /// Deletes an empty group other than the root, or a shape, or a piece.
    pub fn delete_object(&mut self, object: ObjectRef) -> (r: Result<(), DomainError>)
        ensures
            delete_result(*old(self), *final(self), object, r),

    {
        match object {
            ObjectRef::Group(id) => {
                if id == self.root_group_id() {
                    return Err(DomainError::CannotDeleteRootGroup);
                }
                self.require_group(id)?;
                if self.has_children(id) {
                    return Err(DomainError::GroupIsNotEmpty(id));
                }
                self.groups.remove(&id);
            },
            ObjectRef::Shape(id) => {
                if !self.shapes.contains_key(&id) {
                    return Err(DomainError::ShapeNotFound(id));
                }
                self.shapes.remove(&id);
            },
            ObjectRef::Piece(id) => {
                if !self.pieces.contains_key(&id) {
                    return Err(DomainError::PieceNotFound(id));
                }
                self.pieces.remove(&id);
            },
        }
        Ok(())
    }

    /// Renames a group, shape or piece.
    pub fn rename_object(&mut self, object: ObjectRef, name: &str) -> (r: Result<(), DomainError>)
        ensures
            rename_result(*old(self), *final(self), object, name@, r),

    {
        let name = name.to_owned();
        match object {
            ObjectRef::Group(id) => {
                if !self.groups.contains_key(&id) {
                    return Err(DomainError::GroupNotFound(id));
                }
                let mut group = self.groups.remove(&id).unwrap();
                group.name = name;
                self.groups.insert(id, group);
            },
            ObjectRef::Shape(id) => {
                if !self.shapes.contains_key(&id) {
                    return Err(DomainError::ShapeNotFound(id));
                }
                let mut shape = self.shapes.remove(&id).unwrap();
                shape.name = name;
                self.shapes.insert(id, shape);
            },
            ObjectRef::Piece(id) => {
                if !self.pieces.contains_key(&id) {
                    return Err(DomainError::PieceNotFound(id));
                }
                let mut piece = self.pieces.remove(&id).unwrap();
                piece.name = name;
                self.pieces.insert(id, piece);
            },
        }
        proof {
            assert(self.groups@ =~= old(self).groups@.insert(object.spec_id(), self.groups@[object.spec_id()]) || !(object is Group));
            assert(self.shapes@ =~= old(self).shapes@.insert(object.spec_id(), self.shapes@[object.spec_id()]) || !(object is Shape));
            assert(self.pieces@ =~= old(self).pieces@.insert(object.spec_id(), self.pieces@[object.spec_id()]) || !(object is Piece));
        }
        Ok(())
    }

    /// Moves, reorients or rotates a group, shape or piece.
    pub fn set_placement(&mut self, object: ObjectRef, placement: Placement) -> (r: Result<
        (),
        DomainError,
    >)
        ensures
            placement_result(*old(self), *final(self), object, placement, r),

    {
        match object {
            ObjectRef::Group(id) => {
                if !self.groups.contains_key(&id) {
                    return Err(DomainError::GroupNotFound(id));
                }
                let mut group = self.groups.remove(&id).unwrap();
                group.placement = placement;
                self.groups.insert(id, group);
            },
            ObjectRef::Shape(id) => {
                if !self.shapes.contains_key(&id) {
                    return Err(DomainError::ShapeNotFound(id));
                }
                let mut shape = self.shapes.remove(&id).unwrap();
                shape.placement = placement;
                self.shapes.insert(id, shape);
            },
            ObjectRef::Piece(id) => {
                if !self.pieces.contains_key(&id) {
                    return Err(DomainError::PieceNotFound(id));
                }
                let mut piece = self.pieces.remove(&id).unwrap();
                piece.placement = placement;
                self.pieces.insert(id, piece);
            },
        }
        proof {
            assert(self.groups@ =~= old(self).groups@.insert(object.spec_id(), self.groups@[object.spec_id()]) || !(object is Group));
            assert(self.shapes@ =~= old(self).shapes@.insert(object.spec_id(), self.shapes@[object.spec_id()]) || !(object is Shape));
            assert(self.pieces@ =~= old(self).pieces@.insert(object.spec_id(), self.pieces@[object.spec_id()]) || !(object is Piece));
        }
        Ok(())
    }

    /// Shows or hides a group, shape or piece.
    pub fn set_visibility(&mut self, object: ObjectRef, visible: bool) -> (r: Result<
        (),
        DomainError,
    >)
        ensures
            visibility_result(*old(self), *final(self), object, visible, r),

    {
        match object {
            ObjectRef::Group(id) => {
                if !self.groups.contains_key(&id) {
                    return Err(DomainError::GroupNotFound(id));
                }
                let mut group = self.groups.remove(&id).unwrap();
                group.visible = visible;
                self.groups.insert(id, group);
            },
            ObjectRef::Shape(id) => {
                if !self.shapes.contains_key(&id) {
                    return Err(DomainError::ShapeNotFound(id));
                }
                let mut shape = self.shapes.remove(&id).unwrap();
                shape.visible = visible;
                self.shapes.insert(id, shape);
            },
            ObjectRef::Piece(id) => {
                if !self.pieces.contains_key(&id) {
                    return Err(DomainError::PieceNotFound(id));
                }
                let mut piece = self.pieces.remove(&id).unwrap();
                piece.visible = visible;
                self.pieces.insert(id, piece);
            },
        }
        proof {
            assert(self.groups@ =~= old(self).groups@.insert(object.spec_id(), self.groups@[object.spec_id()]) || !(object is Group));
            assert(self.shapes@ =~= old(self).shapes@.insert(object.spec_id(), self.shapes@[object.spec_id()]) || !(object is Shape));
            assert(self.pieces@ =~= old(self).pieces@.insert(object.spec_id(), self.pieces@[object.spec_id()]) || !(object is Piece));
        }
        Ok(())
    }

    /// Turns the rotation of a group, shape or piece by quarter turns about an axis.
    pub fn rotate_object_quarter(
        &mut self,
        object: ObjectRef,
        axis: crate::geometry::GridAxis,
        quarter_turns: i8,
    ) -> (r: Result<(), DomainError>)
        requires
            object_exists(*old(self), object) ==> object_placement(
                *old(self),
                object,
            ).rotation.rotation_fits(axis, (quarter_turns % 4) as nat),
        ensures
            rotation_result(*old(self), *final(self), object, axis, quarter_turns, r),

    {
        match object {
            ObjectRef::Group(id) => {
                if !self.groups.contains_key(&id) {
                    return Err(DomainError::GroupNotFound(id));
                }
                let mut group = self.groups.remove(&id).unwrap();
                group.placement.rotation = group.placement.rotation.rotate_quarter(axis, quarter_turns);
                self.groups.insert(id, group);
            },
            ObjectRef::Shape(id) => {
                if !self.shapes.contains_key(&id) {
                    return Err(DomainError::ShapeNotFound(id));
                }
                let mut shape = self.shapes.remove(&id).unwrap();
                shape.placement.rotation = shape.placement.rotation.rotate_quarter(axis, quarter_turns);
                self.shapes.insert(id, shape);
            },
            ObjectRef::Piece(id) => {
                if !self.pieces.contains_key(&id) {
                    return Err(DomainError::PieceNotFound(id));
                }
                let mut piece = self.pieces.remove(&id).unwrap();
                piece.placement.rotation = piece.placement.rotation.rotate_quarter(axis, quarter_turns);
                self.pieces.insert(id, piece);
            },
        }
        proof {
            assert(self.groups@ =~= old(self).groups@.insert(object.spec_id(), self.groups@[object.spec_id()]) || !(object is Group));
            assert(self.shapes@ =~= old(self).shapes@.insert(object.spec_id(), self.shapes@[object.spec_id()]) || !(object is Shape));
            assert(self.pieces@ =~= old(self).pieces@.insert(object.spec_id(), self.pieces@[object.spec_id()]) || !(object is Piece));
        }
        Ok(())
    }
}

} // verus!
