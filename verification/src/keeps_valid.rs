//! Every edit of a valid project leaves it valid: what each operation keeps.

use vstd::prelude::*;

use crate::beads::{
    add_bead_result, beads_set, move_bead_result, recolor_result, remove_bead_result, voxel_beads,
};
use crate::convert::{convert_result, on_plane_beads};
use crate::geometry::{lemma_identity_valid, lemma_rotated_valid, GridPosition, Placement, Plane};
use crate::hierarchy::reparent_result;
use crate::invariants::{
    group_sound, lemma_group_edit_keeps_sound, lemma_group_move_keeps_sound,
    lemma_group_removal_keeps_sound, lemma_new_group_keeps_sound, lemma_new_piece_keeps_sound,
    lemma_new_shape_keeps_sound, lemma_orders_keep_sound, lemma_piece_edit_keeps_sound,
    lemma_piece_removal_keeps_sound, lemma_shape_edit_keeps_sound, lemma_shape_removal_keeps_sound,
    lemma_valid_iff_sound, only_orders_differ, piece_sound, shape_sound, sound,
};
use crate::model::{beads_on_plane, Color, DomainError, ObjectId, ObjectRef, VoxelObjectRef};
use crate::project::{
    create_group_result, create_piece_result, create_shape_result, delete_result,
    placement_result, rename_result, rotation_result, visibility_result, Project,
};
use crate::siblings::{orders_assigned, reorder_result};
use crate::validate::{used_ids, validation_error};

verus! {

broadcast use vstd::std_specs::btree::group_btree_axioms, vstd::laws_cmp::group_laws_cmp;

/// Renaming an object keeps a valid project valid.
pub proof fn lemma_rename_keeps_valid(
    a: Project,
    b: Project,
    object: ObjectRef,
    name: Seq<char>,
    r: Result<(), DomainError>,
)
    requires
        validation_error(a) is None,
        rename_result(a, b, object, name, r),
    ensures
        validation_error(b) is None,
{
    lemma_valid_iff_sound(a);
    lemma_valid_iff_sound(b);
    if r is Ok {
        match object {
            ObjectRef::Group(id) => {
                assert(group_sound(a, id));
                lemma_group_edit_keeps_sound(a, b, id, b.groups@[id]);
            },
            ObjectRef::Shape(id) => {
                assert(shape_sound(a, id));
                lemma_shape_edit_keeps_sound(a, b, id, b.shapes@[id]);
            },
            ObjectRef::Piece(id) => {
                assert(piece_sound(a, id));
                lemma_piece_edit_keeps_sound(a, b, id, b.pieces@[id]);
            },
        }
    }
}

/// Showing or hiding an object keeps a valid project valid.
pub proof fn lemma_visibility_keeps_valid(
    a: Project,
    b: Project,
    object: ObjectRef,
    visible: bool,
    r: Result<(), DomainError>,
)
    requires
        validation_error(a) is None,
        visibility_result(a, b, object, visible, r),
    ensures
        validation_error(b) is None,
{
    lemma_valid_iff_sound(a);
    lemma_valid_iff_sound(b);
    if r is Ok {
        match object {
            ObjectRef::Group(id) => {
                assert(group_sound(a, id));
                lemma_group_edit_keeps_sound(a, b, id, b.groups@[id]);
            },
            ObjectRef::Shape(id) => {
                assert(shape_sound(a, id));
                lemma_shape_edit_keeps_sound(a, b, id, b.shapes@[id]);
            },
            ObjectRef::Piece(id) => {
                assert(piece_sound(a, id));
                lemma_piece_edit_keeps_sound(a, b, id, b.pieces@[id]);
            },
        }
    }
}

/// Placing an object with a cube rotation keeps a valid project valid.
pub proof fn lemma_placement_keeps_valid(
    a: Project,
    b: Project,
    object: ObjectRef,
    placement: Placement,
    r: Result<(), DomainError>,
)
    requires
        validation_error(a) is None,
        placement.rotation.spec_is_valid(),
        placement_result(a, b, object, placement, r),
    ensures
        validation_error(b) is None,
{
    lemma_valid_iff_sound(a);
    lemma_valid_iff_sound(b);
    if r is Ok {
        match object {
            ObjectRef::Group(id) => {
                assert(group_sound(a, id));
                lemma_group_edit_keeps_sound(a, b, id, b.groups@[id]);
            },
            ObjectRef::Shape(id) => {
                assert(shape_sound(a, id));
                lemma_shape_edit_keeps_sound(a, b, id, b.shapes@[id]);
            },
            ObjectRef::Piece(id) => {
                assert(piece_sound(a, id));
                lemma_piece_edit_keeps_sound(a, b, id, b.pieces@[id]);
            },
        }
    }
}

/// Turning an object by quarter turns keeps a valid project valid.
pub proof fn lemma_rotation_keeps_valid(
    a: Project,
    b: Project,
    object: ObjectRef,
    axis: crate::geometry::GridAxis,
    quarter_turns: i8,
    r: Result<(), DomainError>,
)
    requires
        validation_error(a) is None,
        rotation_result(a, b, object, axis, quarter_turns, r),
    ensures
        validation_error(b) is None,
{
    lemma_valid_iff_sound(a);
    lemma_valid_iff_sound(b);
    let n = (quarter_turns % 4) as nat;
    if r is Ok {
        match object {
            ObjectRef::Group(id) => {
                assert(group_sound(a, id));
                lemma_rotated_valid(a.groups@[id].placement.rotation, axis, n);
                lemma_group_edit_keeps_sound(a, b, id, b.groups@[id]);
            },
            ObjectRef::Shape(id) => {
                assert(shape_sound(a, id));
                lemma_rotated_valid(a.shapes@[id].placement.rotation, axis, n);
                lemma_shape_edit_keeps_sound(a, b, id, b.shapes@[id]);
            },
            ObjectRef::Piece(id) => {
                assert(piece_sound(a, id));
                lemma_rotated_valid(a.pieces@[id].placement.rotation, axis, n);
                lemma_piece_edit_keeps_sound(a, b, id, b.pieces@[id]);
            },
        }
    }
}

/// Deleting an object keeps a valid project valid.
pub proof fn lemma_delete_keeps_valid(
    a: Project,
    b: Project,
    object: ObjectRef,
    r: Result<(), DomainError>,
)
    requires
        validation_error(a) is None,
        delete_result(a, b, object, r),
    ensures
        validation_error(b) is None,
{
    lemma_valid_iff_sound(a);
    lemma_valid_iff_sound(b);
    if r is Ok {
        match object {
            ObjectRef::Group(id) => lemma_group_removal_keeps_sound(a, b, id),
            ObjectRef::Shape(id) => lemma_shape_removal_keeps_sound(a, b, id),
            ObjectRef::Piece(id) => lemma_piece_removal_keeps_sound(a, b, id),
        }
    }
}

/// Creating a group keeps a valid project valid while the id counter has not reached its
/// largest value.
pub proof fn lemma_create_group_keeps_valid(
    a: Project,
    b: Project,
    parent_group_id: ObjectId,
    name: Seq<char>,
    r: Result<ObjectId, DomainError>,
)
    requires
        validation_error(a) is None,
        a.next_id < u64::MAX,
        create_group_result(a, b, parent_group_id, name, r),
    ensures
        validation_error(b) is None,
{
    lemma_valid_iff_sound(a);
    lemma_valid_iff_sound(b);
    lemma_identity_valid();
    if r is Ok {
        lemma_new_group_keeps_sound(a, b, b.groups@[a.next_id]);
    }
}

/// Creating a shape keeps a valid project valid while the id counter has not reached its
/// largest value.
pub proof fn lemma_create_shape_keeps_valid(
    a: Project,
    b: Project,
    parent_group_id: ObjectId,
    name: Seq<char>,
    r: Result<ObjectId, DomainError>,
)
    requires
        validation_error(a) is None,
        a.next_id < u64::MAX,
        create_shape_result(a, b, parent_group_id, name, r),
    ensures
        validation_error(b) is None,
{
    lemma_valid_iff_sound(a);
    lemma_valid_iff_sound(b);
    lemma_identity_valid();
    if r is Ok {
        lemma_new_shape_keeps_sound(a, b, b.shapes@[a.next_id]);
    }
}

/// Creating a piece keeps a valid project valid while the id counter has not reached its
/// largest value.
pub proof fn lemma_create_piece_keeps_valid(
    a: Project,
    b: Project,
    parent_group_id: ObjectId,
    name: Seq<char>,
    plane: Plane,
    r: Result<ObjectId, DomainError>,
)
    requires
        validation_error(a) is None,
        a.next_id < u64::MAX,
        create_piece_result(a, b, parent_group_id, name, plane, r),
    ensures
        validation_error(b) is None,
{
    lemma_valid_iff_sound(a);
    lemma_valid_iff_sound(b);
    lemma_identity_valid();
    if r is Ok {
        let q = b.pieces@[a.next_id];
        assert(beads_on_plane(q.plane, q.beads@));
        lemma_new_piece_keeps_sound(a, b, q);
    }
}

/// Changing the beads of a shape, or of a piece while they stay on its plane, keeps a valid
/// project valid.
proof fn lemma_beads_set_keeps_sound(
    a: Project,
    b: Project,
    target: VoxelObjectRef,
    beads: Map<crate::geometry::BeadKey, Color>,
)
    requires
        sound(a),
        crate::beads::voxel_exists(a, target),
        beads_set(a, b, target, beads),
        target matches VoxelObjectRef::Piece(id) ==> beads_on_plane(a.pieces@[id].plane, beads),
    ensures
        sound(b),
{
    match target {
        VoxelObjectRef::Shape(id) => {
            assert(shape_sound(a, id));
            lemma_shape_edit_keeps_sound(a, b, id, b.shapes@[id]);
        },
        VoxelObjectRef::Piece(id) => {
            assert(piece_sound(a, id));
            lemma_piece_edit_keeps_sound(a, b, id, b.pieces@[id]);
        },
    }
}

/// Adding a bead keeps a valid project valid.
pub proof fn lemma_add_bead_keeps_valid(
    a: Project,
    b: Project,
    target: VoxelObjectRef,
    bead: crate::model::Bead,
    r: Result<(), DomainError>,
)
    requires
        validation_error(a) is None,
        add_bead_result(a, b, target, bead, r),
    ensures
        validation_error(b) is None,
{
    lemma_valid_iff_sound(a);
    lemma_valid_iff_sound(b);
    if r is Ok {
        if let VoxelObjectRef::Piece(id) = target {
            assert(piece_sound(a, id));
        }
        lemma_beads_set_keeps_sound(
            a,
            b,
            target,
            voxel_beads(a, target).insert(bead.position.spec_key(), bead.color),
        );
    }
}

/// Removing a bead keeps a valid project valid.
pub proof fn lemma_remove_bead_keeps_valid(
    a: Project,
    b: Project,
    target: VoxelObjectRef,
    position: GridPosition,
    r: Result<Color, DomainError>,
)
    requires
        validation_error(a) is None,
        remove_bead_result(a, b, target, position, r),
    ensures
        validation_error(b) is None,
{
    lemma_valid_iff_sound(a);
    lemma_valid_iff_sound(b);
    if r is Ok {
        if let VoxelObjectRef::Piece(id) = target {
            assert(piece_sound(a, id));
        }
        lemma_beads_set_keeps_sound(
            a,
            b,
            target,
            voxel_beads(a, target).remove(position.spec_key()),
        );
    }
}

/// Recoloring a bead keeps a valid project valid.
pub proof fn lemma_recolor_keeps_valid(
    a: Project,
    b: Project,
    target: VoxelObjectRef,
    position: GridPosition,
    color: Color,
    r: Result<(), DomainError>,
)
    requires
        validation_error(a) is None,
        recolor_result(a, b, target, position, color, r),
    ensures
        validation_error(b) is None,
{
    lemma_valid_iff_sound(a);
    lemma_valid_iff_sound(b);
    if r is Ok {
        if let VoxelObjectRef::Piece(id) = target {
            assert(piece_sound(a, id));
        }
        lemma_beads_set_keeps_sound(
            a,
            b,
            target,
            voxel_beads(a, target).insert(position.spec_key(), color),
        );
    }
}

/// Moving a bead keeps a valid project valid.
pub proof fn lemma_move_bead_keeps_valid(
    a: Project,
    b: Project,
    target: VoxelObjectRef,
    from: GridPosition,
    to: GridPosition,
    r: Result<(), DomainError>,
)
    requires
        validation_error(a) is None,
        move_bead_result(a, b, target, from, to, r),
    ensures
        validation_error(b) is None,
{
    lemma_valid_iff_sound(a);
    lemma_valid_iff_sound(b);
    if r is Ok && from != to {
        if let VoxelObjectRef::Piece(id) = target {
            assert(piece_sound(a, id));
        }
        lemma_beads_set_keeps_sound(
            a,
            b,
            target,
            voxel_beads(a, target).remove(from.spec_key()).insert(
                to.spec_key(),
                voxel_beads(a, target)[from.spec_key()],
            ),
        );
    }
}

/// Moving an object under another group keeps a valid project valid; in particular no
/// group ever becomes its own ancestor.
pub proof fn lemma_reparent_keeps_valid(
    a: Project,
    b: Project,
    object: ObjectRef,
    new_parent: ObjectId,
    r: Result<(), DomainError>,
)
    requires
        validation_error(a) is None,
        reparent_result(a, b, object, new_parent, r),
    ensures
        validation_error(b) is None,
{
    lemma_valid_iff_sound(a);
    lemma_valid_iff_sound(b);
    if r is Ok {
        match object {
            ObjectRef::Group(id) => {
                lemma_group_move_keeps_sound(a, b, id, new_parent, b.groups@[id]);
            },
            ObjectRef::Shape(id) => {
                assert(shape_sound(a, id));
                lemma_shape_edit_keeps_sound(a, b, id, b.shapes@[id]);
            },
            ObjectRef::Piece(id) => {
                assert(piece_sound(a, id));
                lemma_piece_edit_keeps_sound(a, b, id, b.pieces@[id]);
            },
        }
    }
}

/// Assigning sibling orders changes only sibling orders.
proof fn lemma_assigned_orders_only(a: Project, b: Project, list: Seq<ObjectRef>, n: int)
    requires
        orders_assigned(a, b, list, n),
    ensures
        only_orders_differ(a, b),
{
    assert forall|k: ObjectId| #[trigger] b.groups@.contains_key(k) implies b.groups@[k] == (
    crate::model::Group { sibling_order: b.groups@[k].sibling_order, ..a.groups@[k] }) by {
    }
    assert forall|k: ObjectId| #[trigger] b.shapes@.contains_key(k) implies b.shapes@[k] == (
    crate::model::Shape { sibling_order: b.shapes@[k].sibling_order, ..a.shapes@[k] }) by {
    }
    assert forall|k: ObjectId| #[trigger] b.pieces@.contains_key(k) implies b.pieces@[k] == (
    crate::model::Piece { sibling_order: b.pieces@[k].sibling_order, ..a.pieces@[k] }) by {
    }
}

/// Reordering siblings keeps a valid project valid, also when it stops at a missing
/// sibling.
pub proof fn lemma_reorder_keeps_valid(
    a: Project,
    b: Project,
    object: ObjectRef,
    target: ObjectRef,
    parent: ObjectId,
    r: Result<(), DomainError>,
)
    requires
        validation_error(a) is None,
        reorder_result(a, b, object, target, parent, r),
    ensures
        validation_error(b) is None,
{
    lemma_valid_iff_sound(a);
    lemma_valid_iff_sound(b);
    let rest = crate::siblings::without(crate::siblings::children_of(a, parent), object);
    if rest.contains(target) {
        let list = rest.insert(crate::siblings::first_index(rest, target) + 1, object);
        let n = crate::siblings::first_missing(a, list);
        lemma_assigned_orders_only(a, b, list, n);
        lemma_orders_keep_sound(a, b);
    }
}

/// Moving an object after a sibling keeps a valid project valid.
pub proof fn lemma_move_after_keeps_valid(
    a: Project,
    mid: Project,
    b: Project,
    object: ObjectRef,
    target: ObjectRef,
    parent: ObjectId,
    moved: Result<(), DomainError>,
    r: Result<(), DomainError>,
)
    requires
        validation_error(a) is None,
        reparent_result(a, mid, object, parent, moved),
        moved is Err ==> b == mid,
        moved is Ok ==> reorder_result(mid, b, object, target, parent, r),
    ensures
        validation_error(b) is None,
{
    lemma_reparent_keeps_valid(a, mid, object, parent, moved);
    if moved is Ok {
        lemma_reorder_keeps_valid(mid, b, object, target, parent, r);
    }
}

/// Converting the plane of a shape into a piece keeps a valid project valid while the id
/// counter has not reached its largest value.
pub proof fn lemma_convert_keeps_valid(
    a: Project,
    b: Project,
    shape_id: ObjectId,
    plane: Plane,
    name: Seq<char>,
    r: Result<ObjectId, DomainError>,
)
    requires
        validation_error(a) is None,
        a.next_id < u64::MAX,
        convert_result(a, b, shape_id, plane, name, r),
    ensures
        validation_error(b) is None,
{
    lemma_valid_iff_sound(a);
    lemma_valid_iff_sound(b);
    if r is Ok {
        let id = a.next_id;
        let s = a.shapes@[shape_id];
        assert(shape_sound(a, shape_id));
        assert(used_ids(b) =~= used_ids(a).insert(id));
        assert(used_ids(a).contains(a.assembly.id));
        assert(used_ids(a).contains(shape_id));
        assert(!a.groups@.contains_key(id)) by {
            if a.groups@.contains_key(id) {
                assert(used_ids(a).contains(id));
            }
        }
        assert(!a.shapes@.contains_key(id)) by {
            if a.shapes@.contains_key(id) {
                assert(used_ids(a).contains(id));
            }
        }
        assert(b.shapes@.dom() =~= a.shapes@.dom());
        assert forall|k: ObjectId| #[trigger] b.groups@.contains_key(k) implies group_sound(b, k) by {
            assert(group_sound(a, k));
        }
        assert forall|k: ObjectId| #[trigger] b.shapes@.contains_key(k) implies shape_sound(b, k) by {
            assert(shape_sound(a, k));
        }
        assert forall|k: ObjectId| #[trigger] b.pieces@.contains_key(k) implies piece_sound(b, k) by {
            if k != id {
                assert(piece_sound(a, k));
            } else {
                let q = b.pieces@[id];
                assert forall|key: crate::geometry::BeadKey| #[trigger] q.beads@.contains_key(key) implies plane.spec_contains(
                    crate::geometry::key_position(key),
                ) by {
                    assert(on_plane_beads(s.beads@, plane).contains_key(key));
                }
            }
        }
    }
}

/// Turning an object of a valid project `n` quarter turns and then `-n` gives back the
/// project: both calls succeed exactly when the object exists, and otherwise both report it
/// missing and change nothing.
pub proof fn lemma_rotation_undone(
    a: Project,
    b: Project,
    c: Project,
    object: ObjectRef,
    axis: crate::geometry::GridAxis,
    n: i8,
    m: i8,
    r1: Result<(), DomainError>,
    r2: Result<(), DomainError>,
)
    requires
        validation_error(a) is None,
        m == -n,
        rotation_result(a, b, object, axis, n, r1),
        rotation_result(b, c, object, axis, m, r2),
    ensures
        r1 is Ok <==> crate::project::object_exists(a, object),
        r2 is Ok <==> crate::project::object_exists(a, object),
        r1 is Err ==> r2 == r1,
        crate::project::same_project(c, a),
{
    lemma_valid_iff_sound(a);
    if crate::project::object_exists(a, object) {
        match object {
            ObjectRef::Group(id) => {
                assert(group_sound(a, id));
                let g = a.groups@[id];
                crate::geometry::lemma_quarter_turns_undone(g.placement.rotation, axis, n, m);
                assert(c.groups@[id] == g);
                assert(b.groups@.contains_key(id));
                assert(c.groups@ =~= a.groups@);
            },
            ObjectRef::Shape(id) => {
                assert(shape_sound(a, id));
                let g = a.shapes@[id];
                crate::geometry::lemma_quarter_turns_undone(g.placement.rotation, axis, n, m);
                assert(c.shapes@[id] == g);
                assert(b.shapes@.contains_key(id));
                assert(c.shapes@ =~= a.shapes@);
            },
            ObjectRef::Piece(id) => {
                assert(piece_sound(a, id));
                let g = a.pieces@[id];
                crate::geometry::lemma_quarter_turns_undone(g.placement.rotation, axis, n, m);
                assert(c.pieces@[id] == g);
                assert(b.pieces@.contains_key(id));
                assert(c.pieces@ =~= a.pieces@);
            },
        }
    }
}

/// What `move_object_after` does in its two steps: `mid` after joining the group `g`, and
/// `b` after the reordering, or `mid` itself when joining was refused.
pub open spec fn moved_after(
    a: Project,
    mid: Project,
    b: Project,
    o: ObjectRef,
    t: ObjectRef,
    g: ObjectId,
    moved: Result<(), DomainError>,
    r: Result<(), DomainError>,
) -> bool {
    &&& reparent_result(a, mid, o, g, moved)
    &&& moved is Err ==> b == mid
    &&& moved is Ok ==> reorder_result(mid, b, o, t, g, r)
}

/// `b` is what one call of a public editing operation of `Project` can leave of `a`, whether
/// the call succeeds or is refused: with a cube rotation for `set_placement`, and with the id
/// counter below its largest value for the operations that allocate an id.
pub open spec fn edited(a: Project, b: Project) -> bool {
    ||| b == a
    ||| exists|o: ObjectRef, n: Seq<char>, r: Result<(), DomainError>|
        #[trigger] rename_result(a, b, o, n, r)
    ||| exists|o: ObjectRef, v: bool, r: Result<(), DomainError>|
        #[trigger] visibility_result(a, b, o, v, r)
    ||| exists|o: ObjectRef, pl: Placement, r: Result<(), DomainError>|
        pl.rotation.spec_is_valid() && #[trigger] placement_result(a, b, o, pl, r)
    ||| exists|o: ObjectRef, axis: crate::geometry::GridAxis, t: i8, r: Result<(), DomainError>|
        #[trigger] rotation_result(a, b, o, axis, t, r)
    ||| exists|o: ObjectRef, r: Result<(), DomainError>| #[trigger] delete_result(a, b, o, r)
    ||| a.next_id < u64::MAX && exists|g: ObjectId, n: Seq<char>, r: Result<ObjectId, DomainError>|
        #[trigger] create_group_result(a, b, g, n, r)
    ||| a.next_id < u64::MAX && exists|g: ObjectId, n: Seq<char>, r: Result<ObjectId, DomainError>|
        #[trigger] create_shape_result(a, b, g, n, r)
    ||| a.next_id < u64::MAX && exists|
        g: ObjectId,
        n: Seq<char>,
        pl: Plane,
        r: Result<ObjectId, DomainError>,
    | #[trigger] create_piece_result(a, b, g, n, pl, r)
    ||| exists|t: VoxelObjectRef, bead: crate::model::Bead, r: Result<(), DomainError>|
        #[trigger] add_bead_result(a, b, t, bead, r)
    ||| exists|t: VoxelObjectRef, pos: GridPosition, r: Result<Color, DomainError>|
        #[trigger] remove_bead_result(a, b, t, pos, r)
    ||| exists|t: VoxelObjectRef, pos: GridPosition, c: Color, r: Result<(), DomainError>|
        #[trigger] recolor_result(a, b, t, pos, c, r)
    ||| exists|t: VoxelObjectRef, from: GridPosition, to: GridPosition, r: Result<(), DomainError>|
        #[trigger] move_bead_result(a, b, t, from, to, r)
    ||| exists|o: ObjectRef, g: ObjectId, r: Result<(), DomainError>|
        #[trigger] reparent_result(a, b, o, g, r)
    ||| exists|
        mid: Project,
        o: ObjectRef,
        t: ObjectRef,
        g: ObjectId,
        moved: Result<(), DomainError>,
        r: Result<(), DomainError>,
    |
        #[trigger] moved_after(a, mid, b, o, t, g, moved, r)
    ||| a.next_id < u64::MAX && exists|
        id: ObjectId,
        pl: Plane,
        n: Seq<char>,
        r: Result<ObjectId, DomainError>,
    | #[trigger] convert_result(a, b, id, pl, n, r)
}

/// One call of a public editing operation keeps a valid project valid.
pub proof fn lemma_edit_keeps_valid(a: Project, b: Project)
    requires
        validation_error(a) is None,
        edited(a, b),
    ensures
        validation_error(b) is None,
{
    if b == a {
    } else if exists|o: ObjectRef, n: Seq<char>, r: Result<(), DomainError>|
        #[trigger] rename_result(a, b, o, n, r) {
        let (o, n, r) = choose|o: ObjectRef, n: Seq<char>, r: Result<(), DomainError>|
            #[trigger] rename_result(a, b, o, n, r);
        lemma_rename_keeps_valid(a, b, o, n, r);
    } else if exists|o: ObjectRef, v: bool, r: Result<(), DomainError>|
        #[trigger] visibility_result(a, b, o, v, r) {
        let (o, v, r) = choose|o: ObjectRef, v: bool, r: Result<(), DomainError>|
            #[trigger] visibility_result(a, b, o, v, r);
        lemma_visibility_keeps_valid(a, b, o, v, r);
    } else if exists|o: ObjectRef, pl: Placement, r: Result<(), DomainError>|
        pl.rotation.spec_is_valid() && #[trigger] placement_result(a, b, o, pl, r) {
        let (o, pl, r) = choose|o: ObjectRef, pl: Placement, r: Result<(), DomainError>|
            pl.rotation.spec_is_valid() && #[trigger] placement_result(a, b, o, pl, r);
        lemma_placement_keeps_valid(a, b, o, pl, r);
    } else if exists|o: ObjectRef, axis: crate::geometry::GridAxis, t: i8, r: Result<(), DomainError>|
        #[trigger] rotation_result(a, b, o, axis, t, r) {
        let (o, axis, t, r) = choose|
            o: ObjectRef,
            axis: crate::geometry::GridAxis,
            t: i8,
            r: Result<(), DomainError>,
        | #[trigger] rotation_result(a, b, o, axis, t, r);
        lemma_rotation_keeps_valid(a, b, o, axis, t, r);
    } else if exists|o: ObjectRef, r: Result<(), DomainError>| #[trigger] delete_result(a, b, o, r) {
        let (o, r) = choose|o: ObjectRef, r: Result<(), DomainError>| #[trigger] delete_result(a, b, o, r);
        lemma_delete_keeps_valid(a, b, o, r);
    } else if a.next_id < u64::MAX && exists|g: ObjectId, n: Seq<char>, r: Result<ObjectId, DomainError>|
        #[trigger] create_group_result(a, b, g, n, r) {
        let (g, n, r) = choose|g: ObjectId, n: Seq<char>, r: Result<ObjectId, DomainError>|
            #[trigger] create_group_result(a, b, g, n, r);
        lemma_create_group_keeps_valid(a, b, g, n, r);
    } else if a.next_id < u64::MAX && exists|g: ObjectId, n: Seq<char>, r: Result<ObjectId, DomainError>|
        #[trigger] create_shape_result(a, b, g, n, r) {
        let (g, n, r) = choose|g: ObjectId, n: Seq<char>, r: Result<ObjectId, DomainError>|
            #[trigger] create_shape_result(a, b, g, n, r);
        lemma_create_shape_keeps_valid(a, b, g, n, r);
    } else if a.next_id < u64::MAX && exists|
        g: ObjectId,
        n: Seq<char>,
        pl: Plane,
        r: Result<ObjectId, DomainError>,
    | #[trigger] create_piece_result(a, b, g, n, pl, r) {
        let (g, n, pl, r) = choose|
            g: ObjectId,
            n: Seq<char>,
            pl: Plane,
            r: Result<ObjectId, DomainError>,
        | #[trigger] create_piece_result(a, b, g, n, pl, r);
        lemma_create_piece_keeps_valid(a, b, g, n, pl, r);
    } else if exists|t: VoxelObjectRef, bead: crate::model::Bead, r: Result<(), DomainError>|
        #[trigger] add_bead_result(a, b, t, bead, r) {
        let (t, bead, r) = choose|t: VoxelObjectRef, bead: crate::model::Bead, r: Result<(), DomainError>|
            #[trigger] add_bead_result(a, b, t, bead, r);
        lemma_add_bead_keeps_valid(a, b, t, bead, r);
    } else if exists|t: VoxelObjectRef, pos: GridPosition, r: Result<Color, DomainError>|
        #[trigger] remove_bead_result(a, b, t, pos, r) {
        let (t, pos, r) = choose|t: VoxelObjectRef, pos: GridPosition, r: Result<Color, DomainError>|
            #[trigger] remove_bead_result(a, b, t, pos, r);
        lemma_remove_bead_keeps_valid(a, b, t, pos, r);
    } else if exists|t: VoxelObjectRef, pos: GridPosition, c: Color, r: Result<(), DomainError>|
        #[trigger] recolor_result(a, b, t, pos, c, r) {
        let (t, pos, c, r) = choose|
            t: VoxelObjectRef,
            pos: GridPosition,
            c: Color,
            r: Result<(), DomainError>,
        | #[trigger] recolor_result(a, b, t, pos, c, r);
        lemma_recolor_keeps_valid(a, b, t, pos, c, r);
    } else if exists|t: VoxelObjectRef, from: GridPosition, to: GridPosition, r: Result<(), DomainError>|
        #[trigger] move_bead_result(a, b, t, from, to, r) {
        let (t, from, to, r) = choose|
            t: VoxelObjectRef,
            from: GridPosition,
            to: GridPosition,
            r: Result<(), DomainError>,
        | #[trigger] move_bead_result(a, b, t, from, to, r);
        lemma_move_bead_keeps_valid(a, b, t, from, to, r);
    } else if exists|o: ObjectRef, g: ObjectId, r: Result<(), DomainError>|
        #[trigger] reparent_result(a, b, o, g, r) {
        let (o, g, r) = choose|o: ObjectRef, g: ObjectId, r: Result<(), DomainError>|
            #[trigger] reparent_result(a, b, o, g, r);
        lemma_reparent_keeps_valid(a, b, o, g, r);
    } else if exists|
        mid: Project,
        o: ObjectRef,
        t: ObjectRef,
        g: ObjectId,
        moved: Result<(), DomainError>,
        r: Result<(), DomainError>,
    |
        #[trigger] moved_after(a, mid, b, o, t, g, moved, r) {
        let (mid, o, t, g, moved, r) = choose|
            mid: Project,
            o: ObjectRef,
            t: ObjectRef,
            g: ObjectId,
            moved: Result<(), DomainError>,
            r: Result<(), DomainError>,
        |
            #[trigger] moved_after(a, mid, b, o, t, g, moved, r);
        lemma_move_after_keeps_valid(a, mid, b, o, t, g, moved, r);
    } else {
        let (id, pl, n, r) = choose|
            id: ObjectId,
            pl: Plane,
            n: Seq<char>,
            r: Result<ObjectId, DomainError>,
        | #[trigger] convert_result(a, b, id, pl, n, r);
        lemma_convert_keeps_valid(a, b, id, pl, n, r);
    }
}

/// A project that starts valid (as `Project::new`, `from_legacy` and the sample project
/// leave one) stays valid through any sequence of calls of the public editing operations,
/// each succeeding or refused.
pub proof fn lemma_edits_keep_valid(states: Seq<Project>)
    requires
        states.len() > 0,
        validation_error(states[0]) is None,
        forall|i: int| 0 <= i < states.len() - 1 ==> edited(#[trigger] states[i], states[i + 1]),
    ensures
        forall|i: int| 0 <= i < states.len() ==> validation_error(#[trigger] states[i]) is None,
    decreases states.len(),
{
    if states.len() > 1 {
        let d = states.drop_last();
        assert forall|i: int| 0 <= i < d.len() - 1 implies edited(#[trigger] d[i], d[i + 1]) by {
            assert(d[i] == states[i] && d[i + 1] == states[i + 1]);
        }
        lemma_edits_keep_valid(d);
        let k = states.len() - 2;
        assert(d[k] == states[k]);
        assert(edited(states[k], states[k + 1]));
        lemma_edit_keeps_valid(states[k], states[k + 1]);
        assert forall|i: int| 0 <= i < states.len() implies validation_error(#[trigger] states[i]) is None by {
            if i < d.len() {
                assert(d[i] == states[i]);
            }
        }
    }
}

/// A valid project meets the requirement of `reparent_object` (and so of
/// `move_object_after`) for every object and every new parent: its hierarchy has no cycle.
pub proof fn lemma_valid_walk_ends(p: Project, object: ObjectRef, new_parent: ObjectId)
    requires
        validation_error(p) is None,
    ensures
        crate::hierarchy::reparent_walk_ends(p, object, new_parent),
{
    lemma_valid_iff_sound(p);
    if p.groups@.contains_key(new_parent) {
        assert(group_sound(p, new_parent));
        let n = choose|n: nat| crate::invariants::rooted_in(p.groups@, new_parent, n);
        assert(crate::hierarchy::ancestor_at(p.groups@, new_parent, n + 1) is None);
    }
}

} // verus!
