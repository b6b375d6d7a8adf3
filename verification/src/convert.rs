//! Turning the beads of a shape that lie on a plane into a new piece.

use std::collections::BTreeMap;
use vstd::prelude::*;

use crate::geometry::{key_position, BeadKey, GridPosition, Placement, Plane};
use crate::model::{Color, DomainError, ObjectId, Piece, Shape};
use crate::ordered::bead_keys;
use crate::project::{next_sibling_order_of, same_header, saturating_succ, Project};

verus! {

broadcast use vstd::std_specs::btree::group_btree_axioms, vstd::laws_cmp::group_laws_cmp;

/// The beads that lie on the plane.
pub open spec fn on_plane_beads(beads: Map<BeadKey, Color>, plane: Plane) -> Map<BeadKey, Color> {
    beads.restrict(beads.dom().filter(|k: BeadKey| plane.spec_contains(key_position(k))))
}

/// The beads that lie off the plane.
pub open spec fn off_plane_beads(beads: Map<BeadKey, Color>, plane: Plane) -> Map<BeadKey, Color> {
    beads.remove_keys(beads.dom().filter(|k: BeadKey| plane.spec_contains(key_position(k))))
}

/// What converting the plane of a shape does.
pub open spec fn convert_result(
    a: Project,
    b: Project,
    shape_id: ObjectId,
    plane: Plane,
    name: Seq<char>,
    r: Result<ObjectId, DomainError>,
) -> bool {
    if !a.shapes@.contains_key(shape_id) {
        r == Err::<ObjectId, DomainError>(DomainError::ShapeNotFound(shape_id)) && b == a
    } else if on_plane_beads(a.shapes@[shape_id].beads@, plane).dom().is_empty() {
        r == Err::<ObjectId, DomainError>(DomainError::NoBeadsOnPlane { shape_id, plane }) && b == a
    } else {
        let s = a.shapes@[shape_id];
        let id = a.next_id;
        &&& r == Ok::<ObjectId, DomainError>(id)
        &&& b.next_id == saturating_succ(a.next_id)
        &&& same_header(a, b)
        &&& b.groups@ == a.groups@
        &&& b.shapes@ == a.shapes@.insert(shape_id, b.shapes@[shape_id])
        &&& b.shapes@[shape_id] == (Shape { beads: b.shapes@[shape_id].beads, ..s })
        &&& b.shapes@[shape_id].beads@ == off_plane_beads(s.beads@, plane)
        &&& b.pieces@ == a.pieces@.insert(id, b.pieces@[id])
        &&& {
            let q = b.pieces@[id];
            &&& q.id == id
            &&& q.name@ == name
            &&& q.parent_group_id == s.parent_group_id
            &&& q.sibling_order == next_sibling_order_of(a, s.parent_group_id)
            &&& q.placement == (Placement { orientation: plane.spec_orientation(), ..s.placement })
            &&& q.visible == s.visible
            &&& q.plane == plane
            &&& q.beads@ == on_plane_beads(s.beads@, plane)
        }
    }
}

impl Project {
    /// Moves the beads of a shape that lie on `plane` into a new piece in the same group,
    /// placed like the shape but oriented as the plane, after the group's last child.
    pub fn convert_shape_plane_to_piece(&mut self, shape_id: ObjectId, plane: Plane, name: &str) -> (r:
        Result<ObjectId, DomainError>)
        ensures
            convert_result(*old(self), *final(self), shape_id, plane, name@, r),
    {
        if !self.shapes.contains_key(&shape_id) {
            return Err(DomainError::ShapeNotFound(shape_id));
        }
        let shape = self.shapes.get(&shape_id).unwrap();
        let keys = bead_keys(&shape.beads);
        let mut on_plane: BTreeMap<BeadKey, Color> = BTreeMap::new();
        let mut on_keys: Vec<BeadKey> = Vec::new();
        let mut i: usize = 0;
        while i < keys.len()
            invariant
                0 <= i <= keys.len(),
                keys@.to_set() == shape.beads@.dom(),
                on_plane@ == on_plane_beads(shape.beads@, plane).restrict(keys@.take(i as int).to_set()),
                on_keys@.to_set() == on_plane@.dom(),
            decreases keys.len() - i,
        {
            let k = keys[i];
            proof {
                crate::ordered::lemma_take_to_set(keys@, i as int);
                assert(keys@.to_set().contains(k));
            }
            if plane.contains(GridPosition::from_key(k)) {
                let color = *shape.beads.get(&k).unwrap();
                on_plane.insert(k, color);
                proof {
                    crate::ordered::lemma_push_to_set(on_keys@, k);
                }
                on_keys.push(k);
            }
            proof {
                assert(on_plane@ =~= on_plane_beads(shape.beads@, plane).restrict(keys@.take(i + 1).to_set()));
            }
            i = i + 1;
        }
        proof {
            assert(keys@.take(keys@.len() as int) =~= keys@);
            assert(on_plane@ =~= on_plane_beads(shape.beads@, plane));
        }
        if on_plane.is_empty() {
            return Err(DomainError::NoBeadsOnPlane { shape_id, plane });
        }
        let parent_group_id = shape.parent_group_id;
        let shape_placement = shape.placement;
        let visible = shape.visible;
        let piece_id = self.allocate_id();
        let sibling_order = self.next_sibling_order(parent_group_id);
        proof {
            assert(next_sibling_order_of(*self, parent_group_id) == next_sibling_order_of(
                *old(self),
                parent_group_id,
            )) by {
                crate::project::lemma_next_order_ignores_counter(*old(self), *self, parent_group_id);
            }
        }
        let mut placement = shape_placement;
        placement.orientation = plane.orientation();
        let piece = Piece {
            id: piece_id,
            name: name.to_owned(),
            parent_group_id,
            sibling_order,
            placement,
            visible,
            plane,
            beads: on_plane,
        };
        let mut shape = self.shapes.remove(&shape_id).unwrap();
        let mut j: usize = 0;
        let ghost initial_beads = shape.beads@;
        let ghost removed = shape;
        while j < on_keys.len()
            invariant
                0 <= j <= on_keys.len(),
                on_keys@.to_set() == on_plane_beads(initial_beads, plane).dom(),
                shape.beads@ == initial_beads.remove_keys(on_keys@.take(j as int).to_set()),
                shape == (Shape { beads: shape.beads, ..removed }),
            decreases on_keys.len() - j,
        {
            proof {
                crate::ordered::lemma_take_to_set(on_keys@, j as int);
            }
            shape.beads.remove(&on_keys[j]);
            proof {
                assert(shape.beads@ =~= initial_beads.remove_keys(on_keys@.take(j + 1).to_set()));
            }
            j = j + 1;
        }
        proof {
            assert(on_keys@.take(on_keys@.len() as int) =~= on_keys@);
            assert(shape.beads@ =~= off_plane_beads(initial_beads, plane));
        }
        self.shapes.insert(shape_id, shape);
        self.pieces.insert(piece_id, piece);
        proof {
            assert(self.next_id == saturating_succ(old(self).next_id));
            assert(same_header(*old(self), *self));
            assert(self.groups@ == old(self).groups@);
            assert(self.shapes@[shape_id].beads@ == off_plane_beads(old(self).shapes@[shape_id].beads@, plane));
            assert(self.pieces@[piece_id].beads@ == on_plane_beads(old(self).shapes@[shape_id].beads@, plane));
            assert(self.pieces@[piece_id].placement == (Placement { orientation: plane.spec_orientation(), ..old(self).shapes@[shape_id].placement }));
            assert(self.shapes@ =~= old(self).shapes@.insert(shape_id, self.shapes@[shape_id]));
            assert(self.pieces@ =~= old(self).pieces@.insert(piece_id, self.pieces@[piece_id]));
            let s0 = old(self).shapes@[shape_id];
            assert(!on_plane_beads(s0.beads@, plane).dom().is_empty());
            assert(self.shapes@[shape_id] == (Shape { beads: self.shapes@[shape_id].beads, ..s0 }));
            assert(self.pieces@[piece_id].name@ == name@);
            assert(self.pieces@[piece_id].sibling_order == next_sibling_order_of(*old(self), s0.parent_group_id));
            assert(piece_id == old(self).next_id);
        }
        Ok(piece_id)
    }
}

/// Converting a plane splits the beads of a shape: every bead goes either to the piece or
/// stays in the shape, never both, with its color.
pub proof fn lemma_conversion_splits_beads(beads: Map<BeadKey, Color>, plane: Plane)
    ensures
        on_plane_beads(beads, plane).dom().disjoint(off_plane_beads(beads, plane).dom()),
        on_plane_beads(beads, plane).union_prefer_right(off_plane_beads(beads, plane)) == beads,
{
    assert(on_plane_beads(beads, plane).union_prefer_right(off_plane_beads(beads, plane)) =~= beads);
}

} // verus!
