//! Placing, removing, recoloring and moving the beads of shapes and pieces.

use std::collections::BTreeMap;
use vstd::prelude::*;

use crate::geometry::{BeadKey, GridPosition};
use crate::model::{Bead, Color, DomainError, VoxelObjectRef};
use crate::project::{piece_set, shape_set, Project};

verus! {

broadcast use vstd::std_specs::btree::group_btree_axioms, vstd::laws_cmp::group_laws_cmp;

/// Whether the project stores the referenced shape or piece.
pub open spec fn voxel_exists(p: Project, target: VoxelObjectRef) -> bool {
    match target {
        VoxelObjectRef::Shape(id) => p.shapes@.contains_key(id),
        VoxelObjectRef::Piece(id) => p.pieces@.contains_key(id),
    }
}

/// The beads of the referenced shape or piece.
pub open spec fn voxel_beads(p: Project, target: VoxelObjectRef) -> Map<BeadKey, Color> {
    match target {
        VoxelObjectRef::Shape(id) => p.shapes@[id].beads@,
        VoxelObjectRef::Piece(id) => p.pieces@[id].beads@,
    }
}

/// The error reported for a shape or piece the project does not store.
pub open spec fn voxel_not_found(target: VoxelObjectRef) -> DomainError {
    match target {
        VoxelObjectRef::Shape(id) => DomainError::ShapeNotFound(id),
        VoxelObjectRef::Piece(id) => DomainError::PieceNotFound(id),
    }
}

/// `b` is `a` with the beads of `target` replaced by `beads` and nothing else changed.
pub open spec fn beads_set(
    a: Project,
    b: Project,
    target: VoxelObjectRef,
    beads: Map<BeadKey, Color>,
) -> bool {
    match target {
        VoxelObjectRef::Shape(id) => {
            &&& shape_set(a, b, id, b.shapes@[id])
            &&& b.shapes@[id] == (crate::model::Shape { beads: b.shapes@[id].beads, ..a.shapes@[id] })
            &&& b.shapes@[id].beads@ == beads
        },
        VoxelObjectRef::Piece(id) => {
            &&& piece_set(a, b, id, b.pieces@[id])
            &&& b.pieces@[id] == (crate::model::Piece { beads: b.pieces@[id].beads, ..a.pieces@[id] })
            &&& b.pieces@[id].beads@ == beads
        },
    }
}

/// Where the piece referenced by `target`, if it is one, would not accept a bead.
pub open spec fn off_piece_plane(
    p: Project,
    target: VoxelObjectRef,
    position: GridPosition,
) -> bool {
    match target {
        VoxelObjectRef::Shape(_) => false,
        VoxelObjectRef::Piece(id) => !p.pieces@[id].plane.spec_contains(position),
    }
}

/// What `add_bead` does: report a missing object, an off-plane position of a piece or an
/// occupied position, or place the bead.
pub open spec fn add_bead_result(
    a: Project,
    b: Project,
    target: VoxelObjectRef,
    bead: Bead,
    r: Result<(), DomainError>,
) -> bool {
    if !voxel_exists(a, target) {
        r == Err::<(), DomainError>(voxel_not_found(target)) && b == a
    } else if off_piece_plane(a, target, bead.position) {
        r == Err::<(), DomainError>(
            DomainError::PieceIsNotPlanar { piece_id: target.spec_id(), position: bead.position },
        ) && b == a
    } else if voxel_beads(a, target).contains_key(bead.position.spec_key()) {
        r == Err::<(), DomainError>(
            DomainError::PositionOccupied { object: target, position: bead.position },
        ) && b == a
    } else {
        r is Ok && beads_set(
            a,
            b,
            target,
            voxel_beads(a, target).insert(bead.position.spec_key(), bead.color),
        )
    }
}

/// What `remove_bead` does: the bead at the position taken out and its color returned, or a
/// missing object or bead reported.
pub open spec fn remove_bead_result(
    a: Project,
    b: Project,
    target: VoxelObjectRef,
    position: GridPosition,
    r: Result<Color, DomainError>,
) -> bool {
    if !voxel_exists(a, target) {
        r == Err::<Color, DomainError>(voxel_not_found(target)) && b == a
    } else if !voxel_beads(a, target).contains_key(position.spec_key()) {
        r == Err::<Color, DomainError>(DomainError::BeadNotFound { object: target, position })
            && b == a
    } else {
        r == Ok::<Color, DomainError>(voxel_beads(a, target)[position.spec_key()])
            && beads_set(
            a,
            b,
            target,
            voxel_beads(a, target).remove(position.spec_key()),
        )
    }
}

/// What `recolor_bead` does: the bead at the position given the color, or a missing object or
/// bead reported.
pub open spec fn recolor_result(
    a: Project,
    b: Project,
    target: VoxelObjectRef,
    position: GridPosition,
    color: Color,
    r: Result<(), DomainError>,
) -> bool {
    if !voxel_exists(a, target) {
        r == Err::<(), DomainError>(voxel_not_found(target)) && b == a
    } else if !voxel_beads(a, target).contains_key(position.spec_key()) {
        r == Err::<(), DomainError>(DomainError::BeadNotFound { object: target, position })
            && b == a
    } else {
        r is Ok && beads_set(
            a,
            b,
            target,
            voxel_beads(a, target).insert(position.spec_key(), color),
        )
    }
}

/// What `move_bead` does: the bead at `from` moved with its color to a free position `to` (on
/// the plane, for a piece); moving a bead onto itself only checks that it exists.
pub open spec fn move_bead_result(
    a: Project,
    b: Project,
    target: VoxelObjectRef,
    from: GridPosition,
    to: GridPosition,
    r: Result<(), DomainError>,
) -> bool {
    if from == to {
        b == a && if !voxel_exists(a, target) {
            r == Err::<(), DomainError>(voxel_not_found(target))
        } else if !voxel_beads(a, target).contains_key(from.spec_key()) {
            r == Err::<(), DomainError>(DomainError::BeadNotFound { object: target, position: from })
        } else {
            r is Ok
        }
    } else if !voxel_exists(a, target) {
        r == Err::<(), DomainError>(voxel_not_found(target)) && b == a
    } else if off_piece_plane(a, target, to) {
        r == Err::<(), DomainError>(
            DomainError::PieceIsNotPlanar { piece_id: target.spec_id(), position: to },
        ) && b == a
    } else if voxel_beads(a, target).contains_key(to.spec_key()) {
        r == Err::<(), DomainError>(DomainError::PositionOccupied { object: target, position: to })
            && b == a
    } else if !voxel_beads(a, target).contains_key(from.spec_key()) {
        r == Err::<(), DomainError>(DomainError::BeadNotFound { object: target, position: from })
            && b == a
    } else {
        r is Ok && beads_set(
            a,
            b,
            target,
            voxel_beads(a, target).remove(from.spec_key()).insert(
                to.spec_key(),
                voxel_beads(a, target)[from.spec_key()],
            ),
        )
    }
}

impl Project {
    /// Places a bead in a shape.
    pub fn add_shape_bead(&mut self, shape_id: crate::model::ObjectId, bead: Bead) -> (r: Result<
        (),
        DomainError,
    >)
        ensures
            add_bead_result(*old(self), *final(self), VoxelObjectRef::Shape(shape_id), bead, r),
    {
        self.add_bead(VoxelObjectRef::Shape(shape_id), bead)
    }

    /// Places a bead in a shape, or in a piece when the position lies on its plane; an
    /// occupied position is refused.
    pub fn add_bead(&mut self, target: VoxelObjectRef, bead: Bead) -> (r: Result<(), DomainError>)
        ensures
            add_bead_result(*old(self), *final(self), target, bead, r),
    {
        let key = bead.position.key();
        match target {
            VoxelObjectRef::Shape(id) => {
                if !self.shapes.contains_key(&id) {
                    return Err(DomainError::ShapeNotFound(id));
                }
                if self.shapes.get(&id).unwrap().beads.contains_key(&key) {
                    return Err(DomainError::PositionOccupied { object: target, position: bead.position });
                }
                let mut shape = self.shapes.remove(&id).unwrap();
                shape.beads.insert(key, bead.color);
                self.shapes.insert(id, shape);
                proof {
                    assert(self.shapes@ =~= old(self).shapes@.insert(id, self.shapes@[id]));
                }
            },
            VoxelObjectRef::Piece(id) => {
                if !self.pieces.contains_key(&id) {
                    return Err(DomainError::PieceNotFound(id));
                }
                if !self.pieces.get(&id).unwrap().plane.contains(bead.position) {
                    return Err(DomainError::PieceIsNotPlanar { piece_id: id, position: bead.position });
                }
                if self.pieces.get(&id).unwrap().beads.contains_key(&key) {
                    return Err(DomainError::PositionOccupied { object: target, position: bead.position });
                }
                let mut piece = self.pieces.remove(&id).unwrap();
                piece.beads.insert(key, bead.color);
                self.pieces.insert(id, piece);
                proof {
                    assert(self.pieces@ =~= old(self).pieces@.insert(id, self.pieces@[id]));
                }
            },
        }
        Ok(())
    }

    /// Takes the bead at `position` out of a shape or piece and returns its color.
    pub fn remove_bead(&mut self, target: VoxelObjectRef, position: GridPosition) -> (r: Result<
        Color,
        DomainError,
    >)
        ensures
            remove_bead_result(*old(self), *final(self), target, position, r),

    {
        let key = position.key();
        match target {
            VoxelObjectRef::Shape(id) => {
                if !self.shapes.contains_key(&id) {
                    return Err(DomainError::ShapeNotFound(id));
                }
                if !self.shapes.get(&id).unwrap().beads.contains_key(&key) {
                    return Err(DomainError::BeadNotFound { object: target, position });
                }
                let mut shape = self.shapes.remove(&id).unwrap();
                let color = shape.beads.remove(&key).unwrap();
                self.shapes.insert(id, shape);
                proof {
                    assert(self.shapes@ =~= old(self).shapes@.insert(id, self.shapes@[id]));
                }
                Ok(color)
            },
            VoxelObjectRef::Piece(id) => {
                if !self.pieces.contains_key(&id) {
                    return Err(DomainError::PieceNotFound(id));
                }
                if !self.pieces.get(&id).unwrap().beads.contains_key(&key) {
                    return Err(DomainError::BeadNotFound { object: target, position });
                }
                let mut piece = self.pieces.remove(&id).unwrap();
                let color = piece.beads.remove(&key).unwrap();
                self.pieces.insert(id, piece);
                proof {
                    assert(self.pieces@ =~= old(self).pieces@.insert(id, self.pieces@[id]));
                }
                Ok(color)
            },
        }
    }

    /// Gives the bead at `position` of a shape or piece a new color.
    pub fn recolor_bead(&mut self, target: VoxelObjectRef, position: GridPosition, color: Color) -> (r:
        Result<(), DomainError>)
        ensures
            recolor_result(*old(self), *final(self), target, position, color, r),

    {
        let key = position.key();
        match target {
            VoxelObjectRef::Shape(id) => {
                if !self.shapes.contains_key(&id) {
                    return Err(DomainError::ShapeNotFound(id));
                }
                if !self.shapes.get(&id).unwrap().beads.contains_key(&key) {
                    return Err(DomainError::BeadNotFound { object: target, position });
                }
                let mut shape = self.shapes.remove(&id).unwrap();
                shape.beads.insert(key, color);
                self.shapes.insert(id, shape);
                proof {
                    assert(self.shapes@ =~= old(self).shapes@.insert(id, self.shapes@[id]));
                }
            },
            VoxelObjectRef::Piece(id) => {
                if !self.pieces.contains_key(&id) {
                    return Err(DomainError::PieceNotFound(id));
                }
                if !self.pieces.get(&id).unwrap().beads.contains_key(&key) {
                    return Err(DomainError::BeadNotFound { object: target, position });
                }
                let mut piece = self.pieces.remove(&id).unwrap();
                piece.beads.insert(key, color);
                self.pieces.insert(id, piece);
                proof {
                    assert(self.pieces@ =~= old(self).pieces@.insert(id, self.pieces@[id]));
                }
            },
        }
        Ok(())
    }

    /// The color of the bead at `position` of a shape or piece.
    pub(crate) fn bead_color(&self, target: VoxelObjectRef, position: GridPosition) -> (r: Result<
        Color,
        DomainError,
    >)
        ensures
            if !voxel_exists(*self, target) {
                r == Err::<Color, DomainError>(voxel_not_found(target))
            } else if !voxel_beads(*self, target).contains_key(position.spec_key()) {
                r == Err::<Color, DomainError>(DomainError::BeadNotFound { object: target, position })
            } else {
                r == Ok::<Color, DomainError>(voxel_beads(*self, target)[position.spec_key()])
            },
    {
        let key = position.key();
        let beads: &BTreeMap<BeadKey, Color> = match target {
            VoxelObjectRef::Shape(id) => match self.shapes.get(&id) {
                Some(shape) => &shape.beads,
                None => return Err(DomainError::ShapeNotFound(id)),
            },
            VoxelObjectRef::Piece(id) => match self.pieces.get(&id) {
                Some(piece) => &piece.beads,
                None => return Err(DomainError::PieceNotFound(id)),
            },
        };
        match beads.get(&key) {
            Some(color) => Ok(*color),
            None => Err(DomainError::BeadNotFound { object: target, position }),
        }
    }

    /// Moves a bead to another position of the same shape or piece. Moving a bead onto its
    /// own position only checks that it exists.
    pub fn move_bead(&mut self, target: VoxelObjectRef, from: GridPosition, to: GridPosition) -> (r:
        Result<(), DomainError>)
        ensures
            move_bead_result(*old(self), *final(self), target, from, to, r),

    {
        if from == to {
            return match self.bead_color(target, from) {
                Ok(_) => Ok(()),
                Err(e) => Err(e),
            };
        }
        if let VoxelObjectRef::Piece(id) = target {
            let piece = match self.pieces.get(&id) {
                Some(piece) => piece,
                None => return Err(DomainError::PieceNotFound(id)),
            };
            if !piece.plane.contains(to) {
                return Err(DomainError::PieceIsNotPlanar { piece_id: id, position: to });
            }
        }
        if self.bead_color(target, to).is_ok() {
            return Err(DomainError::PositionOccupied { object: target, position: to });
        }
        let ghost middle = *self;
        let color = self.remove_bead(target, from)?;
        proof {
            assert(from.spec_key() != to.spec_key());
        }
        let r = self.add_bead(target, Bead { position: to, color });
        proof {
            match target {
                VoxelObjectRef::Shape(id) => {
                    assert(self.shapes@ =~= old(self).shapes@.insert(id, self.shapes@[id]));
                },
                VoxelObjectRef::Piece(id) => {
                    assert(self.pieces@ =~= old(self).pieces@.insert(id, self.pieces@[id]));
                },
            }
        }
        r
    }
}

/// The two projects hold the same objects with the same contents, bead maps compared by the
/// beads they hold.
pub open spec fn same_contents(a: Project, b: Project) -> bool {
    &&& crate::project::same_header(a, b)
    &&& a.next_id == b.next_id
    &&& a.groups@ == b.groups@
    &&& a.shapes@.dom() == b.shapes@.dom()
    &&& forall|k: crate::model::ObjectId| #[trigger]
        a.shapes@.contains_key(k) ==> a.shapes@[k] == (crate::model::Shape {
            beads: a.shapes@[k].beads,
            ..b.shapes@[k]
        }) && a.shapes@[k].beads@ == b.shapes@[k].beads@
    &&& a.pieces@.dom() == b.pieces@.dom()
    &&& forall|k: crate::model::ObjectId| #[trigger]
        a.pieces@.contains_key(k) ==> a.pieces@[k] == (crate::model::Piece {
            beads: a.pieces@[k].beads,
            ..b.pieces@[k]
        }) && a.pieces@[k].beads@ == b.pieces@[k].beads@
}

/// Placing two beads gives the same project in either order.
pub proof fn lemma_bead_order_irrelevant(
    a: Project,
    b1: Project,
    c1: Project,
    b2: Project,
    c2: Project,
    target: VoxelObjectRef,
    first: Bead,
    second: Bead,
)
    requires
        add_bead_result(a, b1, target, first, Ok(())),
        add_bead_result(b1, c1, target, second, Ok(())),
        add_bead_result(a, b2, target, second, Ok(())),
        add_bead_result(b2, c2, target, first, Ok(())),
    ensures
        same_contents(c1, c2),
{
    let before = voxel_beads(a, target);
    let x = first.position.spec_key();
    let y = second.position.spec_key();
    assert(before.insert(x, first.color).insert(y, second.color) =~= before.insert(
        y,
        second.color,
    ).insert(x, first.color));
    match target {
        VoxelObjectRef::Shape(id) => {
            assert(c1.shapes@.dom() =~= c2.shapes@.dom());
        },
        VoxelObjectRef::Piece(id) => {
            assert(c1.pieces@.dom() =~= c2.pieces@.dom());
        },
    }
}

/// Removing the bead just placed gives back its color and the project as it was.
pub proof fn lemma_remove_undoes_add(
    a: Project,
    b: Project,
    c: Project,
    target: VoxelObjectRef,
    bead: Bead,
    r: Result<Color, DomainError>,
)
    requires
        add_bead_result(a, b, target, bead, Ok(())),
        remove_bead_result(b, c, target, bead.position, r),
    ensures
        r == Ok::<Color, DomainError>(bead.color),
        same_contents(c, a),
{
    let before = voxel_beads(a, target);
    let x = bead.position.spec_key();
    assert(before.insert(x, bead.color).remove(x) =~= before);
    match target {
        VoxelObjectRef::Shape(id) => {
            assert(c.shapes@.dom() =~= a.shapes@.dom());
        },
        VoxelObjectRef::Piece(id) => {
            assert(c.pieces@.dom() =~= a.pieces@.dom());
        },
    }
}

} // verus!
