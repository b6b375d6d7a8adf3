//! The value types of a project: colors, beads, references to objects, the objects
//! themselves, and the errors that editing reports.

use std::collections::BTreeMap;
use vstd::prelude::*;

use crate::geometry::{
    default_placement, key_lt, key_position, BeadKey, GridPosition, Placement, Plane,
    key_less,
};
use crate::ordered::bead_keys;

verus! {

broadcast use vstd::std_specs::btree::group_btree_axioms, vstd::laws_cmp::group_laws_cmp;

pub type ObjectId = u64;

#[derive(Clone, Copy, Debug, PartialEq, Eq, Structural, PartialOrd, Ord, Hash)]
pub struct Color(pub u8, pub u8, pub u8);

/// The key under which a color is counted in an inventory.
pub type ColorKey = (u8, u8, u8);

impl Color {
    pub fn red() -> (r: Color)
        ensures
            r == Color(220, 58, 52),
    {
        Color(220, 58, 52)
    }

    pub fn brown() -> (r: Color)
        ensures
            r == Color(117, 78, 47),
    {
        Color(117, 78, 47)
    }

    pub open spec fn spec_key(self) -> ColorKey {
        (self.0, self.1, self.2)
    }

    #[verifier::when_used_as_spec(spec_key)]
    pub fn key(self) -> (r: ColorKey)
        ensures
            r == self.spec_key(),
    {
        (self.0, self.1, self.2)
    }
}

#[derive(Clone, Copy, Debug, PartialEq, Eq, Structural, PartialOrd, Ord, Hash)]
pub struct Bead {
    pub position: GridPosition,
    pub color: Color,
}

#[derive(Clone, Copy, Debug, PartialEq, Eq, Structural, PartialOrd, Ord, Hash)]
pub enum ObjectRef {
    Group(ObjectId),
    Shape(ObjectId),
    Piece(ObjectId),
}

impl ObjectRef {
    pub open spec fn spec_id(self) -> ObjectId {
        match self {
            ObjectRef::Group(id) => id,
            ObjectRef::Shape(id) => id,
            ObjectRef::Piece(id) => id,
        }
    }

    /// The id of the referenced object.
    #[verifier::when_used_as_spec(spec_id)]
    pub fn id(self) -> (r: ObjectId)
        ensures
            r == self.spec_id(),
    {
        match self {
            ObjectRef::Group(id) => id,
            ObjectRef::Shape(id) => id,
            ObjectRef::Piece(id) => id,
        }
    }
}

#[derive(Clone, Copy, Debug, PartialEq, Eq, Structural, PartialOrd, Ord, Hash)]
pub enum VoxelObjectRef {
    Shape(ObjectId),
    Piece(ObjectId),
}

impl VoxelObjectRef {
    pub open spec fn spec_id(self) -> ObjectId {
        match self {
            VoxelObjectRef::Shape(id) => id,
            VoxelObjectRef::Piece(id) => id,
        }
    }

    /// The id of the referenced object.
    #[verifier::when_used_as_spec(spec_id)]
    pub fn id(self) -> (r: ObjectId)
        ensures
            r == self.spec_id(),
    {
        match self {
            VoxelObjectRef::Shape(id) => id,
            VoxelObjectRef::Piece(id) => id,
        }
    }
}

#[derive(Clone, Debug, PartialEq, Eq)]
pub struct Assembly {
    pub id: ObjectId,
    pub name: String,
    pub root_group_id: ObjectId,
}

#[derive(Clone, Debug, PartialEq, Eq)]
pub struct Group {
    pub id: ObjectId,
    pub name: String,
    pub parent_group_id: Option<ObjectId>,
    pub sibling_order: u64,
    pub placement: Placement,
    pub visible: bool,
}

#[derive(Clone, Debug, PartialEq, Eq)]
pub struct Shape {
    pub id: ObjectId,
    pub name: String,
    pub parent_group_id: ObjectId,
    pub sibling_order: u64,
    pub placement: Placement,
    pub visible: bool,
    pub beads: BTreeMap<BeadKey, Color>,
}

#[derive(Clone, Debug, PartialEq, Eq)]
pub struct Piece {
    pub id: ObjectId,
    pub name: String,
    pub parent_group_id: ObjectId,
    pub sibling_order: u64,
    pub placement: Placement,
    pub visible: bool,
    pub plane: Plane,
    pub beads: BTreeMap<BeadKey, Color>,
}

/// The bead map that inserting the beads in order builds: a later bead at the same
/// position replaces an earlier one.
pub open spec fn beads_map(beads: Seq<Bead>) -> Map<BeadKey, Color>
    decreases beads.len(),
{
    if beads.len() == 0 {
        Map::empty()
    } else {
        beads_map(beads.drop_last()).insert(beads.last().position.spec_key(), beads.last().color)
    }
}

/// The bead at `key` lies off the plane.
pub open spec fn off_plane(plane: Plane, beads: Map<BeadKey, Color>, key: BeadKey) -> bool {
    beads.contains_key(key) && !plane.spec_contains(key_position(key))
}

/// Every bead lies on the plane.
pub open spec fn beads_on_plane(plane: Plane, beads: Map<BeadKey, Color>) -> bool {
    forall|key: BeadKey| beads.contains_key(key) ==> plane.spec_contains(key_position(key))
}

/// `key` is the least position, in grid order, of a bead off the plane.
pub open spec fn first_off_plane(plane: Plane, beads: Map<BeadKey, Color>, key: BeadKey) -> bool {
    off_plane(plane, beads, key) && forall|other: BeadKey|
        #![trigger off_plane(plane, beads, other)]
        off_plane(plane, beads, other) ==> !key_lt(other, key)
}

/// What validating the beads of a piece reports.
pub open spec fn planarity_check(id: ObjectId, plane: Plane, beads: Map<BeadKey, Color>) -> Result<
    (),
    DomainError,
> {
    if beads_on_plane(plane, beads) {
        Ok(())
    } else {
        Err(
            DomainError::PieceIsNotPlanar {
                piece_id: id,
                position: key_position(choose|key: BeadKey| first_off_plane(plane, beads, key)),
            },
        )
    }
}

/// Strict grid order is irreflexive, asymmetric and total on distinct keys.
pub proof fn lemma_key_order(a: BeadKey, b: BeadKey)
    ensures
        !key_lt(a, a),
        key_lt(a, b) ==> !key_lt(b, a),
        a != b ==> key_lt(a, b) || key_lt(b, a),
{
}

/// The least off-plane key is unique.
pub proof fn lemma_first_off_plane_unique(
    plane: Plane,
    beads: Map<BeadKey, Color>,
    a: BeadKey,
    b: BeadKey,
)
    requires
        first_off_plane(plane, beads, a),
        first_off_plane(plane, beads, b),
    ensures
        a == b,
{
    lemma_key_order(a, b);
    assert(off_plane(plane, beads, a));
    assert(off_plane(plane, beads, b));
}

/// Finds the least off-plane bead position of a map of beads.
pub fn check_beads_on_plane(id: ObjectId, plane: Plane, beads: &BTreeMap<BeadKey, Color>) -> (r:
    Result<(), DomainError>)
    ensures
        r == planarity_check(id, plane, beads@),
{
    let keys = bead_keys(beads);
    let mut best: Option<BeadKey> = None;
    let mut i: usize = 0;
    while i < keys.len()
        invariant
            0 <= i <= keys.len(),
            keys@.to_set() == beads@.dom(),
            match best {
                None => forall|j: int| 0 <= j < i ==> !off_plane(plane, beads@, #[trigger] keys@[j]),
                Some(b) => {
                    &&& off_plane(plane, beads@, b)
                    &&& exists|j: int| 0 <= j < i && keys@[j] == b
                    &&& forall|j: int|
                        0 <= j < i && off_plane(plane, beads@, #[trigger] keys@[j]) ==> !key_lt(
                            keys@[j],
                            b,
                        )
                },
            },
        decreases keys.len() - i,
    {
        let key = keys[i];
        proof {
            assert(keys@.to_set().contains(key));
        }
        if !plane.contains(GridPosition::from_key(key)) {
            match best {
                None => {
                    best = Some(key);
                },
                Some(b) => {
                    if key_less(key, b) {
                        proof {
                            assert forall|j: int|
                                0 <= j < i + 1 && off_plane(
                                    plane,
                                    beads@,
                                    #[trigger] keys@[j],
                                ) implies !key_lt(keys@[j], key) by {
                                if j < i {
                                    lemma_key_order(keys@[j], b);
                                    lemma_key_order(keys@[j], key);
                                    lemma_key_order(b, key);
                                } else {
                                    lemma_key_order(key, key);
                                }
                            }
                        }
                        best = Some(key);
                    } else {
                        proof {
                            lemma_key_order(key, b);
                        }
                    }
                },
            }
        }
        i = i + 1;
    }
    match best {
        None => {
            proof {
                assert forall|key: BeadKey| beads@.contains_key(key) implies plane.spec_contains(
                    key_position(key),
                ) by {
                    assert(keys@.to_set().contains(key));
                    let j = choose|j: int| 0 <= j < keys@.len() && keys@[j] == key;
                    assert(!off_plane(plane, beads@, keys@[j]));
                }
            }
            Ok(())
        },
        Some(b) => {
            proof {
                assert forall|other: BeadKey| off_plane(plane, beads@, other) implies !key_lt(
                    other,
                    b,
                ) by {
                    assert(keys@.to_set().contains(other));
                    let j = choose|j: int| 0 <= j < keys@.len() && keys@[j] == other;
                    assert(off_plane(plane, beads@, keys@[j]));
                }
                assert(first_off_plane(plane, beads@, b));
                assert(!beads_on_plane(plane, beads@));
                let c = choose|key: BeadKey| first_off_plane(plane, beads@, key);
                lemma_first_off_plane_unique(plane, beads@, b, c);
            }
            Err(DomainError::PieceIsNotPlanar { piece_id: id, position: GridPosition::from_key(b) })
        },
    }
}

impl Piece {
    /// A visible piece at the root position (parent group 0) holding the given beads.
    pub fn new(id: ObjectId, name: &str, plane: Plane, beads: &[Bead]) -> (r: Result<
        Piece,
        DomainError,
    >)
        ensures
            Piece::new_in_group_result(id, name@, 0, plane, beads@, r),
    {
        Piece::new_in_group(id, name, 0, plane, beads)
    }

    /// What `new_in_group` returns: the piece with the beads inserted in order, or the
    /// planarity error of that bead map.
    pub open spec fn new_in_group_result(
        id: ObjectId,
        name: Seq<char>,
        parent_group_id: ObjectId,
        plane: Plane,
        beads: Seq<Bead>,
        r: Result<Piece, DomainError>,
    ) -> bool {
        match planarity_check(id, plane, beads_map(beads)) {
            Err(e) => r == Err::<Piece, DomainError>(e),
            Ok(_) => r matches Ok(piece) && {
                &&& piece.id == id
                &&& piece.name@ == name
                &&& piece.parent_group_id == parent_group_id
                &&& piece.sibling_order == 0
                &&& piece.placement == (Placement {
                    orientation: plane.spec_orientation(),
                    ..default_placement()
                })
                &&& piece.visible
                &&& piece.plane == plane
                &&& piece.beads@ == beads_map(beads)
            },
        }
    }

    /// A visible piece in the given group, holding the given beads.
    pub fn new_in_group(
        id: ObjectId,
        name: &str,
        parent_group_id: ObjectId,
        plane: Plane,
        beads: &[Bead],
    ) -> (r: Result<Piece, DomainError>)
        ensures
            Piece::new_in_group_result(id, name@, parent_group_id, plane, beads@, r),
    {

        let mut map: BTreeMap<BeadKey, Color> = BTreeMap::new();
        let mut i: usize = 0;
        while i < beads.len()
            invariant
                0 <= i <= beads@.len(),
                map@ == beads_map(beads@.take(i as int)),
            decreases beads@.len() - i,
        {
            let bead = beads[i];
            map.insert(bead.position.key(), bead.color);
            proof {
                assert(beads@.take(i + 1).drop_last() =~= beads@.take(i as int));
            }
            i = i + 1;
        }
        proof {
            assert(beads@.take(beads@.len() as int) =~= beads@);
        }
        let mut placement = Placement::default();
        placement.orientation = plane.orientation();
        let piece = Piece {
            id,
            name: name.to_owned(),
            parent_group_id,
            sibling_order: 0,
            placement,
            visible: true,
            plane,
            beads: map,
        };
        match piece.validate() {
            Ok(()) => Ok(piece),
            Err(e) => Err(e),
        }
    }

    /// Every bead lies on the plane of the piece.
    pub open spec fn is_planar(&self) -> bool {
        beads_on_plane(self.plane, self.beads@)
    }

    /// `Ok` when every bead lies on the plane; otherwise the error names the least
    /// off-plane position in grid order.
    pub fn validate(&self) -> (r: Result<(), DomainError>)
        ensures
            r == planarity_check(self.id, self.plane, self.beads@),
            r is Ok <==> self.is_planar(),
    {
        check_beads_on_plane(self.id, self.plane, &self.beads)
    }
}

#[derive(Clone, Copy, Debug, PartialEq, Eq, Structural, PartialOrd, Ord, Hash)]
pub enum PageSize {
    A4,
    Letter,
}

#[derive(Clone, Copy, Debug, PartialEq, Eq, Structural)]
pub struct OutputSettings {
    pub page_size: PageSize,
    pub include_assembly_guide: bool,
}

impl Default for OutputSettings {
    fn default() -> (r: OutputSettings)
        ensures
            r == (OutputSettings { page_size: PageSize::A4, include_assembly_guide: true }),
    {
        OutputSettings { page_size: PageSize::A4, include_assembly_guide: true }
    }
}

#[derive(Clone, Debug, PartialEq, Eq)]
pub struct OutputReadiness {
    pub assembly_id: ObjectId,
    pub remaining_shape_ids: Vec<ObjectId>,
}

impl OutputReadiness {
    /// Ready when no shape still holds beads.
    pub fn is_ready(&self) -> (r: bool)
        ensures
            r == (self.remaining_shape_ids@.len() == 0),
    {
        self.remaining_shape_ids.len() == 0
    }
}

#[derive(Clone, Copy, Debug, PartialEq, Eq, Structural)]
pub enum DomainError {
    AssemblyNotFound(ObjectId),
    GroupNotFound(ObjectId),
    ShapeNotFound(ObjectId),
    PieceNotFound(ObjectId),
    BeadNotFound { object: VoxelObjectRef, position: GridPosition },
    PositionOccupied { object: VoxelObjectRef, position: GridPosition },
    PieceIsNotPlanar { piece_id: ObjectId, position: GridPosition },
    NoBeadsOnPlane { shape_id: ObjectId, plane: Plane },
    CannotDeleteRootGroup,
    CannotReparentRootGroup,
    InvalidSiblingTarget(ObjectRef),
    InvalidGridRotation(ObjectRef),
    GroupIsNotEmpty(ObjectId),
    HierarchyCycle(ObjectId),
    InvalidRootGroup(ObjectId),
    DuplicateObjectId(ObjectId),
    ObjectIdMismatch { key: ObjectId, actual: ObjectId },
    InvalidNextId(ObjectId),
}

#[derive(Clone, Debug, PartialEq, Eq)]
pub struct BeadInventory {
    pub by_color: BTreeMap<ColorKey, usize>,
    pub total: usize,
}

#[derive(Clone, Copy, Debug, PartialEq, Eq, Structural)]
pub enum StructuralWarning {
    ShallowJoint { piece_a: ObjectId, piece_b: ObjectId },
    UnsupportedPiece { piece_id: ObjectId },
}

} // verus!
