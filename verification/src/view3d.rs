//! What the 3D preview draws: the cells the pieces occupy, the box that holds them, and the
//! faces of a bead that no neighbouring bead covers.

use std::collections::BTreeSet;
use vstd::prelude::*;
use vstd::std_specs::iter::IteratorSpec;

use crate::geometry::{BeadKey, GridPosition};
use crate::model::ObjectId;
use crate::ordered::{bead_keys, keys_ordered, lemma_keys_ordered, sorted_ids};
use crate::project::Project;

verus! {

broadcast use vstd::std_specs::btree::group_btree_axioms;

/// The cells occupied by a bead of some piece.
pub open spec fn occupied_of(p: Project) -> Set<BeadKey> {
    Set::new(
        |k: BeadKey|
            exists|id: ObjectId| p.pieces@.contains_key(id) && #[trigger] p.pieces@[id].beads@.contains_key(k),
    )
}

/// The cells occupied by a bead of the pieces under the given keys.
pub open spec fn occupied_by(p: Project, keys: Seq<ObjectId>) -> Set<BeadKey> {
    Set::new(
        |k: BeadKey|
            exists|m: int| 0 <= m < keys.len() && #[trigger] p.pieces@[keys[m]].beads@.contains_key(k),
    )
}

/// The cells occupied by the beads of all pieces.
pub fn occupied_cells(project: &Project) -> (r: BTreeSet<BeadKey>)
    ensures
        r@ == occupied_of(*project),
{
    let keys = sorted_ids(&project.pieces);
    let mut cells: BTreeSet<BeadKey> = BTreeSet::new();
    proof {
        lemma_keys_ordered();
        assert(cells@ =~= occupied_by(*project, keys@.take(0)));
    }
    let mut i: usize = 0;
    while i < keys.len()
        invariant
            0 <= i <= keys.len(),
            keys@.to_set() == project.pieces@.dom(),
            keys_ordered(),
            cells@ == occupied_by(*project, keys@.take(i as int)),
        decreases keys.len() - i,
    {
        proof {
            assert(keys@.to_set().contains(keys@[i as int]));
        }
        let piece = project.pieces.get(&keys[i]).unwrap();
        let beads = bead_keys(&piece.beads);
        let ghost before = cells@;
        let mut j: usize = 0;
        while j < beads.len()
            invariant
                0 <= i < keys.len(),
                0 <= j <= beads.len(),
                keys_ordered(),
                beads@.to_set() == piece.beads@.dom(),
                cells@ == before.union(beads@.take(j as int).to_set()),
            decreases beads.len() - j,
        {
            cells.insert(beads[j]);
            proof {
                crate::ordered::lemma_take_to_set(beads@, j as int);
                assert(cells@ =~= before.union(beads@.take(j + 1).to_set()));
            }
            j = j + 1;
        }
        proof {
            assert(beads@.take(beads@.len() as int) =~= beads@);
            assert(cells@ =~= occupied_by(*project, keys@.take(i + 1))) by {
                assert forall|k: BeadKey| cells@.contains(k) implies occupied_by(
                    *project,
                    keys@.take(i + 1),
                ).contains(k) by {
                    if before.contains(k) {
                        let m = choose|m: int|
                            0 <= m < i && #[trigger] project.pieces@[keys@.take(i as int)[m]].beads@.contains_key(k);
                        assert(keys@.take(i + 1)[m] == keys@.take(i as int)[m]);
                    } else {
                        assert(keys@.take(i + 1)[i as int] == keys@[i as int]);
                    }
                }
                assert forall|k: BeadKey| occupied_by(*project, keys@.take(i + 1)).contains(k) implies cells@.contains(
                    k,
                ) by {
                    let m = choose|m: int|
                        0 <= m < i + 1 && #[trigger] project.pieces@[keys@.take(i + 1)[m]].beads@.contains_key(k);
                    if m < i {
                        assert(keys@.take(i as int)[m] == keys@.take(i + 1)[m]);
                        assert(occupied_by(*project, keys@.take(i as int)).contains(k));
                    } else {
                        assert(beads@.to_set().contains(k));
                    }
                }
            }
        }
        i = i + 1;
    }
    proof {
        assert(keys@.take(keys@.len() as int) =~= keys@);
        assert(cells@ =~= occupied_of(*project)) by {
            assert forall|k: BeadKey| cells@.contains(k) implies occupied_of(*project).contains(k) by {
                let m = choose|m: int| 0 <= m < keys@.len() && #[trigger] project.pieces@[keys@[m]].beads@.contains_key(k);
                assert(keys@.to_set().contains(keys@[m]));
            }
            assert forall|k: BeadKey| occupied_of(*project).contains(k) implies cells@.contains(k) by {
                let id = choose|id: ObjectId| project.pieces@.contains_key(id) && #[trigger] project.pieces@[id].beads@.contains_key(k);
                assert(keys@.to_set().contains(id));
                let m = choose|m: int| 0 <= m < keys@.len() && keys@[m] == id;
                assert(project.pieces@[keys@[m]].beads@.contains_key(k));
            }
        }
    }
    cells
}

/// The six face directions in the order the faces are drawn: `+x`, `-x`, `+y`, `-y`, `+z`,
/// `-z`.
pub open spec fn face_direction(i: int) -> GridPosition {
    if i == 0 {
        GridPosition { x: 1i32, y: 0i32, z: 0i32 }
    } else if i == 1 {
        GridPosition { x: -1i32, y: 0i32, z: 0i32 }
    } else if i == 2 {
        GridPosition { x: 0i32, y: 1i32, z: 0i32 }
    } else if i == 3 {
        GridPosition { x: 0i32, y: -1i32, z: 0i32 }
    } else if i == 4 {
        GridPosition { x: 0i32, y: 0i32, z: 1i32 }
    } else {
        GridPosition { x: 0i32, y: 0i32, z: -1i32 }
    }
}

/// The cell next to `position` in `direction`.
pub open spec fn neighbour_cell(position: GridPosition, direction: GridPosition) -> BeadKey {
    (
        (position.x + direction.x) as i32,
        (position.y + direction.y) as i32,
        (position.z + direction.z) as i32,
    )
}

/// The directions among the first `n` in which the neighbouring cell is free, in face order.
pub open spec fn exposed_among(position: GridPosition, occupied: Set<BeadKey>, n: int) -> Seq<
    GridPosition,
>
    decreases n,
{
    if n <= 0 {
        Seq::empty()
    } else {
        let earlier = exposed_among(position, occupied, n - 1);
        if occupied.contains(neighbour_cell(position, face_direction(n - 1))) {
            earlier
        } else {
            earlier.push(face_direction(n - 1))
        }
    }
}

/// The neighbours of the position can be computed: no coordinate is at a bound of `i32`.
pub open spec fn inside_grid(position: GridPosition) -> bool {
    &&& i32::MIN < position.x < i32::MAX
    &&& i32::MIN < position.y < i32::MAX
    &&& i32::MIN < position.z < i32::MAX
}

fn direction_at(i: usize) -> (r: GridPosition)
    requires
        i < 6,
    ensures
        r == face_direction(i as int),
{
    if i == 0 {
        GridPosition::new(1, 0, 0)
    } else if i == 1 {
        GridPosition::new(-1, 0, 0)
    } else if i == 2 {
        GridPosition::new(0, 1, 0)
    } else if i == 3 {
        GridPosition::new(0, -1, 0)
    } else if i == 4 {
        GridPosition::new(0, 0, 1)
    } else {
        GridPosition::new(0, 0, -1)
    }
}

/// The directions of the faces of a bead at `position` that no occupied cell covers, in
/// face order.
pub fn exposed_faces(position: GridPosition, occupied: &BTreeSet<BeadKey>) -> (r: Vec<GridPosition>)
    requires
        inside_grid(position),
    ensures
        r@ == exposed_among(position, occupied@, 6),
{
    proof {
        lemma_keys_ordered();
    }
    let mut faces: Vec<GridPosition> = Vec::new();
    let mut i: usize = 0;
    while i < 6
        invariant
            0 <= i <= 6,
            inside_grid(position),
            keys_ordered(),
            faces@ == exposed_among(position, occupied@, i as int),
        decreases 6 - i,
    {
        let direction = direction_at(i);
        let neighbour: BeadKey = (
            position.x + direction.x,
            position.y + direction.y,
            position.z + direction.z,
        );
        if !occupied.contains(&neighbour) {
            faces.push(direction);
        }
        i = i + 1;
    }
    faces
}

/// `lo` holds the smallest coordinates of the cells on each axis, each taken by some cell.
pub open spec fn lower_corner(cells: Set<BeadKey>, lo: GridPosition) -> bool {
    &&& forall|k: BeadKey|
        #[trigger] cells.contains(k) ==> lo.x <= k.0 && lo.y <= k.1 && lo.z <= k.2
    &&& exists|k: BeadKey| cells.contains(k) && k.0 == lo.x
    &&& exists|k: BeadKey| cells.contains(k) && k.1 == lo.y
    &&& exists|k: BeadKey| cells.contains(k) && k.2 == lo.z
}

/// `hi` holds the largest coordinates of the cells on each axis, each taken by some cell.
pub open spec fn upper_corner(cells: Set<BeadKey>, hi: GridPosition) -> bool {
    &&& forall|k: BeadKey|
        #[trigger] cells.contains(k) ==> k.0 <= hi.x && k.1 <= hi.y && k.2 <= hi.z
    &&& exists|k: BeadKey| cells.contains(k) && k.0 == hi.x
    &&& exists|k: BeadKey| cells.contains(k) && k.1 == hi.y
    &&& exists|k: BeadKey| cells.contains(k) && k.2 == hi.z
}

/// The cells of a set, each once.
fn set_cells(set: &BTreeSet<BeadKey>) -> (r: Vec<BeadKey>)
    ensures
        r@.to_set() == set@,
{
    let mut r: Vec<BeadKey> = Vec::new();
    proof {
        lemma_keys_ordered();
    }
    let cells = set.iter();
    for k in it: cells
        invariant
            r@ == it.seq().take(it.index()).unref(),
            it.seq() == vstd::std_specs::btree::spec_btree_keys_iter(set).remaining(),
    {
        assert(*k == *it.seq()[it.index()]);
        r.push(*k);
        assert(r@ =~= it.seq().take(it.index() + 1).unref());
    }
    let ghost s = vstd::std_specs::btree::spec_btree_keys_iter(set).remaining();
    assert(r@ =~= s.unref());
    r
}

/// The box that holds the occupied cells, as its two corners; `None` when no cell is
/// occupied.
pub fn occupied_bounds(occupied: &BTreeSet<BeadKey>) -> (r: Option<(GridPosition, GridPosition)>)
    ensures
        match r {
            None => occupied@.is_empty(),
            Some((lo, hi)) => lower_corner(occupied@, lo) && upper_corner(occupied@, hi),
        },
{
    let cells = set_cells(occupied);
    if cells.len() == 0 {
        proof {
            assert(occupied@ =~= Set::<BeadKey>::empty());
        }
        return None;
    }
    let first = cells[0];
    let mut lo = GridPosition::from_key(first);
    let mut hi = GridPosition::from_key(first);
    let ghost mut at: Seq<int> = seq![0int, 0int, 0int, 0int, 0int, 0int];
    let mut i: usize = 1;
    while i < cells.len()
        invariant
            1 <= i <= cells.len(),
            at.len() == 6,
            forall|q: int| 0 <= q < 6 ==> 0 <= #[trigger] at[q] < i,
            cells@[at[0]].0 == lo.x,
            cells@[at[1]].1 == lo.y,
            cells@[at[2]].2 == lo.z,
            cells@[at[3]].0 == hi.x,
            cells@[at[4]].1 == hi.y,
            cells@[at[5]].2 == hi.z,
            forall|m: int|
                0 <= m < i ==> lo.x <= #[trigger] cells@[m].0 <= hi.x && lo.y <= cells@[m].1 <= hi.y
                    && lo.z <= cells@[m].2 <= hi.z,
        decreases cells.len() - i,
    {
        let c = cells[i];
        if c.0 < lo.x {
            lo.x = c.0;
            proof {
                at = at.update(0, i as int);
            }
        }
        if c.1 < lo.y {
            lo.y = c.1;
            proof {
                at = at.update(1, i as int);
            }
        }
        if c.2 < lo.z {
            lo.z = c.2;
            proof {
                at = at.update(2, i as int);
            }
        }
        if c.0 > hi.x {
            hi.x = c.0;
            proof {
                at = at.update(3, i as int);
            }
        }
        if c.1 > hi.y {
            hi.y = c.1;
            proof {
                at = at.update(4, i as int);
            }
        }
        if c.2 > hi.z {
            hi.z = c.2;
            proof {
                at = at.update(5, i as int);
            }
        }
        proof {
            assert(c == cells@[i as int]);
            assert forall|m: int| 0 <= m < i + 1 implies lo.x <= #[trigger] cells@[m].0 <= hi.x
                && lo.y <= cells@[m].1 <= hi.y && lo.z <= cells@[m].2 <= hi.z by {
                if m == i {
                    assert(cells@[m] == c);
                }
            }
        }
        i = i + 1;
    }
    proof {
        let set = occupied@;
        assert forall|q: int| 0 <= q < 6 implies set.contains(cells@[#[trigger] at[q]]) by {
            assert(cells@.to_set().contains(cells@[at[q]]));
        }
        assert(set.contains(cells@[at[0]]));
        assert(set.contains(cells@[at[1]]));
        assert(set.contains(cells@[at[2]]));
        assert(set.contains(cells@[at[3]]));
        assert(set.contains(cells@[at[4]]));
        assert(set.contains(cells@[at[5]]));
        assert forall|k: BeadKey| #[trigger] set.contains(k) implies lo.x <= k.0 <= hi.x && lo.y
            <= k.1 <= hi.y && lo.z <= k.2 <= hi.z by {
            assert(cells@.to_set().contains(k));
            let m = choose|m: int| 0 <= m < cells@.len() && cells@[m] == k;
            assert(lo.x <= cells@[m].0 <= hi.x);
        }
    }
    Some((lo, hi))
}

} // verus!
