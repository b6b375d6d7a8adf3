//! Building a project from the contents of a format-1 file: shapes and pieces only.

use std::collections::BTreeMap;
use vstd::prelude::*;

use crate::geometry::{default_placement, BeadKey, Placement, Plane};
use crate::model::{Assembly, Color, DomainError, Group, ObjectId, OutputSettings, Piece, Shape};
use crate::ordered::sorted_ids;
use crate::project::{is_root_group, saturating_succ, Project};
use crate::validate::{rotations_checkable, validation_error};

verus! {

broadcast use vstd::std_specs::btree::group_btree_axioms, vstd::laws_cmp::group_laws_cmp;

/// A legacy shape: its name and beads.
pub type LegacyShape = (String, BTreeMap<BeadKey, Color>);

/// A legacy piece: its name, plane and beads.
pub type LegacyPiece = (String, Plane, BTreeMap<BeadKey, Color>);

/// The largest id of the legacy objects, 0 when there are none.
pub open spec fn legacy_max_id(ids: Set<ObjectId>) -> ObjectId {
    if exists|m: ObjectId| ids.contains(m) {
        choose|m: ObjectId| ids.contains(m) && forall|x: ObjectId| ids.contains(x) ==> x <= m
    } else {
        0
    }
}

/// The id given to the assembly: past every legacy id and at least the legacy counter.
pub open spec fn legacy_assembly_id(ids: Set<ObjectId>, legacy_next_id: ObjectId) -> ObjectId {
    let after = saturating_succ(legacy_max_id(ids));
    if legacy_next_id >= after {
        legacy_next_id
    } else {
        after
    }
}

/// `p` is the project that migrating the legacy contents builds (before validation): a new
/// assembly and root group after every legacy id, every shape and piece visible at the
/// origin directly under the root, ordered by id, pieces oriented as their planes.
pub open spec fn is_migrated(
    p: Project,
    name: String,
    shapes: Map<ObjectId, LegacyShape>,
    pieces: Map<ObjectId, LegacyPiece>,
    legacy_next_id: ObjectId,
) -> bool {
    let assembly_id = legacy_assembly_id(shapes.dom().union(pieces.dom()), legacy_next_id);
    let root = saturating_succ(assembly_id);
    &&& p.name == name
    &&& p.assembly.id == assembly_id
    &&& p.assembly.name@ == seq!['A', 's', 's', 'e', 'm', 'b', 'l', 'y']
    &&& p.assembly.root_group_id == root
    &&& p.groups@.dom() == set![root]
    &&& is_root_group(p.groups@[root], root)
    &&& p.shapes@.dom() == shapes.dom()
    &&& forall|k: ObjectId| #[trigger]
        p.shapes@.contains_key(k) ==> {
            let s = p.shapes@[k];
            &&& s.id == k
            &&& s.name == shapes[k].0
            &&& s.parent_group_id == root
            &&& s.sibling_order == k
            &&& s.placement == default_placement()
            &&& s.visible
            &&& s.beads == shapes[k].1
        }
    &&& p.pieces@.dom() == pieces.dom()
    &&& forall|k: ObjectId| #[trigger]
        p.pieces@.contains_key(k) ==> {
            let q = p.pieces@[k];
            &&& q.id == k
            &&& q.name == pieces[k].0
            &&& q.parent_group_id == root
            &&& q.sibling_order == k
            &&& q.placement == (Placement {
                orientation: pieces[k].1.spec_orientation(),
                ..default_placement()
            })
            &&& q.visible
            &&& q.plane == pieces[k].1
            &&& q.beads == pieces[k].2
        }
    &&& p.output_settings == (OutputSettings {
        page_size: crate::model::PageSize::A4,
        include_assembly_guide: true,
    })
    &&& p.next_id == saturating_succ(root)
}

impl Project {
    /// Migrates format-1 contents: the project is built as `is_migrated` describes and then
    /// validated.
    pub fn from_legacy(
        name: String,
        shapes: BTreeMap<ObjectId, LegacyShape>,
        pieces: BTreeMap<ObjectId, LegacyPiece>,
        legacy_next_id: ObjectId,
    ) -> (r: Result<Project, DomainError>)
        ensures
            exists|p: Project|
                #![trigger validation_error(p)]
                is_migrated(p, name, shapes@, pieces@, legacy_next_id) && match r {
                    Ok(q) => q == p && validation_error(p) is None,
                    Err(e) => validation_error(p) == Some(e),
                },
    {
        let ghost shapes0 = shapes@;
        let ghost pieces0 = pieces@;
        let shape_ids = sorted_ids(&shapes);
        let piece_ids = sorted_ids(&pieces);
        // the largest legacy id
        let mut max_legacy_id: ObjectId = 0;
        let mut any = false;
        let mut i: usize = 0;
        while i < shape_ids.len()
            invariant
                0 <= i <= shape_ids.len(),
                any ==> shape_ids@.take(i as int).to_set().contains(max_legacy_id),
                !any ==> i == 0 && max_legacy_id == 0,
                forall|j: int| 0 <= j < i ==> #[trigger] shape_ids@[j] <= max_legacy_id,
            decreases shape_ids.len() - i,
        {
            proof {
                crate::ordered::lemma_take_to_set(shape_ids@, i as int);
            }
            if !any || shape_ids[i] > max_legacy_id {
                max_legacy_id = shape_ids[i];
            }
            any = true;
            i = i + 1;
        }
        let ghost after_shapes = any;
        let mut i: usize = 0;
        while i < piece_ids.len()
            invariant
                0 <= i <= piece_ids.len(),
                shape_ids@.len() > 0 ==> after_shapes,
                after_shapes ==> shape_ids@.take(shape_ids@.len() as int).to_set().contains(
                    max_legacy_id,
                ) || piece_ids@.take(i as int).to_set().contains(max_legacy_id),
                !after_shapes ==> (any ==> piece_ids@.take(i as int).to_set().contains(
                    max_legacy_id,
                )) && (!any ==> i == 0 && max_legacy_id == 0),
                after_shapes ==> any,
                forall|j: int| 0 <= j < shape_ids@.len() ==> #[trigger] shape_ids@[j] <= max_legacy_id,
                forall|j: int| 0 <= j < i ==> #[trigger] piece_ids@[j] <= max_legacy_id,
            decreases piece_ids.len() - i,
        {
            proof {
                crate::ordered::lemma_take_to_set(piece_ids@, i as int);
            }
            if !any || piece_ids[i] > max_legacy_id {
                max_legacy_id = piece_ids[i];
            }
            any = true;
            i = i + 1;
        }
        proof {
            assert(shape_ids@.take(shape_ids@.len() as int) =~= shape_ids@);
            assert(piece_ids@.take(piece_ids@.len() as int) =~= piece_ids@);
            let ids = shapes0.dom().union(pieces0.dom());
            if any {
                assert(ids.contains(max_legacy_id));
                assert forall|x: ObjectId| ids.contains(x) implies x <= max_legacy_id by {
                    if shapes0.dom().contains(x) {
                        assert(shape_ids@.to_set().contains(x));
                        let j = choose|j: int| 0 <= j < shape_ids@.len() && shape_ids@[j] == x;
                        assert(shape_ids@[j] <= max_legacy_id);
                    } else {
                        assert(piece_ids@.to_set().contains(x));
                        let j = choose|j: int| 0 <= j < piece_ids@.len() && piece_ids@[j] == x;
                        assert(piece_ids@[j] <= max_legacy_id);
                    }
                }
                let m = choose|m: ObjectId| ids.contains(m) && forall|x: ObjectId| ids.contains(x) ==> x <= m;
                assert(m <= max_legacy_id && max_legacy_id <= m);
            } else {
                assert(shape_ids@.len() == 0);
                assert(piece_ids@.len() == 0);
                assert forall|m: ObjectId| !ids.contains(m) by {
                    if shapes0.dom().contains(m) {
                        assert(shape_ids@.to_set().contains(m));
                    }
                    if pieces0.dom().contains(m) {
                        assert(piece_ids@.to_set().contains(m));
                    }
                }
            }
            assert(legacy_max_id(ids) == max_legacy_id);
        }
        let after_max = max_legacy_id.saturating_add(1);
        let assembly_id = if legacy_next_id >= after_max { legacy_next_id } else { after_max };
        let root_group_id = assembly_id.saturating_add(1);
        let next_id = root_group_id.saturating_add(1);
        let mut groups: BTreeMap<ObjectId, Group> = BTreeMap::new();
        let root = Group {
            id: root_group_id,
            name: "Root".to_owned(),
            parent_group_id: None,
            sibling_order: 0,
            placement: Placement::default(),
            visible: true,
        };
        proof {
            reveal_strlit("Root");
            assert(root.name@ =~= seq!['R', 'o', 'o', 't']);
        }
        groups.insert(root_group_id, root);
        proof {
            assert(groups@.dom() =~= set![root_group_id]);
        }
        let mut shapes = shapes;
        let mut new_shapes: BTreeMap<ObjectId, Shape> = BTreeMap::new();
        let mut i: usize = 0;
        while i < shape_ids.len()
            invariant
                0 <= i <= shape_ids.len(),
                crate::ordered::enumerates(shape_ids@, shapes0.dom()),
                new_shapes@.dom() == shape_ids@.take(i as int).to_set(),
                shapes@ == shapes0.remove_keys(shape_ids@.take(i as int).to_set()),
                forall|k: ObjectId| #[trigger]
                    new_shapes@.contains_key(k) ==> {
                        let s = new_shapes@[k];
                        &&& s.id == k
                        &&& s.name == shapes0[k].0
                        &&& s.parent_group_id == root_group_id
                        &&& s.sibling_order == k
                        &&& s.placement == default_placement()
                        &&& s.visible
                        &&& s.beads == shapes0[k].1
                    },
            decreases shape_ids.len() - i,
        {
            let k = shape_ids[i];
            proof {
                crate::ordered::lemma_take_to_set(shape_ids@, i as int);
                assert(shape_ids@.to_set().contains(k));
                assert(!shape_ids@.take(i as int).to_set().contains(k));
                assert(shapes@.contains_key(k));
            }
            let (shape_name, beads) = shapes.remove(&k).unwrap();
            new_shapes.insert(
                k,
                Shape {
                    id: k,
                    name: shape_name,
                    parent_group_id: root_group_id,
                    sibling_order: k,
                    placement: Placement::default(),
                    visible: true,
                    beads,
                },
            );
            proof {
                assert(new_shapes@.dom() =~= shape_ids@.take(i + 1).to_set());
                assert(shapes@ =~= shapes0.remove_keys(shape_ids@.take(i + 1).to_set()));
            }
            i = i + 1;
        }
        assert(shape_ids@.take(shape_ids@.len() as int) =~= shape_ids@);
        let mut pieces = pieces;
        let mut new_pieces: BTreeMap<ObjectId, Piece> = BTreeMap::new();
        let mut i: usize = 0;
        while i < piece_ids.len()
            invariant
                0 <= i <= piece_ids.len(),
                crate::ordered::enumerates(piece_ids@, pieces0.dom()),
                new_pieces@.dom() == piece_ids@.take(i as int).to_set(),
                pieces@ == pieces0.remove_keys(piece_ids@.take(i as int).to_set()),
                forall|k: ObjectId| #[trigger]
                    new_pieces@.contains_key(k) ==> {
                        let q = new_pieces@[k];
                        &&& q.id == k
                        &&& q.name == pieces0[k].0
                        &&& q.parent_group_id == root_group_id
                        &&& q.sibling_order == k
                        &&& q.placement == (Placement {
                            orientation: pieces0[k].1.spec_orientation(),
                            ..default_placement()
                        })
                        &&& q.visible
                        &&& q.plane == pieces0[k].1
                        &&& q.beads == pieces0[k].2
                    },
            decreases piece_ids.len() - i,
        {
            let k = piece_ids[i];
            proof {
                crate::ordered::lemma_take_to_set(piece_ids@, i as int);
                assert(piece_ids@.to_set().contains(k));
                assert(!piece_ids@.take(i as int).to_set().contains(k));
                assert(pieces@.contains_key(k));
            }
            let (piece_name, plane, beads) = pieces.remove(&k).unwrap();
            let mut placement = Placement::default();
            placement.orientation = plane.orientation();
            new_pieces.insert(
                k,
                Piece {
                    id: k,
                    name: piece_name,
                    parent_group_id: root_group_id,
                    sibling_order: k,
                    placement,
                    visible: true,
                    plane,
                    beads,
                },
            );
            proof {
                assert(new_pieces@.dom() =~= piece_ids@.take(i + 1).to_set());
                assert(pieces@ =~= pieces0.remove_keys(piece_ids@.take(i + 1).to_set()));
            }
            i = i + 1;
        }
        assert(piece_ids@.take(piece_ids@.len() as int) =~= piece_ids@);
        let project = Project::from_parts(
            name,
            Assembly { id: assembly_id, name: "Assembly".to_owned(), root_group_id },
            groups,
            new_shapes,
            new_pieces,
            OutputSettings::default(),
            next_id,
        );
        proof {
            reveal_strlit("Assembly");
            assert(project.assembly.name@ =~= seq!['A', 's', 's', 'e', 'm', 'b', 'l', 'y']);
            crate::geometry::lemma_identity_valid();
            assert(is_migrated(project, name, shapes0, pieces0, legacy_next_id));
            assert(rotations_checkable(project));
        }
        match project.validate() {
            Ok(()) => Ok(project),
            Err(e) => Err(e),
        }
    }
}

} // verus!
