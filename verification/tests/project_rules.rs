use std::collections::BTreeMap;

use hakoniwa::{
    Bead, Color, DomainError, GridAxis, GridPosition, GridRotation, ObjectRef, OrthogonalOrientation,
    Placement, Plane, Project, StructuralWarning, VoxelObjectRef,
};

fn bead(x: i32, y: i32, z: i32, color: Color) -> Bead {
    Bead {
        position: GridPosition::new(x, y, z),
        color,
    }
}

#[test]
fn new_project_starts_with_assembly_root_and_counter() {
    let project = Project::new("fresh");
    assert_eq!(project.assembly.id, 1);
    assert_eq!(project.root_group_id(), 2);
    assert_eq!(project.next_id(), 3);
    assert_eq!(project.assembly.name, "Assembly");
    assert_eq!(project.groups.get(&2).unwrap().name, "Root");
    assert!(project.groups.get(&2).unwrap().visible);
}

#[test]
fn creation_reports_missing_parent_group() {
    let mut project = Project::new("p");
    assert_eq!(project.create_group(99, "g"), Err(DomainError::GroupNotFound(99)));
    assert_eq!(
        project.create_shape_in_group(99, "s"),
        Err(DomainError::GroupNotFound(99))
    );
    assert_eq!(
        project.create_piece(99, "q", Plane::Xy { z: 0 }),
        Err(DomainError::GroupNotFound(99))
    );
    assert_eq!(project.next_id(), 3);
}

#[test]
fn ids_are_handed_out_in_order_and_children_are_appended() {
    let mut project = Project::new("p");
    let root = project.root_group_id();
    let a = project.create_shape("a");
    let b = project.create_group(root, "b").unwrap();
    let c = project.create_piece(b, "c", Plane::Xz { y: 4 }).unwrap();
    assert_eq!((a, b, c), (3, 4, 5));
    assert_eq!(project.next_id(), 6);
    assert_eq!(project.shapes.get(&a).unwrap().sibling_order, 0);
    assert_eq!(project.groups.get(&b).unwrap().sibling_order, 1);
    assert_eq!(project.pieces.get(&c).unwrap().sibling_order, 0);
    assert_eq!(
        project.pieces.get(&c).unwrap().placement.orientation,
        OrthogonalOrientation::Xz
    );
    assert!(project.validate().is_ok());
}

#[test]
fn bead_edits_report_each_refusal() {
    let mut project = Project::new("beads");
    let shape = project.create_shape("s");
    let at = GridPosition::new(1, 2, 3);
    assert_eq!(
        project.add_shape_bead(77, bead(0, 0, 0, Color::red())),
        Err(DomainError::ShapeNotFound(77))
    );
    assert_eq!(
        project.add_bead(VoxelObjectRef::Piece(78), bead(0, 0, 0, Color::red())),
        Err(DomainError::PieceNotFound(78))
    );
    project.add_shape_bead(shape, bead(1, 2, 3, Color::red())).unwrap();
    assert_eq!(
        project.add_shape_bead(shape, bead(1, 2, 3, Color::brown())),
        Err(DomainError::PositionOccupied {
            object: VoxelObjectRef::Shape(shape),
            position: at
        })
    );
    let missing = GridPosition::new(9, 9, 9);
    assert_eq!(
        project.remove_bead(VoxelObjectRef::Shape(shape), missing),
        Err(DomainError::BeadNotFound {
            object: VoxelObjectRef::Shape(shape),
            position: missing
        })
    );
    assert_eq!(
        project.recolor_bead(VoxelObjectRef::Shape(shape), missing, Color::brown()),
        Err(DomainError::BeadNotFound {
            object: VoxelObjectRef::Shape(shape),
            position: missing
        })
    );
    project
        .recolor_bead(VoxelObjectRef::Shape(shape), at, Color::brown())
        .unwrap();
    assert_eq!(
        project.remove_bead(VoxelObjectRef::Shape(shape), at),
        Ok(Color::brown())
    );
    assert!(project.shapes.get(&shape).unwrap().beads.is_empty());
}

#[test]
fn moving_a_bead_keeps_its_color_and_checks_the_target() {
    let mut project = Project::new("move");
    let root = project.root_group_id();
    let piece = project.create_piece(root, "q", Plane::Xy { z: 0 }).unwrap();
    let target = VoxelObjectRef::Piece(piece);
    project.add_bead(target, bead(0, 0, 0, Color::brown())).unwrap();
    project.add_bead(target, bead(1, 0, 0, Color::red())).unwrap();
    assert_eq!(
        project.move_bead(target, GridPosition::new(0, 0, 0), GridPosition::new(0, 0, 1)),
        Err(DomainError::PieceIsNotPlanar {
            piece_id: piece,
            position: GridPosition::new(0, 0, 1)
        })
    );
    assert_eq!(
        project.move_bead(target, GridPosition::new(0, 0, 0), GridPosition::new(1, 0, 0)),
        Err(DomainError::PositionOccupied {
            object: target,
            position: GridPosition::new(1, 0, 0)
        })
    );
    assert_eq!(
        project.move_bead(target, GridPosition::new(5, 5, 0), GridPosition::new(6, 5, 0)),
        Err(DomainError::BeadNotFound {
            object: target,
            position: GridPosition::new(5, 5, 0)
        })
    );
    assert_eq!(
        project.move_bead(target, GridPosition::new(0, 0, 0), GridPosition::new(0, 0, 0)),
        Ok(())
    );
    project
        .move_bead(target, GridPosition::new(0, 0, 0), GridPosition::new(3, 4, 0))
        .unwrap();
    let beads = &project.pieces.get(&piece).unwrap().beads;
    assert_eq!(beads.len(), 2);
    assert_eq!(beads.get(&(3, 4, 0)), Some(&Color::brown()));
    assert!(beads.get(&(0, 0, 0)).is_none());
    assert!(project.validate().is_ok());
}

#[test]
fn deleting_objects_respects_the_root_and_children() {
    let mut project = Project::new("delete");
    let root = project.root_group_id();
    let group = project.create_group(root, "g").unwrap();
    let shape = project.create_shape_in_group(group, "s").unwrap();
    assert_eq!(
        project.delete_object(ObjectRef::Group(root)),
        Err(DomainError::CannotDeleteRootGroup)
    );
    assert_eq!(
        project.delete_object(ObjectRef::Group(group)),
        Err(DomainError::GroupIsNotEmpty(group))
    );
    assert_eq!(
        project.delete_object(ObjectRef::Group(500)),
        Err(DomainError::GroupNotFound(500))
    );
    assert_eq!(
        project.delete_object(ObjectRef::Piece(501)),
        Err(DomainError::PieceNotFound(501))
    );
    project.delete_object(ObjectRef::Shape(shape)).unwrap();
    project.delete_object(ObjectRef::Group(group)).unwrap();
    assert!(project.groups.get(&group).is_none());
    assert!(project.validate().is_ok());
}

#[test]
fn renaming_hiding_placing_and_turning_objects() {
    let mut project = Project::new("edit");
    let shape = project.create_shape("old");
    let object = ObjectRef::Shape(shape);
    project.rename_object(object, "new").unwrap();
    project.set_visibility(object, false).unwrap();
    project
        .rotate_object_quarter(object, GridAxis::Z, 1)
        .unwrap();
    let stored = project.shapes.get(&shape).unwrap();
    assert_eq!(stored.name, "new");
    assert!(!stored.visible);
    assert_eq!(
        stored.placement.rotation,
        GridRotation::identity().rotate_quarter(GridAxis::Z, 1)
    );
    assert!(project.validate().is_ok());
    assert_eq!(
        project.rename_object(ObjectRef::Piece(40), "x"),
        Err(DomainError::PieceNotFound(40))
    );

    let mut placement = Placement::default();
    placement.translation = GridPosition::new(4, 5, 6);
    project.set_placement(object, placement).unwrap();
    assert_eq!(project.shapes.get(&shape).unwrap().placement, placement);
    assert!(project.validate().is_ok());
}

#[test]
fn invalid_rotation_is_reported_by_validation() {
    let mut project = Project::new("rotation");
    let shape = project.create_shape("s");
    let mut placement = Placement::default();
    placement.rotation = GridRotation::from_matrix([[1, 0, 0], [0, 1, 0], [0, 0, -1]]);
    project.set_placement(ObjectRef::Shape(shape), placement).unwrap();
    assert_eq!(
        project.validate(),
        Err(DomainError::InvalidGridRotation(ObjectRef::Shape(shape)))
    );
}

#[test]
fn root_group_cannot_move_and_targets_must_be_siblings() {
    let mut project = Project::new("moves");
    let root = project.root_group_id();
    let group = project.create_group(root, "g").unwrap();
    assert_eq!(
        project.reparent_object(ObjectRef::Group(root), group),
        Err(DomainError::CannotReparentRootGroup)
    );
    assert_eq!(
        project.move_object_after(ObjectRef::Group(group), ObjectRef::Group(group)),
        Err(DomainError::InvalidSiblingTarget(ObjectRef::Group(group)))
    );
    assert_eq!(
        project.move_object_after(ObjectRef::Group(group), ObjectRef::Group(root)),
        Err(DomainError::InvalidSiblingTarget(ObjectRef::Group(root)))
    );
}

#[test]
fn converting_a_plane_splits_the_beads_of_a_shape() {
    let mut project = Project::new("convert");
    let shape = project.create_shape("s");
    project.add_shape_bead(shape, bead(0, 0, 0, Color::red())).unwrap();
    project.add_shape_bead(shape, bead(1, 0, 0, Color::red())).unwrap();
    project.add_shape_bead(shape, bead(0, 0, 2, Color::brown())).unwrap();
    assert_eq!(
        project.convert_shape_plane_to_piece(shape, Plane::Xy { z: 5 }, "none"),
        Err(DomainError::NoBeadsOnPlane {
            shape_id: shape,
            plane: Plane::Xy { z: 5 }
        })
    );
    assert_eq!(
        project.convert_shape_plane_to_piece(90, Plane::Xy { z: 0 }, "none"),
        Err(DomainError::ShapeNotFound(90))
    );
    let piece = project
        .convert_shape_plane_to_piece(shape, Plane::Xy { z: 0 }, "bottom")
        .unwrap();
    assert_eq!(piece, 4);
    assert_eq!(project.pieces.get(&piece).unwrap().beads.len(), 2);
    assert_eq!(project.shapes.get(&shape).unwrap().beads.len(), 1);
    assert_eq!(project.bead_count(), 3);
    assert_eq!(project.pieces.get(&piece).unwrap().name, "bottom");
    assert!(project.validate().is_ok());
}

#[test]
fn output_readiness_of_another_assembly_is_an_error() {
    let project = Project::new("p");
    assert_eq!(
        project.assembly_output_readiness(55),
        Err(DomainError::AssemblyNotFound(55))
    );
    assert!(project.output_readiness().is_ready());
}

#[test]
fn inventory_counts_piece_beads_by_color() {
    let mut project = Project::new("inventory");
    let root = project.root_group_id();
    let piece = project.create_piece(root, "q", Plane::Xy { z: 0 }).unwrap();
    let shape = project.create_shape("s");
    for x in 0..3 {
        project
            .add_bead(VoxelObjectRef::Piece(piece), bead(x, 0, 0, Color::red()))
            .unwrap();
    }
    project
        .add_bead(VoxelObjectRef::Piece(piece), bead(0, 1, 0, Color::brown()))
        .unwrap();
    project.add_shape_bead(shape, bead(0, 0, 9, Color::red())).unwrap();
    let inventory = project.inventory();
    assert_eq!(inventory.total, 4);
    assert_eq!(inventory.by_color.get(&(220, 58, 52)), Some(&3));
    assert_eq!(inventory.by_color.get(&(117, 78, 47)), Some(&1));
    assert_eq!(inventory.by_color.len(), 2);
    assert_eq!(project.bead_count(), 5);
}

#[test]
fn structural_warnings_report_single_contacts_and_unsupported_pieces() {
    let mut project = Project::new("structure");
    let root = project.root_group_id();
    let a = project.create_piece(root, "a", Plane::Xy { z: 0 }).unwrap();
    let b = project.create_piece(root, "b", Plane::Xy { z: 1 }).unwrap();
    project
        .add_bead(VoxelObjectRef::Piece(a), bead(0, 0, 0, Color::red()))
        .unwrap();
    project
        .add_bead(VoxelObjectRef::Piece(b), bead(0, 0, 1, Color::red()))
        .unwrap();
    assert_eq!(
        project.structural_warnings(),
        vec![
            StructuralWarning::ShallowJoint {
                piece_a: a,
                piece_b: b
            },
            StructuralWarning::UnsupportedPiece { piece_id: a },
        ]
    );

    project
        .add_bead(VoxelObjectRef::Piece(a), bead(1, 0, 0, Color::red()))
        .unwrap();
    project
        .add_bead(VoxelObjectRef::Piece(b), bead(1, 0, 1, Color::red()))
        .unwrap();
    assert_eq!(
        project.structural_warnings(),
        vec![StructuralWarning::UnsupportedPiece { piece_id: a }]
    );
}

#[test]
fn structural_warnings_count_face_contacts_only() {
    let mut project = Project::new("diagonal");
    let root = project.root_group_id();
    let a = project.create_piece(root, "a", Plane::Xy { z: 0 }).unwrap();
    let b = project.create_piece(root, "b", Plane::Xy { z: 0 }).unwrap();
    project
        .add_bead(VoxelObjectRef::Piece(a), bead(0, 0, 0, Color::red()))
        .unwrap();
    project
        .add_bead(VoxelObjectRef::Piece(b), bead(1, 1, 0, Color::red()))
        .unwrap();
    assert_eq!(
        project.structural_warnings(),
        vec![
            StructuralWarning::UnsupportedPiece { piece_id: a },
            StructuralWarning::UnsupportedPiece { piece_id: b },
        ]
    );
    assert_eq!(hakoniwa::structure::contact_count(
        &project.pieces.get(&a).unwrap().beads,
        &project.pieces.get(&b).unwrap().beads
    ), 0);
}

#[test]
fn legacy_projects_are_migrated_under_a_new_root() {
    let mut beads = BTreeMap::new();
    beads.insert((0, 0, 0), Color::red());
    let mut shapes = BTreeMap::new();
    shapes.insert(4, ("old shape".to_string(), beads.clone()));
    let mut pieces = BTreeMap::new();
    pieces.insert(7, ("old piece".to_string(), Plane::Yz { x: 0 }, beads));
    let project = Project::from_legacy("legacy".to_string(), shapes, pieces, 5).unwrap();
    assert_eq!(project.assembly.id, 8);
    assert_eq!(project.root_group_id(), 9);
    assert_eq!(project.next_id(), 10);
    assert_eq!(project.shapes.get(&4).unwrap().parent_group_id, 9);
    assert_eq!(project.shapes.get(&4).unwrap().sibling_order, 4);
    assert_eq!(
        project.pieces.get(&7).unwrap().placement.orientation,
        OrthogonalOrientation::Yz
    );
    assert!(project.validate().is_ok());
}

#[test]
fn legacy_migration_rejects_pieces_off_their_plane() {
    let mut beads = BTreeMap::new();
    beads.insert((1, 0, 0), Color::red());
    let mut pieces = BTreeMap::new();
    pieces.insert(2, ("off".to_string(), Plane::Yz { x: 0 }, beads));
    assert_eq!(
        Project::from_legacy("legacy".to_string(), BTreeMap::new(), pieces, 0),
        Err(DomainError::PieceIsNotPlanar {
            piece_id: 2,
            position: GridPosition::new(1, 0, 0)
        })
    );
}

fn with_next_id(p: Project, next_id: u64) -> Project {
    Project::from_parts(
        p.name,
        p.assembly,
        p.groups,
        p.shapes,
        p.pieces,
        p.output_settings,
        next_id,
    )
}

#[test]
fn validation_reports_broken_stored_projects() {
    let base = Project::new("broken");

    let mut missing_root = Project::new("broken");
    missing_root.assembly.root_group_id = 40;
    assert_eq!(missing_root.validate(), Err(DomainError::InvalidRootGroup(40)));

    let counter = with_next_id(Project::new("broken"), 2);
    assert_eq!(counter.validate(), Err(DomainError::InvalidNextId(2)));

    let mut mismatch = Project::new("broken");
    let mut shape_project = Project::new("other");
    let shape = shape_project.create_shape("s");
    let stored = shape_project.shapes.get(&shape).unwrap().clone();
    mismatch.shapes.insert(10, stored);
    let mismatch = with_next_id(mismatch, 11);
    assert_eq!(
        mismatch.validate(),
        Err(DomainError::ObjectIdMismatch { key: 10, actual: shape })
    );

    let mut duplicate = Project::new("broken");
    let mut group = duplicate.groups.get(&2).unwrap().clone();
    group.id = 1;
    group.parent_group_id = Some(2);
    duplicate.groups.insert(1, group);
    assert_eq!(duplicate.validate(), Err(DomainError::DuplicateObjectId(1)));

    assert!(base.validate().is_ok());
}

#[test]
fn validation_reports_a_cycle_of_groups() {
    let mut project = Project::new("cycle");
    let root = project.root_group_id();
    let a = project.create_group(root, "a").unwrap();
    let b = project.create_group(a, "b").unwrap();
    project.groups.get_mut(&a).unwrap().parent_group_id = Some(b);
    assert_eq!(project.validate(), Err(DomainError::HierarchyCycle(a)));
}

#[test]
fn bead_count_sums_shapes_and_pieces() {
    let project = hakoniwa::workspace::hammer_project();
    assert_eq!(project.bead_count(), 28);
    assert_eq!(project.inventory().total, 28);
    assert!(project.output_readiness().is_ready());
}
