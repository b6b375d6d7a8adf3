use std::collections::BTreeSet;

use hakoniwa::{
    Bead, Color, DomainError, GridAxis, GridPosition, GridRotation, ObjectRef, Piece, Plane,
    Project, VoxelObjectRef,
};

#[test]
fn creates_an_empty_valid_project_with_root_hierarchy() {
    let project = Project::new("empty");
    assert!(project.shapes.is_empty());
    assert!(project.pieces.is_empty());
    assert!(project.validate().is_ok());
    assert_eq!(
        project
            .groups
            .get(&project.root_group_id())
            .unwrap()
            .parent_group_id,
        None
    );
}

#[test]
fn rejects_non_planar_piece_on_creation_and_update() {
    let result = Piece::new(
        1,
        "bad",
        Plane::Xy { z: 0 },
        &[Bead {
            position: GridPosition::new(0, 0, 1),
            color: Color::red(),
        }],
    );
    assert_eq!(
        result,
        Err(DomainError::PieceIsNotPlanar {
            piece_id: 1,
            position: GridPosition::new(0, 0, 1)
        })
    );

    let mut project = Project::new("piece");
    let piece = project
        .create_piece(project.root_group_id(), "flat", Plane::Xy { z: 0 })
        .unwrap();
    assert_eq!(
        project.add_bead(
            VoxelObjectRef::Piece(piece),
            Bead {
                position: GridPosition::new(0, 0, 1),
                color: Color::red(),
            },
        ),
        Err(DomainError::PieceIsNotPlanar {
            piece_id: piece,
            position: GridPosition::new(0, 0, 1),
        })
    );
    assert!(project.pieces.get(&piece).unwrap().beads.is_empty());
}

#[test]
fn assembly_output_reports_shapes_and_becomes_ready_after_conversion() {
    let mut project = Project::new("hammer");
    let shape_id = project.create_shape("head");
    project
        .add_shape_bead(
            shape_id,
            Bead {
                position: GridPosition::new(0, 0, 0),
                color: Color::red(),
            },
        )
        .unwrap();
    let readiness = project
        .assembly_output_readiness(project.assembly.id)
        .unwrap();
    assert_eq!(readiness.remaining_shape_ids, vec![shape_id]);
    assert!(!readiness.is_ready());

    project
        .convert_shape_plane_to_piece(shape_id, Plane::Xy { z: 0 }, "head")
        .unwrap();
    assert!(project.output_readiness().is_ready());
}

#[test]
fn hierarchy_rejects_cycles() {
    let mut project = Project::new("groups");
    let parent = project
        .create_group(project.root_group_id(), "parent")
        .unwrap();
    let child = project.create_group(parent, "child").unwrap();
    assert_eq!(
        project.reparent_object(ObjectRef::Group(parent), child),
        Err(DomainError::HierarchyCycle(parent))
    );
    assert!(project.validate().is_ok());
}

#[test]
fn sibling_order_can_move_objects_after_mixed_object_types() {
    let mut project = Project::new("ordered");
    let root = project.root_group_id();
    let piece = project
        .create_piece(root, "piece", Plane::Xy { z: 0 })
        .unwrap();
    let group = project.create_group(root, "group").unwrap();
    let shape = project.create_shape_in_group(root, "shape").unwrap();
    assert_eq!(
        project.child_objects(root),
        vec![
            ObjectRef::Piece(piece),
            ObjectRef::Group(group),
            ObjectRef::Shape(shape),
        ]
    );

    project
        .move_object_after(ObjectRef::Piece(piece), ObjectRef::Shape(shape))
        .unwrap();
    assert_eq!(
        project.child_objects(root),
        vec![
            ObjectRef::Group(group),
            ObjectRef::Shape(shape),
            ObjectRef::Piece(piece),
        ]
    );
}

#[test]
fn moving_after_an_object_in_another_group_reparents_it() {
    let mut project = Project::new("ordered");
    let root = project.root_group_id();
    let left = project.create_group(root, "left").unwrap();
    let right = project.create_group(root, "right").unwrap();
    let moving = project
        .create_piece(left, "moving", Plane::Xy { z: 0 })
        .unwrap();
    let target = project
        .create_piece(right, "target", Plane::Xy { z: 0 })
        .unwrap();

    project
        .move_object_after(ObjectRef::Piece(moving), ObjectRef::Piece(target))
        .unwrap();
    assert!(project.child_objects(left).is_empty());
    assert_eq!(
        project.child_objects(right),
        vec![ObjectRef::Piece(target), ObjectRef::Piece(moving)]
    );
    assert_eq!(project.pieces.get(&moving).unwrap().parent_group_id, right);
}

#[test]
fn quarter_turns_form_the_24_valid_cube_rotations() {
    let rotated = GridRotation::identity().rotate_quarter(GridAxis::Z, 1);
    assert_eq!(
        rotated.apply(GridPosition::new(1, 2, 3)),
        GridPosition::new(-2, 1, 3)
    );
    assert_eq!(
        GridRotation::identity().rotate_quarter(GridAxis::X, 4),
        GridRotation::identity()
    );

    let mut rotations = BTreeSet::new();
    for x in 0..4 {
        for y in 0..4 {
            for z in 0..4 {
                let rotation = GridRotation::identity()
                    .rotate_quarter(GridAxis::X, x)
                    .rotate_quarter(GridAxis::Y, y)
                    .rotate_quarter(GridAxis::Z, z);
                assert!(rotation.is_valid());
                rotations.insert(rotation);
            }
        }
    }
    assert_eq!(rotations.len(), 24);
}

#[test]
fn inverse_rotation_restores_grid_positions() {
    let rotation = GridRotation::identity()
        .rotate_quarter(GridAxis::X, 1)
        .rotate_quarter(GridAxis::Z, 3);
    let position = GridPosition::new(3, -5, 7);

    assert_eq!(rotation.inverse().apply(rotation.apply(position)), position);
}
