use hakoniwa::ibcad::{check_storable, stored_format, FormatError, StoredFormat};
use hakoniwa::text::{parse_position, position_text};
use hakoniwa::plate::{
    div_ceil_positive, plate_count, project_position, saturating_mul_i32, saturating_sub_i32,
    unproject_position,
};
use hakoniwa::workspace::{
    drag_step, editor_colors, hammer_project, new_group_name, new_piece_name, non_empty_name,
    plane_label, selected_parent_group, selected_piece_id, visibility_label, NewPiecePlane,
};
use hakoniwa::{
    Bead, Color, Command, DomainError, Editor, GridAxis, GridPoint2d, GridPosition, GridRotation,
    ObjectRef, Piece, Placement, Plane, PlateLayout, Project,
};

#[test]
fn undo_brings_back_the_project_before_a_command() {
    let mut project = Project::new("undo");
    let shape = project.create_shape("s");
    let before = project.clone();
    let mut editor = Editor::new(project);
    assert!(!editor.can_undo());
    editor
        .execute(Command::AddBead {
            shape_id: shape,
            bead: Bead {
                position: GridPosition::new(1, 1, 1),
                color: Color::red(),
            },
        })
        .unwrap();
    let after = editor.project().clone();
    assert!(editor.can_undo());
    assert!(!editor.can_redo());
    assert!(editor.undo());
    assert_eq!(*editor.project(), before);
    assert!(editor.can_redo());
    assert!(!editor.can_undo());
    assert!(editor.redo());
    assert_eq!(*editor.project(), after);
    assert!(editor.undo());
    assert!(!editor.undo());
    assert_eq!(*editor.project(), before);
}

#[test]
fn a_refused_command_changes_nothing() {
    let mut project = Project::new("refused");
    let shape = project.create_shape("s");
    let mut editor = Editor::new(project);
    editor
        .place_bead(shape, GridPosition::new(0, 0, 0), Color::red())
        .unwrap();
    assert!(editor.undo());
    let before = editor.project().clone();
    assert_eq!(
        editor.execute(Command::ConvertPlaneToPiece {
            shape_id: shape,
            plane: Plane::Xy { z: 0 },
            name: "empty".to_string(),
        }),
        Err(DomainError::NoBeadsOnPlane {
            shape_id: shape,
            plane: Plane::Xy { z: 0 }
        })
    );
    assert_eq!(*editor.project(), before);
    assert!(editor.can_redo());
    assert!(!editor.can_undo());
}

#[test]
fn a_new_command_forgets_what_could_be_redone() {
    let mut project = Project::new("redo");
    let shape = project.create_shape("s");
    let mut editor = Editor::new(project);
    editor
        .place_bead(shape, GridPosition::new(0, 0, 0), Color::red())
        .unwrap();
    editor
        .place_bead(shape, GridPosition::new(1, 0, 0), Color::red())
        .unwrap();
    assert!(editor.undo());
    assert!(editor.can_redo());
    editor
        .execute(Command::ConvertPlaneToPiece {
            shape_id: shape,
            plane: Plane::Xy { z: 0 },
            name: "piece".to_string(),
        })
        .unwrap();
    assert!(!editor.can_redo());
    assert_eq!(editor.project().pieces.len(), 1);
    assert!(editor.project().validate().is_ok());
    assert!(!editor.redo());
}

#[test]
fn projection_and_placement_back_on_the_plane_are_inverse() {
    let point = GridPoint2d::new(-7, 12);
    for plane in [Plane::Xy { z: 3 }, Plane::Xz { y: -4 }, Plane::Yz { x: 8 }] {
        let position = unproject_position(plane, point);
        assert!(plane.contains(position));
        assert_eq!(project_position(plane, position), point);
    }
    assert_eq!(
        project_position(Plane::Xz { y: 0 }, GridPosition::new(1, 2, 3)),
        GridPoint2d::new(1, 3)
    );
    assert_eq!(
        unproject_position(Plane::Yz { x: 5 }, GridPoint2d::new(1, 2)),
        GridPosition::new(5, 1, 2)
    );
}

#[test]
fn the_layout_of_a_piece_covers_its_beads_with_the_fewest_plates() {
    let positions = [
        GridPosition::new(0, -3, 2),
        GridPosition::new(5, 40, 2),
        GridPosition::new(-30, 0, 2),
    ];
    let beads: Vec<Bead> = positions
        .iter()
        .map(|position| Bead {
            position: *position,
            color: Color::red(),
        })
        .collect();
    let piece = Piece::new(9, "wide", Plane::Xy { z: 2 }, &beads).unwrap();
    let layout = PlateLayout::for_piece(&piece);
    assert_eq!((layout.min_u, layout.min_v), (-30, -3));
    assert_eq!((layout.columns, layout.rows), (2, 2));
    for position in positions {
        let point = project_position(Plane::Xy { z: 2 }, position);
        assert!(layout.min_u <= point.u && point.u <= layout.max_u());
        assert!(layout.min_v <= point.v && point.v <= layout.max_v());
    }
    assert!(layout.max_u() - 29 < 5);
    assert!(layout.max_v() - 29 < 40);
}

#[test]
fn expansion_reaches_a_point_above_and_leaves_inner_points_alone() {
    let mut layout = PlateLayout::empty_piece();
    assert_eq!(layout.expand_to_include(GridPoint2d::new(3, -2)), GridPoint2d::new(0, 0));
    assert_eq!(layout, PlateLayout::empty_piece());
    let moved = layout.expand_to_include(GridPoint2d::new(15, -15));
    assert_eq!(moved, GridPoint2d::new(0, -29));
    assert_eq!((layout.columns, layout.rows), (2, 2));
    assert_eq!(layout.max_u(), 43);
    assert_eq!((layout.min_v, layout.max_v()), (-43, 14));
}

#[test]
fn plate_arithmetic_helpers() {
    assert_eq!(div_ceil_positive(58, 29), 2);
    assert_eq!(div_ceil_positive(59, 29), 3);
    assert_eq!(div_ceil_positive(1, 29), 1);
    assert_eq!(div_ceil_positive(-5, 29), 1);
    assert_eq!(div_ceil_positive(-58, 29), -2);
    assert_eq!(div_ceil_positive(7, -2), -2);
    assert_eq!(plate_count(14, 42), 1);
    assert_eq!(plate_count(2, 31), 2);
    assert_eq!(plate_count(0, 0), 1);
    assert_eq!(plate_count(5, 0), 1);
    assert_eq!(plate_count(100, 0), u32::MAX);
    assert_eq!(plate_count(i32::MIN, i32::MAX), 148102321);
    assert_eq!(saturating_sub_i32(i32::MIN, 1), i32::MIN);
    assert_eq!(saturating_sub_i32(5, 7), -2);
    assert_eq!(saturating_mul_i32(i32::MAX, 29), i32::MAX);
    assert_eq!(saturating_mul_i32(-3, 29), -87);
}

#[test]
fn rotations_compose_and_invert() {
    let turn = GridRotation::identity().rotate_quarter(GridAxis::Y, 1);
    let back = turn.inverse();
    assert_eq!(back.compose(turn), GridRotation::identity());
    assert_eq!(turn.compose(back), GridRotation::identity());
    assert!(back.is_valid());
    assert_eq!(
        turn.rotate_quarter(GridAxis::Y, 3),
        GridRotation::identity()
    );
    assert_eq!(
        GridRotation::identity().rotate_quarter(GridAxis::X, -1),
        GridRotation::identity().rotate_quarter(GridAxis::X, 3)
    );
    let position = GridPosition::new(1, 2, 3);
    assert_eq!(turn.apply(position), GridPosition::new(3, 2, -1));
    assert_eq!(GridRotation::identity().apply(position), position);
}

#[test]
fn the_stored_format_version_decides_how_a_file_is_read() {
    assert_eq!(stored_format(2), Ok(StoredFormat::Current));
    assert_eq!(stored_format(1), Ok(StoredFormat::Legacy));
    assert_eq!(stored_format(0), Err(FormatError::UnsupportedVersion(0)));
    assert_eq!(stored_format(3), Err(FormatError::UnsupportedVersion(3)));
}

#[test]
fn only_valid_projects_are_stored() {
    let project = hammer_project();
    assert_eq!(check_storable(&project), Ok(()));
    let project = Project::from_parts(
        project.name,
        project.assembly,
        project.groups,
        project.shapes,
        project.pieces,
        project.output_settings,
        1,
    );
    assert_eq!(check_storable(&project), Err(FormatError::InvalidProject));

    let mut skewed = Project::new("skewed");
    let shape = skewed.create_shape("s");
    let mut placement = Placement::default();
    placement.rotation = GridRotation::from_matrix([[100, 100, 100], [0, 1, 0], [0, 0, 1]]);
    skewed.set_placement(ObjectRef::Shape(shape), placement).unwrap();
    assert!(!skewed.rotations_in_range());
    assert_eq!(check_storable(&skewed), Err(FormatError::InvalidProject));
}

#[test]
fn the_sample_hammer_has_a_head_and_a_handle() {
    let project = hammer_project();
    assert_eq!(project.name, "ハンマー");
    assert_eq!(project.pieces.len(), 2);
    let head = project.pieces.get(&4).unwrap();
    let handle = project.pieces.get(&6).unwrap();
    assert_eq!(head.name, "頭部");
    assert_eq!(handle.name, "柄");
    assert_eq!(head.beads.len(), 21);
    assert_eq!(handle.beads.len(), 7);
    assert_eq!(handle.beads.get(&(0, -6, 1)), Some(&Color::brown()));
    assert_eq!(head.beads.get(&(-3, 1, 0)), Some(&Color::red()));
    assert!(project.validate().is_ok());
    assert_eq!(project.next_id(), 7);
}

#[test]
fn new_objects_get_a_trimmed_name_or_a_numbered_one() {
    assert_eq!(non_empty_name("  box \t", "Piece", 3), "box");
    assert_eq!(non_empty_name("\u{3000}箱\n", "Piece", 3), "箱");
    assert_eq!(non_empty_name("   ", "Piece", 12), "Piece 12");
    assert_eq!(non_empty_name("", "Group", 0), "Group 0");
    assert_eq!(non_empty_name("", "Group", 1234567), "Group 1234567");
    assert_eq!(
        non_empty_name("", "G", usize::MAX),
        format!("G {}", usize::MAX)
    );
}

#[test]
fn new_objects_go_into_the_selected_group() {
    let mut project = Project::new("select");
    let root = project.root_group_id();
    let group = project.create_group(root, "g").unwrap();
    let shape = project.create_shape_in_group(group, "s").unwrap();
    let piece = project.create_piece(group, "q", Plane::Xy { z: 0 }).unwrap();
    assert_eq!(selected_parent_group(&project, None), root);
    assert_eq!(selected_parent_group(&project, Some(ObjectRef::Group(group))), group);
    assert_eq!(selected_parent_group(&project, Some(ObjectRef::Group(77))), root);
    assert_eq!(selected_parent_group(&project, Some(ObjectRef::Shape(shape))), group);
    assert_eq!(selected_parent_group(&project, Some(ObjectRef::Piece(piece))), group);
    assert_eq!(selected_parent_group(&project, Some(ObjectRef::Piece(78))), root);
    assert_eq!(selected_piece_id(Some(ObjectRef::Piece(piece))), Some(piece));
    assert_eq!(selected_piece_id(Some(ObjectRef::Shape(shape))), None);
    assert_eq!(selected_piece_id(None), None);
}

#[test]
fn labels_and_palette() {
    assert_eq!(NewPiecePlane::default(), NewPiecePlane::Xy);
    assert_eq!(NewPiecePlane::Xz.plane(), Plane::Xz { y: 0 });
    assert_eq!(NewPiecePlane::Yz.plane(), Plane::Yz { x: 0 });
    assert_eq!(NewPiecePlane::Yz.label(), "YZ");
    assert_eq!(plane_label(Plane::Xz { y: 3 }), "XZ");
    assert_eq!(visibility_label(true), "表示");
    assert_eq!(visibility_label(false), "非表示");
    let colors = editor_colors();
    assert_eq!(colors.len(), 7);
    assert_eq!(colors[0], ("赤", Color::red()));
    assert_eq!(colors[1], ("茶", Color::brown()));
    assert_eq!(colors[6], ("白", Color(245, 245, 245)));
}

#[test]
fn positions_are_written_as_three_decimal_numbers() {
    assert_eq!(position_text(GridPosition::new(-3, 0, 42)), "-3,0,42");
    assert_eq!(
        position_text(GridPosition::new(i32::MIN, i32::MAX, 7)),
        "-2147483648,2147483647,7"
    );
    assert_eq!(parse_position("1,2,3"), Some(GridPosition::new(1, 2, 3)));
    assert_eq!(parse_position("+7,-0,0010"), Some(GridPosition::new(7, 0, 10)));
    assert_eq!(
        parse_position("-2147483648,0,2147483647"),
        Some(GridPosition::new(i32::MIN, 0, i32::MAX))
    );
    assert_eq!(parse_position("2147483648,0,0"), None);
    assert_eq!(parse_position("1,2"), None);
    assert_eq!(parse_position("1,2,3,4"), None);
    assert_eq!(parse_position("a,2,3"), None);
    assert_eq!(parse_position(" 1,2,3"), None);
    assert_eq!(parse_position(",,"), None);
    assert_eq!(parse_position("-,1,2"), None);
    assert_eq!(parse_position(""), None);
    for position in [
        GridPosition::new(0, 0, 0),
        GridPosition::new(-14, 29, -1000),
        GridPosition::new(i32::MAX, i32::MIN, -1),
    ] {
        assert_eq!(parse_position(&position_text(position)), Some(position));
    }
}

#[test]
fn placing_beads_in_either_order_gives_the_same_project() {
    let build = |reverse: bool| {
        let mut project = Project::new("deterministic");
        let shape = project.create_shape("shape");
        let beads = [
            Bead {
                position: GridPosition::new(-1, 2, 0),
                color: Color::red(),
            },
            Bead {
                position: GridPosition::new(3, 1, 0),
                color: Color::brown(),
            },
        ];
        let order = if reverse { [beads[1], beads[0]] } else { beads };
        for bead in order {
            project.add_shape_bead(shape, bead).unwrap();
        }
        project
    };
    assert_eq!(build(false), build(true));
}

#[test]
fn removing_the_bead_just_placed_restores_the_project() {
    let mut project = Project::new("undo bead");
    let shape = project.create_shape("s");
    let before = project.clone();
    let bead = Bead {
        position: GridPosition::new(4, -4, 2),
        color: Color::brown(),
    };
    project.add_shape_bead(shape, bead).unwrap();
    assert_eq!(
        project.remove_bead(hakoniwa::VoxelObjectRef::Shape(shape), bead.position),
        Ok(Color::brown())
    );
    assert_eq!(project, before);
}

#[test]
fn quarter_turns_repeat_after_four() {
    for axis in [GridAxis::X, GridAxis::Y, GridAxis::Z] {
        let start = GridRotation::identity()
            .rotate_quarter(GridAxis::X, 1)
            .rotate_quarter(GridAxis::Z, 2);
        let mut turned = start;
        for _ in 0..4 {
            turned = turned.rotate_quarter(axis, 1);
        }
        assert_eq!(turned, start);
        assert_eq!(start.rotate_quarter(axis, 5), start.rotate_quarter(axis, 1));
        assert_eq!(start.rotate_quarter(axis, -2), start.rotate_quarter(axis, 2));
    }
}

#[test]
fn every_rotation_of_the_cube_is_a_product_of_quarter_turns() {
    let mut count = 0;
    for (a, b, c) in [(0usize, 1usize, 2usize), (0, 2, 1), (1, 0, 2), (1, 2, 0), (2, 0, 1), (2, 1, 0)] {
        for signs in 0..8 {
            let mut matrix = [[0i8; 3]; 3];
            let columns = [a, b, c];
            for row in 0..3 {
                matrix[row][columns[row]] = if signs & (1 << row) == 0 { 1 } else { -1 };
            }
            let rotation = GridRotation::from_matrix(matrix);
            if !rotation.is_valid() {
                continue;
            }
            count += 1;
            let mut found = false;
            for x in 0..4 {
                for y in 0..4 {
                    for z in 0..4 {
                        let product = GridRotation::identity()
                            .rotate_quarter(GridAxis::X, x)
                            .rotate_quarter(GridAxis::Y, y)
                            .rotate_quarter(GridAxis::Z, z);
                        found = found || product == rotation;
                    }
                }
            }
            assert!(found);
        }
    }
    assert_eq!(count, 24);
}

#[test]
fn the_inventory_total_is_the_sum_of_its_counts() {
    let project = hammer_project();
    let inventory = project.inventory();
    assert_eq!(inventory.total, inventory.by_color.values().sum::<usize>());
    assert_eq!(inventory.total, 28);
}

#[test]
fn new_objects_are_numbered_by_what_the_project_holds() {
    let project = hammer_project();
    assert_eq!(new_piece_name(&project, "  "), "Piece 3");
    assert_eq!(new_group_name(&project, ""), "Group 1");
    assert_eq!(new_piece_name(&project, " axe "), "axe");
}

#[test]
fn a_drag_acts_once_per_cell() {
    let a = Some(GridPoint2d::new(1, 2));
    let b = Some(GridPoint2d::new(1, 3));
    assert_eq!(drag_step(false, true, a, a), (None, None));
    assert_eq!(drag_step(true, true, a, None), (a, a));
    assert_eq!(drag_step(true, true, a, a), (a, None));
    assert_eq!(drag_step(true, true, b, a), (b, b));
    assert_eq!(drag_step(true, false, b, a), (a, None));
    assert_eq!(drag_step(true, true, None, a), (a, None));
}

#[test]
fn the_sample_hammer_lists_its_objects_in_order() {
    let project = hammer_project();
    assert_eq!(project.shapes.get(&3).unwrap().sibling_order, 0);
    assert_eq!(project.pieces.get(&4).unwrap().sibling_order, 1);
    assert_eq!(project.shapes.get(&5).unwrap().sibling_order, 2);
    assert_eq!(project.pieces.get(&6).unwrap().sibling_order, 3);
    assert!(project.pieces.get(&6).unwrap().visible);
    assert_eq!(project.pieces.get(&6).unwrap().placement, Placement::default());
    assert_eq!(project.assembly.root_group_id, 2);
}

#[test]
fn turning_an_object_back_restores_the_project() {
    let mut project = hammer_project();
    let before = project.clone();
    project.rotate_object_quarter(ObjectRef::Piece(4), GridAxis::Y, 3).unwrap();
    assert_ne!(project, before);
    project.rotate_object_quarter(ObjectRef::Piece(4), GridAxis::Y, -3).unwrap();
    assert_eq!(project, before);
    assert_eq!(
        project.rotate_object_quarter(ObjectRef::Piece(99), GridAxis::Y, 1),
        Err(DomainError::PieceNotFound(99))
    );
}

#[test]
fn products_of_rotations_apply_in_turn_and_associate() {
    let a = GridRotation::identity().rotate_quarter(GridAxis::X, 1);
    let b = GridRotation::identity().rotate_quarter(GridAxis::Y, 1);
    let c = GridRotation::identity().rotate_quarter(GridAxis::Z, 3);
    let p = GridPosition::new(4, -7, 9);
    assert_eq!(a.compose(b).apply(p), a.apply(b.apply(p)));
    assert_eq!(a.compose(b).compose(c), a.compose(b.compose(c)));
    assert_eq!(GridRotation::identity().compose(a), a);
    assert_eq!(a.compose(GridRotation::identity()), a);
    assert_eq!(a.inverse().inverse(), a);
    assert_eq!(a.apply(a.inverse().apply(p)), p);
    assert_eq!(GridRotation::identity().rotate_quarter(GridAxis::Z, 1).apply(GridPosition::new(1, 2, 3)), GridPosition::new(-2, 1, 3));
}
