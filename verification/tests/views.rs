use std::collections::BTreeSet;

use hakoniwa::view3d::{exposed_faces, occupied_bounds, occupied_cells};
use hakoniwa::workspace::{piece_edit, tree_children, PieceEdit, PieceTool};
use hakoniwa::{Bead, Color, GridPosition, ObjectRef, Plane, Project, VoxelObjectRef};

#[test]
fn occupied_cells_gather_the_beads_of_all_pieces() {
    let project = hakoniwa::workspace::hammer_project();
    let cells = occupied_cells(&project);
    assert_eq!(cells.len(), 28);
    assert!(cells.contains(&(0, -6, 1)));
    assert!(cells.contains(&(3, 1, 0)));
    assert!(!cells.contains(&(4, 0, 0)));
    assert_eq!(
        occupied_bounds(&cells),
        Some((GridPosition::new(-3, -6, 0), GridPosition::new(3, 1, 1)))
    );
    assert_eq!(occupied_bounds(&BTreeSet::new()), None);
}

#[test]
fn only_uncovered_faces_are_drawn() {
    let mut cells = BTreeSet::new();
    cells.insert((0, 0, 0));
    cells.insert((1, 0, 0));
    cells.insert((0, 0, -1));
    assert_eq!(
        exposed_faces(GridPosition::new(0, 0, 0), &cells),
        vec![
            GridPosition::new(-1, 0, 0),
            GridPosition::new(0, 1, 0),
            GridPosition::new(0, -1, 0),
            GridPosition::new(0, 0, 1),
        ]
    );
    assert_eq!(exposed_faces(GridPosition::new(5, 5, 5), &cells).len(), 6);
}

#[test]
fn strokes_of_the_piece_editor() {
    let red = Color::red();
    let brown = Color::brown();
    assert_eq!(piece_edit(PieceTool::Pencil, None, red), Some(PieceEdit::Add(red)));
    assert_eq!(
        piece_edit(PieceTool::Pencil, Some(brown), red),
        Some(PieceEdit::Recolor(red))
    );
    assert_eq!(piece_edit(PieceTool::Pencil, Some(red), red), None);
    assert_eq!(piece_edit(PieceTool::Eraser, Some(red), brown), Some(PieceEdit::Erase));
    assert_eq!(piece_edit(PieceTool::Eraser, None, brown), None);
}

#[test]
fn the_parts_tree_lists_groups_then_shapes_then_pieces() {
    let mut project = Project::new("tree");
    let root = project.root_group_id();
    let piece = project.create_piece(root, "q", Plane::Xy { z: 0 }).unwrap();
    let shape = project.create_shape("s");
    let group = project.create_group(root, "g").unwrap();
    let inner = project.create_shape_in_group(group, "inner").unwrap();
    project
        .add_bead(
            VoxelObjectRef::Piece(piece),
            Bead {
                position: GridPosition::new(0, 0, 0),
                color: Color::red(),
            },
        )
        .unwrap();
    assert_eq!(
        tree_children(&project, root),
        vec![
            ObjectRef::Group(group),
            ObjectRef::Shape(shape),
            ObjectRef::Piece(piece),
        ]
    );
    assert_eq!(tree_children(&project, group), vec![ObjectRef::Shape(inner)]);
    assert!(tree_children(&project, 999).is_empty());
}

#[test]
fn the_parts_tree_of_a_missing_group_is_empty() {
    let mut project = Project::new("tree");
    let root = project.root_group_id();
    project.create_shape("s");
    assert_eq!(tree_children(&project, root).len(), 1);
    assert!(tree_children(&project, root + 100).is_empty());
}
