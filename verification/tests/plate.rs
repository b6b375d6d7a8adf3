use hakoniwa::plate::{project_position, unproject_position};
use hakoniwa::{Bead, Color, GridPoint2d, GridPosition, Piece, PlateLayout, Plane};

fn piece(plane: Plane, positions: &[GridPosition]) -> Piece {
    let beads: Vec<Bead> = positions
        .iter()
        .map(|position| Bead {
            position: *position,
            color: Color::red(),
        })
        .collect();
    Piece::new(1, "test", plane, &beads).unwrap()
}

#[test]
fn projection_round_trips_on_every_piece_plane() {
    for (plane, position) in [
        (Plane::Xy { z: 7 }, GridPosition::new(-3, 5, 7)),
        (Plane::Xz { y: -2 }, GridPosition::new(-3, -2, 5)),
        (Plane::Yz { x: 9 }, GridPosition::new(9, -3, 5)),
    ] {
        let projected = project_position(plane, position);
        assert_eq!(unproject_position(plane, projected), position);
    }
}

#[test]
fn empty_piece_uses_one_plate_centered_on_the_origin() {
    let layout = PlateLayout::for_piece(&piece(Plane::Xy { z: 0 }, &[]));
    assert_eq!(layout, PlateLayout::empty_piece());
    assert_eq!((layout.min_u, layout.max_u()), (-14, 14));
    assert_eq!((layout.min_v, layout.max_v()), (-14, 14));
}

#[test]
fn existing_piece_uses_the_minimum_number_of_plates() {
    let layout = PlateLayout::for_piece(&piece(
        Plane::Xy { z: 0 },
        &[GridPosition::new(14, 2, 0), GridPosition::new(42, 31, 0)],
    ));
    assert_eq!(layout.min_u, 14);
    assert_eq!(layout.min_v, 2);
    assert_eq!(layout.columns, 1);
    assert_eq!(layout.rows, 2);
    assert_eq!(layout.max_u(), 42);
    assert_eq!(layout.max_v(), 59);
}

#[test]
fn expansion_adds_connected_complete_plates_in_every_direction() {
    let mut layout = PlateLayout::empty_piece();
    let moved = layout.expand_to_include(GridPoint2d::new(-44, 73));
    assert_eq!(moved, GridPoint2d::new(-58, 0));
    assert_eq!((layout.min_u, layout.max_u()), (-72, 14));
    assert_eq!((layout.min_v, layout.max_v()), (-14, 101));
    assert_eq!((layout.columns, layout.rows), (3, 4));
}
