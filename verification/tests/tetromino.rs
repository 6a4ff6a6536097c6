use tetris::{rotate_tetromino, rotation_fits, Tetromino};

#[test]
fn spawn_cells_of_each_shape() {
    assert_eq!(Tetromino::I.cells(), [(4, 0), (3, 0), (5, 0), (6, 0)]);
    assert_eq!(Tetromino::L.cells(), [(4, 0), (3, 0), (5, 0), (5, -1)]);
    assert_eq!(Tetromino::J.cells(), [(3, 0), (3, -1), (4, 0), (5, 0)]);
    assert_eq!(Tetromino::T.cells(), [(4, 0), (3, 0), (4, -1), (5, 0)]);
    assert_eq!(Tetromino::S.cells(), [(5, 0), (4, 0), (5, -1), (6, -1)]);
    assert_eq!(Tetromino::Z.cells(), [(5, 0), (4, 0), (4, -1), (3, -1)]);
    assert_eq!(Tetromino::O.cells(), [(4, 0), (5, 0), (4, -1), (5, -1)]);
}

#[test]
fn shapes_are_numbered_in_order() {
    assert_eq!(Tetromino::from_index(0), Tetromino::I);
    assert_eq!(Tetromino::from_index(1), Tetromino::L);
    assert_eq!(Tetromino::from_index(2), Tetromino::J);
    assert_eq!(Tetromino::from_index(3), Tetromino::T);
    assert_eq!(Tetromino::from_index(4), Tetromino::S);
    assert_eq!(Tetromino::from_index(5), Tetromino::Z);
    assert_eq!(Tetromino::from_index(6), Tetromino::O);
}

#[test]
fn quarter_turn_of_the_i_piece() {
    assert_eq!(
        rotate_tetromino([(4, 0), (3, 0), (5, 0), (6, 0)]),
        [(4, 0), (4, -1), (4, 1), (4, 2)]
    );
}

#[test]
fn quarter_turn_maps_offsets_clockwise() {
    assert_eq!(
        rotate_tetromino([(10, 10), (11, 10), (10, 11), (9, 8)]),
        [(10, 10), (10, 11), (9, 10), (12, 9)]
    );
}

#[test]
fn quarter_turn_keeps_the_first_cell() {
    for shape in [
        Tetromino::I,
        Tetromino::L,
        Tetromino::J,
        Tetromino::T,
        Tetromino::S,
        Tetromino::Z,
        Tetromino::O,
    ] {
        let piece = shape.cells();
        assert_eq!(rotate_tetromino(piece)[0], piece[0]);
    }
}

#[test]
fn four_quarter_turns_are_a_full_turn() {
    let piece = Tetromino::S.cells();
    let mut turned = piece;
    for _ in 0..4 {
        turned = rotate_tetromino(turned);
    }
    assert_eq!(turned, piece);
}

#[test]
fn quarter_turn_of_the_o_piece_moves_the_block() {
    assert_eq!(
        rotate_tetromino(Tetromino::O.cells()),
        [(4, 0), (4, 1), (5, 0), (5, 1)]
    );
}

#[test]
fn quarter_turn_fixes_a_piece_symmetric_about_its_first_cell() {
    let piece = [(7, 3), (7, 3), (7, 3), (7, 3)];
    assert_eq!(rotate_tetromino(piece), piece);
}

#[test]
fn rotation_fits_ordinary_pieces() {
    assert!(rotation_fits(Tetromino::I.cells()));
    assert!(rotation_fits([(0, 0), (i32::MAX, 0), (0, i32::MAX), (i32::MIN + 1, 0)]));
}

#[test]
fn rotation_does_not_fit_when_a_coordinate_leaves_the_range() {
    assert!(!rotation_fits([(i32::MAX, 0), (i32::MAX, -1), (i32::MAX, 0), (i32::MAX, 0)]));
    assert!(!rotation_fits([(0, i32::MAX), (1, i32::MAX), (0, i32::MAX), (0, i32::MAX)]));
    assert!(!rotation_fits([(0, 0), (0, i32::MIN), (0, 0), (0, 0)]));
    assert!(!rotation_fits([(i32::MIN, 0), (i32::MIN, 1), (i32::MIN, 0), (i32::MIN, 0)]));
}

#[test]
fn rotation_at_the_edge_of_the_range() {
    assert_eq!(
        rotate_tetromino([(0, 0), (i32::MAX, 0), (0, i32::MAX), (i32::MIN + 1, 0)]),
        [(0, 0), (0, i32::MAX), (-i32::MAX, 0), (0, i32::MIN + 1)]
    );
}
