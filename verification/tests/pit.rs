use tetris::{get_random_tetromino, Pit, Tetromino};

const SHAPES: [Tetromino; 7] = [
    Tetromino::I,
    Tetromino::L,
    Tetromino::J,
    Tetromino::T,
    Tetromino::S,
    Tetromino::Z,
    Tetromino::O,
];

fn is_spawn_piece(piece: [(i32, i32); 4]) -> bool {
    SHAPES.iter().any(|shape| shape.cells() == piece)
}

/// Locks blocks at the given cells, four at a time, without clearing rows.
fn fill(pit: &mut Pit, cells: &[(i32, i32)]) {
    for cell in cells {
        pit.active_piece = [*cell; 4];
        pit.solidify_piece();
    }
}

fn full_row(width: i32, y: i32) -> Vec<(i32, i32)> {
    (0..width).map(|x| (x, y)).collect()
}

#[test]
fn new_pit_is_empty_with_a_spawned_piece() {
    let pit = Pit::new(10, 20);
    assert!(pit.get_solid_blocks().is_empty());
    assert!(is_spawn_piece(pit.active_piece));
    for y in 0..20 {
        for x in 0..10 {
            assert!(!pit.is_occupied(x, y));
        }
    }
}

#[test]
fn smallest_pit_can_be_built() {
    let pit = Pit::new(1, 1);
    assert!(pit.get_solid_blocks().is_empty());
    assert!(is_spawn_piece(pit.active_piece));
}

#[test]
fn cells_outside_the_grid_are_never_occupied() {
    let mut pit = Pit::new(3, 2);
    fill(&mut pit, &[(0, 0), (1, 0), (2, 0), (0, 1), (1, 1), (2, 1)]);
    assert!(pit.is_occupied(2, 1));
    assert!(!pit.is_occupied(3, 1));
    assert!(!pit.is_occupied(-1, 0));
    assert!(!pit.is_occupied(0, 2));
    assert!(!pit.is_occupied(0, -1));
    assert!(!pit.is_occupied(i32::MAX, i32::MIN));
}

#[test]
fn move_left_shifts_every_cell() {
    let mut pit = Pit::new(10, 20);
    pit.active_piece = [(4, 0), (3, 0), (5, 0), (5, -1)];
    assert!(pit.can_move_left());
    pit.move_piece_left();
    assert_eq!(pit.active_piece, [(3, 0), (2, 0), (4, 0), (4, -1)]);
}

#[test]
fn move_right_shifts_every_cell() {
    let mut pit = Pit::new(10, 20);
    pit.active_piece = [(4, 0), (3, 0), (5, 0), (5, -1)];
    assert!(pit.can_move_right());
    pit.move_piece_right();
    assert_eq!(pit.active_piece, [(5, 0), (4, 0), (6, 0), (6, -1)]);
}

#[test]
fn left_then_right_restores_a_free_piece() {
    let mut pit = Pit::new(10, 20);
    let start = Tetromino::I.cells();
    pit.active_piece = start;
    pit.move_piece_left();
    assert_eq!(pit.active_piece, [(3, 0), (2, 0), (4, 0), (5, 0)]);
    pit.move_piece_right();
    assert_eq!(pit.active_piece, start);
}

#[test]
fn left_then_right_restores_a_piece_at_the_right_wall() {
    let mut pit = Pit::new(10, 20);
    let start = [(8, 5), (7, 5), (9, 5), (9, 4)];
    pit.active_piece = start;
    assert!(!pit.can_move_right());
    pit.move_piece_left();
    assert_eq!(pit.active_piece, [(7, 5), (6, 5), (8, 5), (8, 4)]);
    pit.move_piece_right();
    assert_eq!(pit.active_piece, start);
}

#[test]
fn right_move_is_rejected_at_the_right_wall() {
    let mut pit = Pit::new(10, 20);
    let start = [(8, 5), (7, 5), (9, 5), (9, 4)];
    pit.active_piece = start;
    pit.move_piece_right();
    assert_eq!(pit.active_piece, start);
}

#[test]
fn left_move_is_rejected_at_the_left_wall() {
    let mut pit = Pit::new(10, 20);
    let start = [(1, 5), (0, 5), (2, 5), (3, 5)];
    pit.active_piece = start;
    assert!(!pit.can_move_left());
    pit.move_piece_left();
    assert_eq!(pit.active_piece, start);
}

#[test]
fn rejected_left_then_right_ends_one_column_right() {
    let mut pit = Pit::new(10, 20);
    pit.active_piece = [(1, 5), (0, 5), (2, 5), (3, 5)];
    pit.move_piece_left();
    pit.move_piece_right();
    assert_eq!(pit.active_piece, [(2, 5), (1, 5), (3, 5), (4, 5)]);
}

#[test]
fn left_then_blocked_right_leaves_the_piece_one_column_left() {
    let mut pit = Pit::new(10, 20);
    fill(&mut pit, &[(9, 5)]);
    pit.active_piece = [(6, 5), (7, 5), (8, 5), (9, 5)];
    pit.move_piece_left();
    assert_eq!(pit.active_piece, [(5, 5), (6, 5), (7, 5), (8, 5)]);
    pit.move_piece_right();
    assert_eq!(pit.active_piece, [(5, 5), (6, 5), (7, 5), (8, 5)]);
}

#[test]
fn a_single_blocked_cell_rejects_the_whole_move() {
    let mut pit = Pit::new(10, 20);
    fill(&mut pit, &[(2, 5), (7, 6)]);
    let start = [(4, 5), (3, 5), (5, 5), (6, 6)];
    pit.active_piece = start;
    assert!(!pit.can_move_left());
    assert!(!pit.can_move_right());
    pit.move_piece_left();
    assert_eq!(pit.active_piece, start);
    pit.move_piece_right();
    assert_eq!(pit.active_piece, start);
}

#[test]
fn walls_hold_for_cells_above_the_grid() {
    let mut pit = Pit::new(10, 20);
    let at_left = [(0, -1), (1, -1), (2, -1), (3, -1)];
    pit.active_piece = at_left;
    pit.move_piece_left();
    assert_eq!(pit.active_piece, at_left);
    let at_right = [(9, -2), (8, -2), (7, -2), (6, -2)];
    pit.active_piece = at_right;
    pit.move_piece_right();
    assert_eq!(pit.active_piece, at_right);
    pit.move_piece_left();
    assert_eq!(pit.active_piece, [(8, -2), (7, -2), (6, -2), (5, -2)]);
}

#[test]
fn sideways_moves_never_end_outside_the_columns() {
    let mut pit = Pit::new(10, 20);
    let outside_left = [(-5, 3), (-4, 3), (-3, 3), (-2, 3)];
    pit.active_piece = outside_left;
    pit.move_piece_right();
    assert_eq!(pit.active_piece, outside_left);
    let outside_right = [(12, 3), (13, 3), (14, 3), (15, 3)];
    pit.active_piece = outside_right;
    pit.move_piece_left();
    assert_eq!(pit.active_piece, outside_right);
}

#[test]
fn sideways_moves_keep_a_fitting_piece_in_bounds() {
    let mut pit = Pit::new(7, 20);
    fill(&mut pit, &[(0, 0), (6, 1)]);
    pit.active_piece = Tetromino::S.cells();
    for _ in 0..10 {
        pit.move_piece_left();
        for (x, y) in pit.active_piece {
            assert!(0 <= x && x < 7);
            assert!(!pit.is_occupied(x, y));
        }
    }
    assert_eq!(pit.active_piece, [(2, 0), (1, 0), (2, -1), (3, -1)]);
    for _ in 0..10 {
        pit.move_piece_right();
        for (x, y) in pit.active_piece {
            assert!(0 <= x && x < 7);
            assert!(!pit.is_occupied(x, y));
        }
    }
    assert_eq!(pit.active_piece, [(5, 0), (4, 0), (5, -1), (6, -1)]);
}

#[test]
fn move_down_lets_a_free_piece_fall_one_row() {
    let mut pit = Pit::new(10, 20);
    pit.active_piece = Tetromino::T.cells();
    assert!(pit.can_move_down());
    pit.move_piece_down();
    assert_eq!(pit.active_piece, [(4, 1), (3, 1), (4, 0), (5, 1)]);
    assert!(pit.get_solid_blocks().is_empty());
}

#[test]
fn a_piece_above_the_grid_falls_freely() {
    let mut pit = Pit::new(10, 20);
    fill(&mut pit, &[(4, 0)]);
    pit.active_piece = [(4, -3), (3, -3), (5, -3), (6, -3)];
    pit.move_piece_down();
    assert_eq!(pit.active_piece, [(4, -2), (3, -2), (5, -2), (6, -2)]);
    pit.move_piece_down();
    assert_eq!(pit.active_piece, [(4, -1), (3, -1), (5, -1), (6, -1)]);
    assert!(!pit.can_move_down());
}

#[test]
fn a_piece_on_the_floor_is_locked_and_replaced() {
    let mut pit = Pit::new(10, 3);
    pit.active_piece = [(4, 2), (3, 2), (5, 2), (6, 2)];
    assert!(!pit.can_move_down());
    pit.move_piece_down();
    assert_eq!(pit.get_solid_blocks(), vec![(3, 2), (4, 2), (5, 2), (6, 2)]);
    assert!(is_spawn_piece(pit.active_piece));
}

#[test]
fn a_piece_on_a_block_is_locked_where_it_rests() {
    let mut pit = Pit::new(10, 20);
    fill(&mut pit, &[(6, 5)]);
    pit.active_piece = [(4, 3), (3, 3), (5, 3), (6, 3)];
    pit.move_piece_down();
    assert_eq!(pit.active_piece, [(4, 4), (3, 4), (5, 4), (6, 4)]);
    pit.move_piece_down();
    assert_eq!(pit.get_solid_blocks(), vec![(3, 4), (4, 4), (5, 4), (6, 4), (6, 5)]);
    assert!(is_spawn_piece(pit.active_piece));
}

#[test]
fn cells_above_the_grid_leave_no_block_when_locked() {
    let mut pit = Pit::new(10, 1);
    pit.active_piece = Tetromino::L.cells();
    pit.move_piece_down();
    assert_eq!(pit.get_solid_blocks(), vec![(3, 0), (4, 0), (5, 0)]);
    assert!(is_spawn_piece(pit.active_piece));
}

#[test]
fn cells_beside_the_grid_leave_no_block_when_locked() {
    let mut pit = Pit::new(4, 4);
    pit.active_piece = [(2, 3), (3, 3), (4, 3), (5, 3)];
    pit.solidify_piece();
    assert_eq!(pit.get_solid_blocks(), vec![(2, 3), (3, 3)]);
    assert_eq!(pit.active_piece, [(2, 3), (3, 3), (4, 3), (5, 3)]);
}

#[test]
fn solidify_marks_the_cells_of_the_piece() {
    let mut pit = Pit::new(10, 20);
    pit.active_piece = [(4, 19), (3, 19), (4, 18), (5, 19)];
    pit.solidify_piece();
    assert_eq!(pit.get_solid_blocks(), vec![(4, 18), (3, 19), (4, 19), (5, 19)]);
    assert!(pit.is_occupied(4, 18));
    assert!(!pit.is_occupied(3, 18));
}

#[test]
fn completing_the_bottom_row_clears_it_and_spawns_a_piece() {
    let mut pit = Pit::new(4, 4);
    fill(&mut pit, &[(0, 3), (1, 3)]);
    assert_eq!(pit.get_solid_blocks(), vec![(0, 3), (1, 3)]);
    pit.active_piece = [(2, 3), (3, 3), (2, 3), (3, 3)];
    pit.move_piece_down();
    for x in 0..4 {
        assert!(!pit.is_occupied(x, 3));
    }
    assert!(pit.get_solid_blocks().is_empty());
    assert!(is_spawn_piece(pit.active_piece));
}

#[test]
fn rows_above_a_cleared_row_move_down() {
    let mut pit = Pit::new(4, 4);
    fill(&mut pit, &[(0, 3), (1, 3)]);
    pit.active_piece = [(2, 3), (3, 3), (2, 2), (3, 2)];
    pit.move_piece_down();
    assert_eq!(pit.get_solid_blocks(), vec![(2, 3), (3, 3)]);
    assert!(is_spawn_piece(pit.active_piece));
}

#[test]
fn the_grid_keeps_its_height_after_a_clear() {
    let mut pit = Pit::new(4, 4);
    fill(&mut pit, &full_row(4, 3));
    fill(&mut pit, &full_row(4, 1));
    pit.clear_completed_lines();
    assert!(pit.get_solid_blocks().is_empty());
    fill(&mut pit, &[(0, 0), (1, 1), (2, 2), (3, 3)]);
    assert_eq!(pit.get_solid_blocks(), vec![(0, 0), (1, 1), (2, 2), (3, 3)]);
    assert!(!pit.is_occupied(0, 4));
}

#[test]
fn clearing_several_rows_keeps_the_others_in_order() {
    let mut pit = Pit::new(4, 4);
    fill(&mut pit, &[(3, 0)]);
    fill(&mut pit, &full_row(4, 1));
    fill(&mut pit, &[(0, 2)]);
    fill(&mut pit, &full_row(4, 3));
    pit.clear_completed_lines();
    assert_eq!(pit.get_solid_blocks(), vec![(3, 2), (0, 3)]);
}

#[test]
fn clearing_a_grid_of_complete_rows_empties_it() {
    let mut pit = Pit::new(3, 3);
    for y in 0..3 {
        fill(&mut pit, &full_row(3, y));
    }
    pit.clear_completed_lines();
    assert!(pit.get_solid_blocks().is_empty());
}

#[test]
fn clearing_without_a_complete_row_changes_nothing() {
    let mut pit = Pit::new(4, 4);
    fill(&mut pit, &[(0, 3), (1, 3), (2, 3), (3, 2), (0, 0)]);
    let piece = [(1, 1), (2, 1), (1, 0), (2, 0)];
    pit.active_piece = piece;
    let before = pit.get_solid_blocks();
    pit.clear_completed_lines();
    assert_eq!(pit.get_solid_blocks(), before);
    assert_eq!(before, vec![(0, 0), (3, 2), (0, 3), (1, 3), (2, 3)]);
    assert_eq!(pit.active_piece, piece);
}

#[test]
fn no_complete_row_survives_a_lock() {
    let mut pit = Pit::new(4, 6);
    fill(&mut pit, &[(0, 5), (1, 5), (0, 4), (1, 4), (3, 4), (0, 3)]);
    pit.active_piece = [(2, 5), (3, 5), (2, 4), (2, 3)];
    pit.move_piece_down();
    assert_eq!(pit.get_solid_blocks(), vec![(0, 5), (2, 5)]);
    for y in 0..6 {
        assert!((0..4).any(|x| !pit.is_occupied(x, y)));
    }
}

#[test]
fn spawning_does_not_look_at_the_grid() {
    let mut pit = Pit::new(10, 2);
    fill(&mut pit, &[(3, 0), (4, 0), (5, 0), (6, 0), (3, 1)]);
    pit.active_piece = [(0, 1), (1, 1), (0, 0), (1, 0)];
    pit.move_piece_down();
    assert!(is_spawn_piece(pit.active_piece));
    assert!(pit.active_piece.iter().any(|&(x, y)| pit.is_occupied(x, y)));
}

#[test]
fn generating_a_piece_leaves_the_grid_alone() {
    let mut pit = Pit::new(10, 20);
    fill(&mut pit, &[(0, 19), (9, 19)]);
    pit.active_piece = [(5, 5); 4];
    pit.generate_new_piece();
    assert!(is_spawn_piece(pit.active_piece));
    assert_eq!(pit.get_solid_blocks(), vec![(0, 19), (9, 19)]);
}

#[test]
fn solid_blocks_come_row_by_row() {
    let mut pit = Pit::new(3, 3);
    fill(&mut pit, &[(2, 0), (0, 2), (1, 1), (0, 0), (2, 2)]);
    assert_eq!(pit.get_solid_blocks(), vec![(0, 0), (2, 0), (1, 1), (0, 2), (2, 2)]);
}

#[test]
fn random_pieces_are_spawn_shapes_and_vary() {
    let first = get_random_tetromino();
    let mut varied = false;
    for _ in 0..2000 {
        let piece = get_random_tetromino();
        assert!(is_spawn_piece(piece));
        varied = varied || piece != first;
    }
    assert!(varied);
}

#[test]
fn rotate_piece_turns_about_the_first_cell() {
    let mut pit = Pit::new(10, 20);
    pit.active_piece = [(4, 5), (3, 5), (5, 5), (5, 4)];
    assert!(pit.can_rotate());
    pit.rotate_piece();
    assert_eq!(pit.active_piece, [(4, 5), (4, 4), (4, 6), (5, 6)]);
    assert!(pit.get_solid_blocks().is_empty());
}

#[test]
fn rotate_piece_ignores_walls_and_blocks() {
    let mut pit = Pit::new(10, 20);
    fill(&mut pit, &[(0, 11)]);
    pit.active_piece = [(0, 10), (1, 10), (2, 10), (0, 9)];
    pit.rotate_piece();
    assert_eq!(pit.active_piece, [(0, 10), (0, 11), (0, 12), (1, 10)]);
    pit.active_piece = [(0, 10), (0, 11), (0, 12), (0, 13)];
    pit.rotate_piece();
    assert_eq!(pit.active_piece, [(0, 10), (-1, 10), (-2, 10), (-3, 10)]);
    assert_eq!(pit.get_solid_blocks(), vec![(0, 11)]);
}

#[test]
fn can_rotate_is_false_when_a_coordinate_would_overflow() {
    let mut pit = Pit::new(10, 20);
    pit.active_piece = [(i32::MAX, 0), (i32::MAX, -1), (i32::MAX, 0), (i32::MAX, 0)];
    assert!(!pit.can_rotate());
    pit.active_piece = [(i32::MAX, 0), (i32::MAX, 1), (i32::MAX, 0), (i32::MAX, 0)];
    assert!(pit.can_rotate());
    pit.rotate_piece();
    assert_eq!(
        pit.active_piece,
        [(i32::MAX, 0), (i32::MAX - 1, 0), (i32::MAX, 0), (i32::MAX, 0)]
    );
}

#[test]
fn a_falling_piece_never_enters_a_block() {
    let mut pit = Pit::new(10, 20);
    fill(&mut pit, &[(3, 12), (4, 15), (9, 19)]);
    pit.active_piece = Tetromino::J.cells();
    let mut falls = 0;
    while pit.can_move_down() {
        pit.move_piece_down();
        falls += 1;
        for (x, y) in pit.active_piece {
            assert!(0 <= x && x < 10);
            assert!(!pit.is_occupied(x, y));
        }
    }
    assert_eq!(falls, 11);
    assert_eq!(pit.active_piece, [(3, 11), (3, 10), (4, 11), (5, 11)]);
    pit.move_piece_down();
    assert_eq!(
        pit.get_solid_blocks(),
        vec![(3, 10), (3, 11), (4, 11), (5, 11), (3, 12), (4, 15), (9, 19)]
    );
}
