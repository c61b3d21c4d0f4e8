use real_tetris::board::{Block, Board, SPAWN_X, SPAWN_Y};
use real_tetris::tetrimino::{Color, Tetrimino};

fn occupied(c: Color) -> Block {
    Block { ty: c }
}

fn color_at(b: &Board, x: usize, y: usize) -> Option<Color> {
    b.get_block_at(x, y).map(|blk| blk.ty)
}

#[test]
fn set_then_get_roundtrip() {
    let mut b = Board::new(10, 20);
    b.set_block_at(3, 5, occupied(Color::Red));
    assert_eq!(color_at(&b, 3, 5), Some(Color::Red));
    assert_eq!(color_at(&b, 0, 0), Some(Color::Empty));
    b.set_block_at(0, 0, occupied(Color::Blue));
    assert_eq!(color_at(&b, 0, 0), Some(Color::Blue));
    assert_eq!(color_at(&b, 9, 19), Some(Color::Empty));
}

#[test]
fn out_of_bounds_reads_are_none() {
    let b = Board::new(10, 20);
    assert!(b.get_block_at(10, 5).is_none());
    assert!(b.get_block_at(5, 20).is_none());
    assert!(b.get_block_at(10, 20).is_none());
    assert!(b.get_block_at(usize::MAX, 0).is_none());
    assert!(b.get_block_at(9, 19).is_some());
}

#[test]
fn row_full_iff_every_cell_occupied() {
    let mut b = Board::new(4, 3);
    for x in 0..4 {
        b.set_block_at(x, 1, occupied(Color::Green));
    }
    assert!(Board::is_row_full(b.get_row(1)));
    assert!(!Board::is_row_full(b.get_row(0)));
    // one empty cell spoils fullness
    b.set_block_at(2, 1, occupied(Color::Empty));
    assert!(!Board::is_row_full(b.get_row(1)));
}

#[test]
fn full_rows_lists_exactly_the_full_rows_ascending() {
    let mut b = Board::new(3, 5);
    for x in 0..3 {
        b.set_block_at(x, 1, occupied(Color::Purple));
        b.set_block_at(x, 3, occupied(Color::Orange));
    }
    b.set_block_at(0, 2, occupied(Color::Red));
    let full = b.get_full_rows();
    assert_eq!(full, vec![1, 3]);
}

#[test]
fn delete_row_shifts_above_keeps_below_empties_top() {
    let mut b = Board::new(2, 4);
    b.set_block_at(0, 0, occupied(Color::Red));
    b.set_block_at(0, 1, occupied(Color::Green));
    b.set_block_at(1, 2, occupied(Color::Blue));
    b.set_block_at(0, 3, occupied(Color::Yellow));
    b.delete_row(1);
    // row 0 untouched
    assert_eq!(color_at(&b, 0, 0), Some(Color::Red));
    assert_eq!(color_at(&b, 1, 0), Some(Color::Empty));
    // rows above shifted down by one
    assert_eq!(color_at(&b, 1, 1), Some(Color::Blue));
    assert_eq!(color_at(&b, 0, 1), Some(Color::Empty));
    assert_eq!(color_at(&b, 0, 2), Some(Color::Yellow));
    // new empty row at the top
    assert_eq!(color_at(&b, 0, 3), Some(Color::Empty));
    assert_eq!(color_at(&b, 1, 3), Some(Color::Empty));
}

#[test]
fn check_and_delete_rows_clears_all_full_rows() {
    let mut b = Board::new(3, 5);
    for x in 0..3 {
        b.set_block_at(x, 0, occupied(Color::Red));
        b.set_block_at(x, 2, occupied(Color::Green));
    }
    b.set_block_at(1, 1, occupied(Color::Purple));
    b.set_block_at(2, 4, occupied(Color::Blue));
    b.check_and_delete_rows();
    // the two full rows are gone; the kept rows stack up from the bottom
    assert_eq!(color_at(&b, 1, 0), Some(Color::Purple));
    assert_eq!(color_at(&b, 0, 0), Some(Color::Empty));
    assert_eq!(color_at(&b, 2, 1), Some(Color::Empty));
    assert_eq!(color_at(&b, 2, 2), Some(Color::Blue));
    assert_eq!(color_at(&b, 0, 3), Some(Color::Empty));
    assert_eq!(color_at(&b, 0, 4), Some(Color::Empty));
    assert_eq!(b.get_width(), 3);
    assert_eq!(b.get_height(), 5);
}

#[test]
fn rotation_area_is_invariant() {
    let kinds = [
        Tetrimino::L,
        Tetrimino::J,
        Tetrimino::O,
        Tetrimino::T,
        Tetrimino::Z,
        Tetrimino::S,
        Tetrimino::I,
    ];
    for kind in kinds {
        for rot in 0..4i8 {
            let blocks = kind.get_blocks(rot);
            let len = kind.get_length() as usize;
            assert_eq!(blocks.len(), len * len);
            let filled: usize = blocks.iter().filter(|&&c| c == 1).count();
            assert_eq!(filled, 4, "kind with rotation {rot} must fill 4 cells");
        }
    }
}

#[test]
fn rotation_index_is_normalized_modulo_4() {
    let t = Tetrimino::T;
    assert_eq!(t.get_blocks(-1), t.get_blocks(3));
    assert_eq!(t.get_blocks(5), t.get_blocks(1));
    assert_eq!(t.get_blocks(-4), t.get_blocks(0));
    let mut b = Board::new(10, 20);
    b.set_current_tetrimino(&Tetrimino::T, 3, 5, 7);
    assert_eq!(b.get_current_rotation(), 3);
    b.set_current_tetrimino(&Tetrimino::T, 3, 5, -3);
    assert_eq!(b.get_current_rotation(), 1);
}

#[test]
fn rotate_left_then_right_restores_rotation() {
    let mut b = Board::new(10, 20);
    b.set_current_tetrimino(&Tetrimino::T, 3, 5, 0);
    assert!(b.rotate_left());
    assert_eq!(b.get_current_rotation(), 3);
    assert!(b.rotate_right());
    assert_eq!(b.get_current_rotation(), 0);
    assert!(b.rotate_right());
    assert_eq!(b.get_current_rotation(), 1);
    assert!(b.rotate_left());
    assert_eq!(b.get_current_rotation(), 0);
    assert_eq!(b.get_current_pos_x(), 3);
    assert_eq!(b.get_current_pos_y(), 5);
}

#[test]
fn validator_rejects_out_of_bounds_and_collisions() {
    let mut b = Board::new(10, 20);
    // all filled cells on empty in-bounds cells: accepted
    assert!(b.tetrimino_valid(&Tetrimino::O, 0, 0, 0));
    // the O kind fills columns x+1..x+2 only; its empty bounding-box
    // fringe may hang over the edge harmlessly
    assert!(b.tetrimino_valid(&Tetrimino::O, -1, 0, 0));
    assert!(b.tetrimino_valid(&Tetrimino::O, 0, -1, 0));
    // a filled cell off the board: rejected
    assert!(!b.tetrimino_valid(&Tetrimino::O, -2, 0, 0));
    assert!(!b.tetrimino_valid(&Tetrimino::O, 0, -2, 0));
    assert!(!b.tetrimino_valid(&Tetrimino::O, 8, 0, 0));
    // a filled cell on a settled cell: rejected
    b.set_block_at(1, 1, occupied(Color::Red));
    assert!(!b.tetrimino_valid(&Tetrimino::O, 0, 0, 0));
    // the same anchor clears the stack one column to the right
    assert!(b.tetrimino_valid(&Tetrimino::O, 1, 0, 0));
    // the I kind lying flat rests on the floor with its box below it
    assert!(b.tetrimino_valid(&Tetrimino::I, 4, -2, 0));
    assert!(!b.tetrimino_valid(&Tetrimino::I, 4, -3, 0));
}

#[test]
fn o_piece_drops_to_the_floor_and_locks_yellow() {
    let mut b = Board::new(10, 20);
    b.set_current_tetrimino(&Tetrimino::O, 3, 5, 0);
    let mut steps = 0;
    while b.move_down() {
        steps += 1;
        assert!(steps < 100, "the piece must reach the floor");
    }
    // the O kind fills a 2x2 square at columns 4..5, rows anchor+1..anchor+2;
    // resting on the floor its cells sit in rows 0 and 1
    for (x, y) in [(4, 0), (5, 0), (4, 1), (5, 1)] {
        assert_eq!(color_at(&b, x, y), Some(Color::Yellow));
    }
    let mut occupied_cells = 0;
    for x in 0..10 {
        for y in 0..20 {
            if color_at(&b, x, y) != Some(Color::Empty) {
                occupied_cells += 1;
            }
        }
    }
    assert_eq!(occupied_cells, 4);
    // a fresh piece was spawned at the fixed anchor
    assert!(b.get_current_tetrimino().is_some());
    assert_eq!(b.get_current_pos_x(), SPAWN_X);
    assert_eq!(b.get_current_pos_y(), SPAWN_Y);
    assert_eq!(b.get_current_rotation(), 0);
    assert!(!b.is_game_over());
}

#[test]
fn completing_a_row_clears_it_and_shifts_the_stack() {
    let mut b = Board::new(10, 20);
    // fill row 0 except the cell at x = 4
    for x in 0..10 {
        if x != 4 {
            b.set_block_at(x, 0, occupied(Color::Red));
        }
    }
    // drop a vertical I piece whose filled column is x+2 = 4
    b.set_current_tetrimino(&Tetrimino::I, 2, 10, 1);
    while b.move_down() {}
    // the I filled (4,0)..(4,3); row 0 became full and was cleared;
    // the rows above shifted down, so the I remnant now sits in rows 0..2
    assert_eq!(color_at(&b, 4, 0), Some(Color::LightBlue));
    assert_eq!(color_at(&b, 4, 1), Some(Color::LightBlue));
    assert_eq!(color_at(&b, 4, 2), Some(Color::LightBlue));
    assert_eq!(color_at(&b, 4, 3), Some(Color::Empty));
    // the red filler row is gone
    for x in 0..10 {
        if x != 4 {
            assert_eq!(color_at(&b, x, 0), Some(Color::Empty));
        }
    }
    assert_eq!(b.get_width(), 10);
    assert_eq!(b.get_height(), 20);
}

#[test]
fn colliding_spawn_tops_out_and_freezes_the_game() {
    let mut b = Board::new(10, 20);
    // block one cell of the fixed spawn footprint of the O kind without
    // completing any row
    b.set_block_at(4, 16, occupied(Color::Green));
    // a piece resting on the floor: the next tick locks it and respawns
    b.set_current_tetrimino(&Tetrimino::O, 3, -1, 0);
    assert!(!b.move_down());
    assert!(b.is_game_over());
    // further commands are rejected and change nothing
    assert!(!b.move_left());
    assert!(!b.move_right());
    assert!(!b.rotate_left());
    assert!(!b.rotate_right());
    assert!(!b.move_down());
    assert_eq!(color_at(&b, 4, 0), Some(Color::Yellow));
}

#[test]
fn fall_from_invalid_placement_tops_out_without_locking() {
    let mut b = Board::new(10, 20);
    b.set_block_at(4, 1, occupied(Color::Red));
    // the piece is put straight onto the settled cell: invalid placement
    b.set_current_tetrimino(&Tetrimino::O, 3, 0, 0);
    assert!(!b.move_down());
    assert!(b.is_game_over());
    // nothing was locked: the only settled cell is the one set directly
    let mut occupied_cells = 0;
    for x in 0..10 {
        for y in 0..20 {
            if color_at(&b, x, y) != Some(Color::Empty) {
                occupied_cells += 1;
            }
        }
    }
    assert_eq!(occupied_cells, 1);
}

#[test]
fn moves_commit_only_valid_positions() {
    let mut b = Board::new(4, 20);
    b.set_current_tetrimino(&Tetrimino::O, 0, 0, 0);
    // O fills columns x+1..x+2, so x = -1 still fits but x = -2 does not
    assert!(b.move_left());
    assert_eq!(b.get_current_pos_x(), -1);
    assert!(!b.move_left());
    assert_eq!(b.get_current_pos_x(), -1);
    assert!(b.move_right());
    assert!(b.move_right());
    assert_eq!(b.get_current_pos_x(), 1);
    // at x = 1 the filled columns are 2..3, flush with the right wall
    assert!(!b.move_right());
    assert_eq!(b.get_current_pos_x(), 1);
}

#[test]
fn update_behaves_like_one_gravity_step() {
    let mut b = Board::new(10, 20);
    b.set_current_tetrimino(&Tetrimino::O, 3, 5, 0);
    b.update();
    assert_eq!(b.get_current_pos_y(), 4);
    b.update();
    assert_eq!(b.get_current_pos_y(), 3);
}

#[test]
fn tetrimino_catalog_lengths_and_colors() {
    assert_eq!(Tetrimino::I.get_length(), 4);
    assert_eq!(Tetrimino::O.get_length(), 4);
    assert_eq!(Tetrimino::J.get_length(), 3);
    assert_eq!(Tetrimino::L.get_length(), 3);
    assert_eq!(Tetrimino::S.get_length(), 3);
    assert_eq!(Tetrimino::T.get_length(), 3);
    assert_eq!(Tetrimino::Z.get_length(), 3);
    assert_eq!(Tetrimino::I.get_color(), Color::LightBlue);
    assert_eq!(Tetrimino::J.get_color(), Color::Blue);
    assert_eq!(Tetrimino::L.get_color(), Color::Orange);
    assert_eq!(Tetrimino::O.get_color(), Color::Yellow);
    assert_eq!(Tetrimino::S.get_color(), Color::Green);
    assert_eq!(Tetrimino::T.get_color(), Color::Purple);
    assert_eq!(Tetrimino::Z.get_color(), Color::Red);
}

#[test]
fn block_is_empty_only_for_empty_color() {
    assert!(Block { ty: Color::Empty }.is_empty());
    assert!(!Block { ty: Color::Red }.is_empty());
    assert!(!Block { ty: Color::Yellow }.is_empty());
}

#[test]
fn zero_sized_boards_are_harmless() {
    let b = Board::new(0, 0);
    assert!(b.get_block_at(0, 0).is_none());
    let mut b2 = Board::new(5, 0);
    assert!(b2.get_block_at(0, 0).is_none());
    assert!(!b2.tetrimino_valid(&Tetrimino::O, 0, 0, 0));
    b2.check_and_delete_rows();
    assert_eq!(b2.get_width(), 5);
}

#[test]
fn query_surface_reports_settled_and_piece_cells() {
    let mut b = Board::new(10, 20);
    b.set_block_at(2, 3, occupied(Color::Red));
    b.set_block_at(7, 0, occupied(Color::Green));
    let mut settled = b.occupied_cells();
    settled.sort_by_key(|&(x, y, _)| (x, y));
    assert_eq!(settled, vec![(2, 3, Color::Red), (7, 0, Color::Green)]);

    assert!(b.current_piece_cells().is_empty());
    b.set_current_tetrimino(&Tetrimino::O, 3, 5, 0);
    let mut piece = b.current_piece_cells();
    piece.sort_by_key(|&(x, y, _)| (x, y));
    assert_eq!(
        piece,
        vec![
            (4, 6, Color::Yellow),
            (4, 7, Color::Yellow),
            (5, 6, Color::Yellow),
            (5, 7, Color::Yellow),
        ]
    );
    // a piece hanging over the edge reports only its on-board cells
    b.set_current_tetrimino(&Tetrimino::O, 3, -2, 0);
    let mut clipped = b.current_piece_cells();
    clipped.sort_by_key(|&(x, y, _)| (x, y));
    assert_eq!(clipped, vec![(4, 0, Color::Yellow), (5, 0, Color::Yellow)]);
}
