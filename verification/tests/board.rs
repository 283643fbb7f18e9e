use tetris::bricks::{Board, Brick, BrickShape, Dot};
use tetris::consts::{bricks_dict, rotation_count, BOARD_X, BOARD_Y};

fn fill_row(board: &mut Board, y: i8) {
    for x in 0..BOARD_X {
        board.occupy_dot(&Dot(x, y));
    }
}

fn count_occupied(board: &Board) -> usize {
    let mut n = 0;
    for y in 0..BOARD_Y {
        for x in 0..BOARD_X {
            if board.occupied_dot(&Dot(x, y)) {
                n += 1;
            }
        }
    }
    n
}

#[test]
fn dot_moves() {
    let d = Dot(3, 5);
    let l = d.left();
    assert_eq!((l.0, l.1), (2, 5));
    let r = d.right();
    assert_eq!((r.0, r.1), (4, 5));
    let dn = d.down();
    assert_eq!((dn.0, dn.1), (3, 4));
    let u = d.up();
    assert_eq!((u.0, u.1), (3, 6));
    let mut m = d;
    m.move_left();
    m.move_down();
    m.move_right();
    m.move_right();
    assert_eq!((m.0, m.1), (4, 4));
    let sum = Dot(1, 2).with_orignal_dot(&Dot(3, 18));
    assert_eq!((sum.0, sum.1), (4, 20));
    let z = Dot::default();
    assert_eq!((z.0, z.1), (0, 0));
}

#[test]
fn brick_table() {
    assert_eq!(rotation_count(0), 1);
    assert_eq!(rotation_count(1), 2);
    assert_eq!(rotation_count(2), 4);
    assert_eq!(rotation_count(3), 4);
    assert_eq!(rotation_count(4), 2);
    assert_eq!(rotation_count(5), 2);
    assert_eq!(rotation_count(6), 4);
    let i_vertical = bricks_dict(1, 1);
    let pos: Vec<(i8, i8)> = i_vertical.dots.iter().map(|d| (d.0, d.1)).collect();
    assert_eq!(pos, vec![(2, 0), (2, 1), (2, 2), (2, 3)]);
    let t = BrickShape(6, 3).brick();
    let pos: Vec<(i8, i8)> = t.dots.iter().map(|d| (d.0, d.1)).collect();
    assert_eq!(pos, vec![(1, 0), (1, 1), (1, 2), (2, 1)]);
}

#[test]
fn rotation_wraps_around() {
    let s = BrickShape(2, 3).rotate();
    assert_eq!((s.0, s.1), (2, 0));
    let s = BrickShape(1, 0).rotate();
    assert_eq!((s.0, s.1), (1, 1));
    let s = BrickShape(0, 0).rotate();
    assert_eq!((s.0, s.1), (0, 0));
    let mut s = BrickShape(6, 1);
    for _ in 0..4 {
        s = s.rotate();
    }
    assert_eq!((s.0, s.1), (6, 1));
}

#[test]
fn random_shapes_are_real_kinds() {
    for _ in 0..200 {
        let s = BrickShape::rand();
        assert!(s.0 < 7);
        assert_eq!(s.1, 0);
    }
}

#[test]
fn empty_board() {
    let board = Board::default();
    assert_eq!(count_occupied(&board), 0);
    assert!(!board.can_clean());
    assert!(!board.game_over());
    assert!(board.get_clean_lines().is_empty());
}

#[test]
fn occupy_then_read_back() {
    let mut board = Board::default();
    board.occupy_dot(&Dot(4, 7)).occupy_dot(&Dot(0, 0));
    assert!(board.occupied_dot(&Dot(4, 7)));
    assert!(board.occupied_dot(&Dot(0, 0)));
    assert!(!board.occupied_dot(&Dot(5, 7)));
    assert_eq!(count_occupied(&board), 2);
    // a cell past the last row is ignored
    board.occupy_dot(&Dot(0, 23));
    assert!(!board.occupied_dot(&Dot(0, 23)));
    assert_eq!(count_occupied(&board), 2);
}

#[test]
fn flat_index_wraps_to_next_row() {
    let mut board = Board::default();
    board.occupy_dot(&Dot(12, 0));
    assert!(board.occupied_dot(&Dot(2, 1)));
}

#[test]
fn brick_validity() {
    let mut board = Board::default();
    let o = Brick { dots: [Dot(1, 1), Dot(1, 2), Dot(2, 1), Dot(2, 2)] };
    assert!(board.valid_brick(&o, &Dot(0, -1)));
    assert!(!board.valid_brick(&o, &Dot(0, -2)));
    assert!(board.valid_brick(&o, &Dot(7, 0)));
    assert!(!board.valid_brick(&o, &Dot(8, 0)));
    assert!(!board.valid_brick(&o, &Dot(-2, 0)));
    board.occupy_brick(&o, &Dot(3, 3));
    assert!(board.occupied_dot(&Dot(4, 4)));
    assert!(board.occupied_dot(&Dot(5, 5)));
    assert!(board.conflict_brick(&o, &Dot(3, 3)));
    assert!(board.conflict_brick(&o, &Dot(4, 4)));
    assert!(!board.valid_brick(&o, &Dot(3, 3)));
    assert!(board.valid_brick(&o, &Dot(3, 5)));
    assert!(board.valid_brickshape(&BrickShape(1, 0), &Dot(0, 0)));
    assert!(!board.valid_brickshape(&BrickShape(1, 0), &Dot(7, 0)));
    let mut b2 = Board::default();
    b2.occupy_brickshape(&BrickShape(1, 0), &Dot(0, 0));
    for x in 0..4 {
        assert!(b2.occupied_dot(&Dot(x, 1)));
    }
    assert_eq!(count_occupied(&b2), 4);
}

#[test]
fn no_upper_bound_on_rows() {
    let board = Board::default();
    let o = Brick { dots: [Dot(1, 1), Dot(1, 2), Dot(2, 1), Dot(2, 2)] };
    assert!(board.valid_brick(&o, &Dot(0, 100)));
}

#[test]
fn full_lines_listed_top_down() {
    let mut board = Board::default();
    fill_row(&mut board, 0);
    fill_row(&mut board, 2);
    fill_row(&mut board, 5);
    board.occupy_dot(&Dot(0, 1));
    assert!(board.can_clean_line(0));
    assert!(!board.can_clean_line(1));
    assert!(board.can_clean_line(5));
    assert!(board.can_clean());
    assert_eq!(board.get_clean_lines(), vec![5, 2, 0]);
}

#[test]
fn clean_line_shifts_rows_down() {
    let mut board = Board::default();
    fill_row(&mut board, 3);
    board.occupy_dot(&Dot(1, 4));
    board.occupy_dot(&Dot(7, 22));
    board.occupy_dot(&Dot(2, 2));
    board.clean_line(3);
    assert!(board.occupied_dot(&Dot(1, 3)));
    assert!(board.occupied_dot(&Dot(7, 21)));
    assert!(board.occupied_dot(&Dot(2, 2)));
    assert!(!board.occupied_dot(&Dot(7, 22)));
    assert_eq!(count_occupied(&board), 3);
}

#[test]
fn clean_top_line() {
    let mut board = Board::default();
    fill_row(&mut board, 22);
    board.clean_line(22);
    assert_eq!(count_occupied(&board), 0);
}

#[test]
fn clean_lines_removes_all_full_rows() {
    let mut board = Board::default();
    fill_row(&mut board, 0);
    fill_row(&mut board, 1);
    board.occupy_dot(&Dot(3, 2));
    fill_row(&mut board, 3);
    board.occupy_dot(&Dot(9, 4));
    board.clean_lines();
    assert!(!board.can_clean());
    assert!(board.occupied_dot(&Dot(3, 0)));
    assert!(board.occupied_dot(&Dot(9, 1)));
    assert_eq!(count_occupied(&board), 2);
    // a second pass changes nothing
    board.clean_lines();
    assert!(board.occupied_dot(&Dot(3, 0)));
    assert!(board.occupied_dot(&Dot(9, 1)));
    assert_eq!(count_occupied(&board), 2);
}

#[test]
fn clear_and_game_over() {
    let mut board = Board::default();
    board.occupy_dot(&Dot(5, 19));
    assert!(!board.game_over());
    board.occupy_dot(&Dot(5, 20));
    assert!(board.game_over());
    board.clear();
    assert!(!board.game_over());
    assert_eq!(count_occupied(&board), 0);
    let mut b2 = Board::default();
    b2.occupy_dot(&Dot(9, 22));
    assert!(b2.game_over());
}

#[test]
fn clean_line_bottom_row() {
    let mut b = Board::default();
    b.occupy_dot(&Dot(0, 0));
    b.occupy_dot(&Dot(3, 1));
    b.occupy_dot(&Dot(5, 22));
    b.clean_line(0);
    assert!(b.occupied_dot(&Dot(3, 0)));
    assert!(b.occupied_dot(&Dot(5, 21)));
    assert!(!b.occupied_dot(&Dot(0, 0)));
    assert!(!b.occupied_dot(&Dot(3, 1)));
    assert!(!b.occupied_dot(&Dot(5, 22)));
    assert_eq!(count_occupied(&b), 2);
}

#[test]
fn clean_lines_frees_ten_cells_per_line() {
    let mut b = Board::default();
    for x in 0..10 {
        b.occupy_dot(&Dot(x, 0));
        b.occupy_dot(&Dot(x, 2));
    }
    b.occupy_dot(&Dot(4, 1));
    b.occupy_dot(&Dot(7, 3));
    let before = count_occupied(&b);
    let lines = b.get_clean_lines();
    assert_eq!(lines, vec![2, 0]);
    b.clean_lines();
    assert_eq!(count_occupied(&b), before - 10 * lines.len());
    assert!(b.occupied_dot(&Dot(4, 0)));
    assert!(b.occupied_dot(&Dot(7, 1)));
}

#[test]
fn i_brick_against_a_set_cell() {
    let i = Brick { dots: [Dot(0, 1), Dot(1, 1), Dot(2, 1), Dot(3, 1)] };
    let b = Board::default();
    assert!(b.valid_brick(&i, &Dot(6, 0)));
    assert!(!b.valid_brick(&i, &Dot(7, 0)));
    assert!(!b.valid_brick(&i, &Dot(-1, 0)));
    assert!(b.valid_brick(&i, &Dot(0, -1)));
    assert!(!b.valid_brick(&i, &Dot(0, -2)));
    let mut c = Board::default();
    c.occupy_dot(&Dot(9, 1));
    assert!(!c.valid_brick(&i, &Dot(6, 0)));
    assert!(c.valid_brick(&i, &Dot(6, 1)));
}

#[test]
fn o_brick_at_start_ends_game() {
    let mut b = Board::default();
    b.occupy_brickshape(&BrickShape(0, 0), &Dot(3, 18));
    for (x, y) in [(4, 19), (4, 20), (5, 19), (5, 20)] {
        assert!(b.occupied_dot(&Dot(x, y)));
    }
    assert_eq!(count_occupied(&b), 4);
    assert!(b.game_over());
}

#[test]
fn first_rotation_of_each_kind() {
    for kind in 0..7 {
        let s = BrickShape::first_rotation(kind);
        assert_eq!((s.0, s.1), (kind, 0));
    }
}
