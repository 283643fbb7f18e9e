use tetris::bricks::{Board, BrickShape, Dot};
use tetris::inputs::{handle_keyboard, KeyState, Movements};
use tetris::states::{GameData, GameState};
use tetris::tetrom::{
    brick_start_dot, check_clean_line, check_game_over, dot_in_game_text, generate_new_brick,
    handle_brick_movement, settle_dot, BrickNext, StopCheck,
};

fn no_keys() -> KeyState {
    KeyState { right: false, left: false, down: false, up: false, space: false }
}

fn dot_of(m: Movements) -> (&'static str, i8, i8) {
    match m {
        Movements::NoMove => ("none", 0, 0),
        Movements::MoveTo(d) => ("move", d.0, d.1),
        Movements::RotateTo(d) => ("rotate", d.0, d.1),
        Movements::StopTo(d) => ("stop", d.0, d.1),
    }
}

#[test]
fn nothing_without_brick_or_tick() {
    let board = Board::default();
    assert_eq!(dot_of(handle_keyboard(&board, true, true, &no_keys(), None)), ("none", 0, 0));
    let brick = Some((BrickShape(0, 0), Dot(3, 10)));
    assert_eq!(dot_of(handle_keyboard(&board, false, false, &no_keys(), brick)), ("none", 0, 0));
    assert_eq!(dot_of(handle_keyboard(&board, false, true, &no_keys(), brick)), ("none", 0, 0));
}

#[test]
fn falling_and_stopping() {
    let board = Board::default();
    let o = BrickShape(0, 0);
    assert_eq!(dot_of(handle_keyboard(&board, true, false, &no_keys(), Some((o, Dot(3, 10))))), ("move", 3, 9));
    // the O brick's lowest dots are one row above its origin
    assert_eq!(dot_of(handle_keyboard(&board, true, false, &no_keys(), Some((o, Dot(3, 0))))), ("move", 3, -1));
    let mut keys = no_keys();
    keys.right = true;
    // a stop from the fall ignores the keys
    assert_eq!(dot_of(handle_keyboard(&board, true, true, &keys, Some((o, Dot(3, -1))))), ("stop", 3, -1));
}

#[test]
fn keys_move_and_rotate() {
    let board = Board::default();
    let i = BrickShape(1, 0);
    let mut keys = no_keys();
    keys.right = true;
    keys.left = true;
    assert_eq!(dot_of(handle_keyboard(&board, false, true, &keys, Some((i, Dot(3, 10))))), ("move", 4, 10));
    // after a fall, the key acts from the lower place
    assert_eq!(dot_of(handle_keyboard(&board, true, true, &keys, Some((i, Dot(3, 10))))), ("move", 4, 9));
    // blocked at the right wall: the fall stays
    assert_eq!(dot_of(handle_keyboard(&board, true, true, &keys, Some((i, Dot(6, 10))))), ("move", 6, 9));
    keys.right = false;
    assert_eq!(dot_of(handle_keyboard(&board, false, true, &keys, Some((i, Dot(3, 10))))), ("move", 2, 10));
    let mut up = no_keys();
    up.up = true;
    assert_eq!(dot_of(handle_keyboard(&board, false, true, &up, Some((i, Dot(3, 10))))), ("rotate", 3, 10));
    // the vertical I would stick out below the bottom
    assert_eq!(dot_of(handle_keyboard(&board, false, true, &up, Some((i, Dot(3, -1))))), ("none", 0, 0));
}

#[test]
fn down_key_moves_or_stops() {
    let board = Board::default();
    let o = BrickShape(0, 0);
    let mut keys = no_keys();
    keys.down = true;
    assert_eq!(dot_of(handle_keyboard(&board, false, true, &keys, Some((o, Dot(3, 5))))), ("move", 3, 4));
    assert_eq!(dot_of(handle_keyboard(&board, false, true, &keys, Some((o, Dot(3, -1))))), ("stop", 3, -1));
    assert_eq!(dot_of(handle_keyboard(&board, true, true, &keys, Some((o, Dot(3, 0))))), ("stop", 3, -1));
}

#[test]
fn hard_drop() {
    let mut board = Board::default();
    let o = BrickShape(0, 0);
    let mut keys = no_keys();
    keys.space = true;
    assert_eq!(dot_of(handle_keyboard(&board, false, true, &keys, Some((o, Dot(3, 18))))), ("stop", 3, -1));
    board.occupy_dot(&Dot(4, 4));
    assert_eq!(dot_of(handle_keyboard(&board, false, true, &keys, Some((o, Dot(3, 18))))), ("stop", 3, 4));
    // from too high, twenty rows are not enough to land: nothing changes
    let empty = Board::default();
    assert_eq!(dot_of(handle_keyboard(&empty, false, true, &keys, Some((o, Dot(3, 40))))), ("none", 0, 0));
}

#[test]
fn moving_and_fixing_bricks() {
    let mut board = Board::default();
    let s = BrickShape(2, 3);
    let b = Some((s, Dot(3, 10)));
    let r = handle_brick_movement(&mut board, &Movements::MoveTo(Dot(4, 9)), b).unwrap();
    assert_eq!((r.0 .0, r.0 .1, r.1 .0, r.1 .1), (2, 3, 4, 9));
    let r = handle_brick_movement(&mut board, &Movements::RotateTo(Dot(4, 9)), b).unwrap();
    assert_eq!((r.0 .0, r.0 .1, r.1 .0, r.1 .1), (2, 0, 4, 9));
    let r = handle_brick_movement(&mut board, &Movements::NoMove, b).unwrap();
    assert_eq!((r.1 .0, r.1 .1), (3, 10));
    assert!(handle_brick_movement(&mut board, &Movements::StopTo(Dot(0, 0)), None).is_none());
    assert!(!board.occupied_dot(&Dot(1, 0)));
    assert!(handle_brick_movement(&mut board, &Movements::StopTo(Dot(0, 0)), b).is_none());
    for (x, y) in [(1, 0), (1, 1), (1, 2), (2, 2)] {
        assert!(board.occupied_dot(&Dot(x, y)));
    }
}

#[test]
fn clean_after_stop() {
    let mut board = Board::default();
    let mut g = GameData::default();
    for x in 0..10 {
        board.occupy_dot(&Dot(x, 0));
        board.occupy_dot(&Dot(x, 1));
    }
    board.occupy_dot(&Dot(4, 2));
    assert!(check_clean_line(&mut board, &mut g, &Movements::MoveTo(Dot(0, 0))).is_none());
    assert_eq!(g.score(), 0);
    let (lines, changed) = check_clean_line(&mut board, &mut g, &Movements::StopTo(Dot(0, 0))).unwrap();
    assert_eq!(lines, vec![1, 0]);
    assert!(!changed);
    assert_eq!((g.score(), g.lines(), g.level()), (110, 2, 1));
    assert!(board.occupied_dot(&Dot(4, 0)));
    assert!(!board.occupied_dot(&Dot(4, 2)));
    let (lines, changed) = check_clean_line(&mut board, &mut g, &Movements::StopTo(Dot(0, 0))).unwrap();
    assert!(lines.is_empty());
    assert!(!changed);
    assert_eq!((g.score(), g.lines(), g.level()), (120, 2, 1));
}

#[test]
fn game_over_checks() {
    let mut board = Board::default();
    let mut g = GameData::default();
    let next = BrickNext { curr: BrickShape(0, 0), next: BrickShape(1, 0) };
    assert_eq!(check_game_over(&board, &mut g, &Movements::MoveTo(Dot(0, 0)), &next), StopCheck::NoStop);
    assert_eq!(check_game_over(&board, &mut g, &Movements::StopTo(Dot(3, 5)), &next), StopCheck::NewBrick);
    assert_eq!(g.game_state(), GameState::Start);
    assert_eq!(check_game_over(&board, &mut g, &Movements::StopTo(Dot(3, 20)), &next), StopCheck::GameOver);
    assert_eq!(g.game_state(), GameState::GameOver);
    let mut g = GameData::default();
    // the start place is taken
    board.occupy_dot(&Dot(4, 19));
    assert_eq!(check_game_over(&board, &mut g, &Movements::StopTo(Dot(3, 5)), &next), StopCheck::GameOver);
    let mut g = GameData::default();
    let mut board = Board::default();
    board.occupy_dot(&Dot(0, 21));
    assert_eq!(check_game_over(&board, &mut g, &Movements::StopTo(Dot(3, 5)), &next), StopCheck::GameOver);
}

#[test]
fn next_bricks() {
    let mut next = BrickNext::new();
    assert!(next.curr.0 < 7 && next.curr.1 == 0);
    assert!(next.next.0 < 7 && next.next.1 == 0);
    let coming = next.next.0;
    next.next();
    assert_eq!(next.curr.0, coming);
    let mut next = BrickNext { curr: BrickShape(3, 0), next: BrickShape(5, 0) };
    assert!(generate_new_brick(&mut next, false).is_none());
    assert_eq!((next.curr.0, next.next.0), (3, 5));
    let (s, d) = generate_new_brick(&mut next, true).unwrap();
    assert_eq!((s.0, d.0, d.1), (3, 3, 18));
    assert_eq!(next.curr.0, 5);
    let start = brick_start_dot();
    assert_eq!((start.0, start.1), (3, 18));
}

#[test]
fn settling_dots() {
    let lines = vec![5, 3];
    assert_eq!(settle_dot(5, &lines), None);
    assert_eq!(settle_dot(3, &lines), None);
    assert_eq!(settle_dot(4, &lines), Some(3));
    assert_eq!(settle_dot(6, &lines), Some(4));
    assert_eq!(settle_dot(2, &lines), Some(2));
    assert_eq!(settle_dot(9, &vec![]), Some(9));
    assert_eq!(settle_dot(7, &vec![6, 5]), Some(5));
}

#[test]
fn game_text_rows() {
    assert!(dot_in_game_text(&Dot(0, 12)));
    assert!(dot_in_game_text(&Dot(9, 14)));
    assert!(!dot_in_game_text(&Dot(3, 11)));
    assert!(!dot_in_game_text(&Dot(3, 15)));
}

#[test]
fn every_brick_fits_at_start_of_empty_board() {
    let board = Board::default();
    let start = brick_start_dot();
    for kind in 0..7 {
        for rot in 0..tetris::consts::rotation_count(kind) {
            assert!(board.valid_brickshape(&BrickShape(kind, rot), &start));
        }
        let mut g = GameData::default();
        let next = BrickNext { curr: BrickShape(kind, 0), next: BrickShape(0, 0) };
        assert_eq!(check_game_over(&board, &mut g, &Movements::StopTo(Dot(3, 5)), &next), StopCheck::NewBrick);
    }
}

#[test]
fn vertical_i_clears_four_lines() {
    let mut board = Board::default();
    let mut g = GameData::default();
    for y in 0..4 {
        for x in 0..10 {
            if x != 9 {
                board.occupy_dot(&Dot(x, y));
            }
        }
    }
    board.occupy_dot(&Dot(0, 4));
    assert!(!board.can_clean());
    let falling = Some((BrickShape(1, 1), Dot(7, 0)));
    assert!(handle_brick_movement(&mut board, &Movements::StopTo(Dot(7, 0)), falling).is_none());
    assert_eq!(board.get_clean_lines(), vec![3, 2, 1, 0]);
    g.add_lines(1);
    let (lines, _) = check_clean_line(&mut board, &mut g, &Movements::StopTo(Dot(7, 0))).unwrap();
    assert_eq!(lines, vec![3, 2, 1, 0]);
    // one line earlier, then four at level 1 and the drop
    assert_eq!((g.score(), g.lines(), g.level()), (1250, 5, 1));
    assert!(board.occupied_dot(&Dot(0, 0)));
    assert!(!board.can_clean());
}

#[test]
fn screen_dots_follow_the_board() {
    let mut board = Board::default();
    for x in 0..10 {
        board.occupy_dot(&Dot(x, 1));
        board.occupy_dot(&Dot(x, 3));
    }
    let kept = [(2, 0), (5, 2), (7, 4), (1, 6)];
    for (x, y) in kept {
        board.occupy_dot(&Dot(x, y));
    }
    let lines = board.get_clean_lines();
    board.clean_lines();
    for (x, y) in kept {
        let y2 = settle_dot(y, &lines).unwrap();
        assert!(board.occupied_dot(&Dot(x, y2)));
    }
    assert_eq!(settle_dot(1, &lines), None);
    assert_eq!(settle_dot(3, &lines), None);
    // every occupied cell after clearing is where some kept dot settled
    for y2 in 0..23i8 {
        for x in 0..10i8 {
            if board.occupied_dot(&Dot(x, y2)) {
                assert!(kept.iter().any(|&(kx, ky)| kx == x && settle_dot(ky, &lines) == Some(y2)));
            }
        }
    }
    assert_eq!(settle_dot(6, &lines), Some(4));
}

#[test]
fn moves_lead_to_valid_places() {
    let mut board = Board::default();
    for x in 0..10 {
        if x != 4 {
            board.occupy_dot(&Dot(x, 0));
        }
    }
    let t = BrickShape(6, 0);
    for keys in [
        KeyState { right: true, left: false, down: false, up: false, space: false },
        KeyState { right: false, left: true, down: false, up: false, space: false },
        KeyState { right: false, left: false, down: true, up: false, space: false },
        KeyState { right: false, left: false, down: false, up: true, space: false },
        KeyState { right: false, left: false, down: false, up: false, space: true },
    ] {
        for fall in [false, true] {
            let d = Dot(3, 6);
            match handle_keyboard(&board, fall, true, &keys, Some((t, d))) {
                Movements::NoMove => {}
                Movements::MoveTo(p) => assert!(board.valid_brickshape(&t, &p)),
                Movements::StopTo(p) => {
                    assert!(board.valid_brickshape(&t, &p));
                    assert!(!board.valid_brickshape(&t, &p.down()));
                }
                Movements::RotateTo(p) => {
                    assert!(board.valid_brickshape(&t.rotate(), &p));
                    assert!(p.0 == d.0 && (p.1 == d.1 || p.1 == d.1 - 1));
                }
            }
        }
    }
}
