use tetris::speeds::{get_level, get_score};
use tetris::states::{GameData, GameState, SpaceOutcome};
use tetris::bricks::{Board, Dot};

#[test]
fn score_table() {
    assert_eq!(get_score(1, 1), 40);
    assert_eq!(get_score(1, 2), 100);
    assert_eq!(get_score(1, 3), 300);
    assert_eq!(get_score(1, 4), 1200);
    assert_eq!(get_score(5, 2), 500);
    assert_eq!(get_score(0, 4), 0);
}

#[test]
fn levels() {
    assert_eq!(get_level(0), 1);
    assert_eq!(get_level(9), 1);
    assert_eq!(get_level(10), 2);
    assert_eq!(get_level(25), 3);
    assert_eq!(get_level(980), 99);
    assert_eq!(get_level(5000), 99);
    assert_eq!(get_level(u32::MAX), 99);
    let mut prev = get_level(0);
    for n in 0..2000 {
        let l = get_level(n);
        assert!(l >= prev && (1..=99).contains(&l));
        prev = l;
    }
}

#[test]
fn game_data_counters() {
    let mut g = GameData::default();
    assert_eq!((g.score(), g.lines(), g.level()), (0, 0, 1));
    assert_eq!(g.game_state(), GameState::Start);
    g.add_score(10);
    assert_eq!(g.score(), 10);
    assert!(!g.add_lines(2));
    assert_eq!((g.score(), g.lines(), g.level()), (110, 2, 1));
    assert!(!g.add_lines(4));
    assert_eq!((g.score(), g.lines(), g.level()), (1310, 6, 1));
    assert!(g.add_lines(4));
    assert_eq!((g.score(), g.lines(), g.level()), (2510, 10, 2));
}

#[test]
fn first_single_of_a_game() {
    let mut g = GameData::default();
    assert!(!g.add_lines(1));
    assert_eq!((g.score(), g.lines(), g.level()), (40, 1, 1));
}

#[test]
fn shown_counters() {
    let mut g = GameData::default();
    g.add_score(1_234_567);
    assert_eq!(g.shown_score(), 234_567);
    assert_eq!(g.shown_lines(), 0);
    assert_eq!(g.shown_level(), 1);
}

#[test]
fn start_and_restart() {
    let mut g = GameData::default();
    let mut board = Board::default();
    assert_eq!(g.handle_game_state(&mut board, false), SpaceOutcome::Ignored);
    assert_eq!(g.game_state(), GameState::Start);
    assert_eq!(g.handle_game_state(&mut board, true), SpaceOutcome::Started);
    assert_eq!(g.game_state(), GameState::Playing);
    assert_eq!(g.handle_game_state(&mut board, true), SpaceOutcome::Ignored);
    g.add_score(50);
    g.add_lines(1);
    board.occupy_dot(&Dot(2, 3));
    g.end_game();
    assert_eq!(g.game_state(), GameState::GameOver);
    assert_eq!(g.score(), 90);
    assert_eq!(g.handle_game_state(&mut board, false), SpaceOutcome::Ignored);
    assert_eq!(g.game_state(), GameState::GameOver);
    assert_eq!(g.handle_game_state(&mut board, true), SpaceOutcome::Restarted);
    assert_eq!(g.game_state(), GameState::Playing);
    assert_eq!((g.score(), g.lines(), g.level()), (0, 0, 1));
    assert!(!board.occupied_dot(&Dot(2, 3)));
}
