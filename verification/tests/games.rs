use my_qipan::{Board, Color, GameState};

const RUNAWAY_OPENING: [(usize, usize); 23] = [
    (4, 4), (2, 1), (2, 2), (3, 4), (3, 3), (2, 3), (2, 4), (1, 3), (4, 4), (1, 2), (4, 2), (1, 3),
    (3, 1), (1, 2), (3, 1), (1, 2), (4, 2), (2, 2), (4, 2), (1, 1), (3, 4), (1, 4), (3, 2),
];

fn fields(board: &Board) -> ([[Color; 4]; 4], [[i32; 4]; 4], [[i32; 4]; 4], i32, i32, i32, Color) {
    (
        board.camp,
        board.num,
        board.maxnum,
        board.redcount,
        board.blackcount,
        board.rounds,
        board.currentplayer,
    )
}

fn play_moves(moves: &[(usize, usize)]) -> (Board, Vec<Result<GameState, String>>) {
    let mut board = Board::new();
    let mut answers = Vec::new();
    for &(x, y) in moves {
        assert!(board.can_play(x, y, 1000));
        answers.push(board.make_move(x, y));
    }
    (board, answers)
}

#[test]
fn the_same_moves_give_the_same_game() {
    let moves = [
        (4, 2), (3, 4), (1, 2), (1, 1), (2, 1), (1, 1), (9, 9), (2, 2), (1, 2), (1, 2), (2, 2),
        (2, 2), (1, 2), (2, 2),
    ];
    let (first, first_answers) = play_moves(&moves);
    let (second, second_answers) = play_moves(&moves);
    assert_eq!(fields(&first), fields(&second));
    assert_eq!(first_answers, second_answers);
    assert_eq!(first.get_game_state(), second.get_game_state());
}

#[test]
fn a_refused_move_in_between_does_not_change_the_game() {
    let (with, _) = play_moves(&[(1, 1), (1, 1), (4, 4), (0, 3), (2, 2)]);
    let (without, _) = play_moves(&[(1, 1), (4, 4), (2, 2)]);
    assert_eq!(fields(&with), fields(&without));
}

#[test]
fn a_quiet_move_takes_one_step() {
    let board = Board::new();
    assert!(!board.can_play(2, 2, 0));
    assert!(board.can_play(2, 2, 1));
    assert!(board.can_play(2, 2, usize::MAX));
}

#[test]
fn two_overflows_take_two_steps() {
    let (board, answers) = play_moves(&[(1, 2), (1, 1), (1, 2)]);
    assert_eq!(answers, vec![Ok(GameState::Playing); 3]);
    assert!(!board.can_play(1, 1, 0));
    assert!(!board.can_play(1, 1, 1));
    assert!(board.can_play(1, 1, 2));
}

#[test]
fn can_play_leaves_the_board_alone() {
    let (board, _) = play_moves(&[(1, 2), (1, 1), (1, 2)]);
    let before = fields(&board);
    assert!(board.can_play(1, 1, 5));
    assert_eq!(fields(&board), before);
    assert!(!board.can_play(1, 1, 1));
    assert_eq!(fields(&board), before);
}

#[test]
fn a_cascade_that_never_ends_is_found_out() {
    let (board, answers) = play_moves(&RUNAWAY_OPENING);
    assert_eq!(answers, vec![Ok(GameState::Playing); 23]);
    assert_eq!(board.currentplayer, Color::Black);
    assert_eq!((board.redcount, board.blackcount), (10, 13));
    let before = fields(&board);
    assert!(!board.can_play(2, 2, 10));
    assert!(!board.can_play(2, 2, 100_000));
    assert_eq!(fields(&board), before);
    assert!(board.can_play(4, 2, 100));
}

#[test]
fn the_turn_alternates_while_the_game_goes_on() {
    let mut board = Board::new();
    let moves = [(1, 1), (2, 1), (3, 1), (4, 1), (1, 3), (2, 3), (3, 3), (4, 3)];
    let mut expected = Color::Red;
    for (x, y) in moves {
        assert_eq!(board.currentplayer, expected);
        assert_eq!(board.make_move(x, y), Ok(GameState::Playing));
        expected = if expected == Color::Red { Color::Black } else { Color::Red };
    }
    assert_eq!(board.rounds, 8);
    assert_eq!((board.redcount, board.blackcount), (4, 4));
}

#[test]
fn try_move_plays_what_make_move_plays() {
    let moves = [
        (4, 2), (3, 4), (1, 2), (1, 1), (2, 1), (1, 1), (0, 2), (2, 2), (1, 2), (1, 2), (2, 2),
        (2, 2), (1, 2), (2, 2),
    ];
    let (expected, expected_answers) = play_moves(&moves);
    let mut board = Board::new();
    let mut answers = Vec::new();
    for (x, y) in moves {
        answers.push(board.try_move(x, y, 50).unwrap());
    }
    assert_eq!(answers, expected_answers);
    assert_eq!(fields(&board), fields(&expected));
    assert_eq!(answers[6], Err("坐标必须在1-4范围内！".to_string()));
    assert_eq!(answers[11], Err("无效的移动！".to_string()));
    assert_eq!(answers.iter().filter(|answer| **answer == Ok(GameState::Playing)).count(), 12);
    assert_eq!(board.num, [[0, 0, 1, 0], [2, 1, 0, 0], [2, 2, 1, 1], [0, 1, 1, 0]]);
    assert_eq!((board.redcount, board.blackcount, board.rounds), (1, 11, 12));
    assert_eq!(board.currentplayer, Color::Red);
}

#[test]
fn try_move_gives_up_a_cascade_that_never_ends() {
    let (mut board, _) = play_moves(&RUNAWAY_OPENING);
    let before = fields(&board);
    assert_eq!(board.try_move(2, 2, 1000), None);
    assert_eq!(fields(&board), before);
    assert_eq!(board.try_move(4, 2, 1000), Some(Ok(GameState::Playing)));
    assert_eq!(board.rounds, 24);
}

#[test]
fn try_move_gives_up_a_cascade_longer_than_the_budget() {
    let (mut board, _) = play_moves(&[(1, 2), (1, 1), (1, 2)]);
    let before = fields(&board);
    assert_eq!(board.try_move(1, 1, 1), None);
    assert_eq!(fields(&board), before);
    assert_eq!(board.try_move(1, 1, 2), Some(Ok(GameState::BlackWins)));
    assert_eq!(board.num, [[0, 0, 0, 0], [1, 0, 0, 0], [0, 1, 0, 0], [1, 1, 0, 0]]);
}

#[test]
fn full_counters_stop_a_legal_move_but_not_a_refusal() {
    let (mut board, _) = play_moves(&[(1, 1), (4, 4)]);
    board.rounds = i32::MAX;
    let before = fields(&board);
    assert!(!board.can_play(2, 2, 10));
    assert_eq!(board.try_move(2, 2, 10), None);
    assert!(board.can_play(4, 4, 10));
    assert_eq!(board.try_move(4, 4, 10), Some(Err("无效的移动！".to_string())));
    assert_eq!(board.make_move(4, 4), Err("无效的移动！".to_string()));
    assert!(board.can_play(0, 4, 10));
    assert_eq!(board.try_move(0, 4, 10), Some(Err("坐标必须在1-4范围内！".to_string())));
    assert_eq!(board.make_move(5, 4), Err("坐标必须在1-4范围内！".to_string()));
    assert_eq!(fields(&board), before);
}
