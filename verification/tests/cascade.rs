use my_qipan::{Board, Color, GameState};

const E: Color = Color::Empty;
const R: Color = Color::Red;
const K: Color = Color::Black;

/// Plays the cells `cells`, given by row and column from the top left, and
/// returns how the game stood after each.
fn play_cells(board: &mut Board, cells: &[(usize, usize)]) -> Vec<GameState> {
    let mut states = Vec::new();
    for &(row, col) in cells {
        assert!(board.can_play(col + 1, 4 - row, 1000));
        states.push(board.make_move(col + 1, 4 - row).unwrap());
    }
    states
}

fn owned(board: &Board, who: Color) -> i32 {
    let mut sum = 0;
    for row in 0..4 {
        for col in 0..4 {
            if board.camp[row][col] == who {
                sum += board.num[row][col];
            }
        }
    }
    sum
}

#[test]
fn corner_overflows_on_its_second_piece() {
    let mut board = Board::new();
    let states = play_cells(&mut board, &[(0, 0), (3, 3), (0, 0)]);
    assert_eq!(states, vec![GameState::Playing; 3]);
    assert_eq!(board.num[0][0], 0);
    assert_eq!(board.camp[0][0], E);
    assert_eq!(board.num[0][1], 1);
    assert_eq!(board.camp[0][1], R);
    assert_eq!(board.num[1][0], 1);
    assert_eq!(board.camp[1][0], R);
    assert_eq!(board.redcount, 2);
    assert_eq!(board.blackcount, 1);
    assert_eq!(board.rounds, 3);
    assert_eq!(board.num, [[0, 1, 0, 0], [1, 0, 0, 0], [0, 0, 0, 0], [0, 0, 0, 1]]);

    let states = play_cells(&mut board, &[(3, 3), (0, 0)]);
    assert_eq!(states, vec![GameState::Playing; 2]);
    assert_eq!(board.num[0][0], 1);
    assert_eq!(board.camp[0][0], R);
    assert_eq!(board.redcount, 3);
    assert_eq!(board.num, [[1, 1, 0, 0], [1, 0, 0, 0], [0, 0, 0, 1], [0, 0, 1, 0]]);
    assert_eq!(board.blackcount, 2);
}

#[test]
fn three_red_pieces_on_a_corner() {
    let mut board = Board::new();
    assert_eq!(board.make_move(1, 4), Ok(GameState::Playing));
    assert_eq!(board.num[0][0], 1);
    assert_eq!(board.redcount, 1);

    board.currentplayer = Color::Red;
    assert_eq!(board.make_move(1, 4), Ok(GameState::Playing));
    assert_eq!(board.num[0][0], 0);
    assert_eq!(board.camp[0][0], E);
    assert_eq!((board.camp[0][1], board.num[0][1]), (R, 1));
    assert_eq!((board.camp[1][0], board.num[1][0]), (R, 1));
    assert_eq!(board.redcount, 2);
    assert_eq!(board.rounds, 2);

    board.currentplayer = Color::Red;
    assert_eq!(board.make_move(1, 4), Ok(GameState::RedWins));
    assert_eq!((board.camp[0][0], board.num[0][0]), (R, 1));
    assert_eq!(board.redcount, 3);
    assert_eq!(board.blackcount, 0);
    assert_eq!(board.currentplayer, Color::Red);
}

#[test]
fn an_overflow_captures_the_neighbour_before_it_adds_its_piece() {
    let mut board = Board::new();
    let states = play_cells(&mut board, &[(3, 2), (0, 3), (1, 3)]);
    assert_eq!(states, vec![GameState::Playing; 3]);
    assert_eq!((board.camp[1][3], board.num[1][3]), (R, 1));
    assert_eq!((board.redcount, board.blackcount), (2, 1));

    let states = play_cells(&mut board, &[(0, 3)]);
    assert_eq!(states, vec![GameState::Playing]);
    assert_eq!((board.camp[1][3], board.num[1][3]), (K, 2));
    assert_eq!((board.camp[0][2], board.num[0][2]), (K, 1));
    assert_eq!((board.camp[0][3], board.num[0][3]), (E, 0));
    assert_eq!((board.redcount, board.blackcount), (1, 3));
    assert_eq!(board.camp, [[E, E, K, E], [E, E, E, K], [E, E, E, E], [E, E, R, E]]);
    assert_eq!(board.num, [[0, 0, 1, 0], [0, 0, 0, 2], [0, 0, 0, 0], [0, 0, 1, 0]]);
    assert_eq!(board.rounds, 4);
    assert_eq!(board.currentplayer, R);
}

#[test]
fn capturing_the_last_rival_piece_wins_and_keeps_the_turn() {
    let mut board = Board::new();
    let states = play_cells(&mut board, &[(0, 0), (0, 1), (0, 0)]);
    assert_eq!(states, vec![GameState::Playing, GameState::Playing, GameState::RedWins]);
    assert_eq!(board.camp, [[E, R, E, E], [R, E, E, E], [E, E, E, E], [E, E, E, E]]);
    assert_eq!(board.num, [[0, 2, 0, 0], [1, 0, 0, 0], [0, 0, 0, 0], [0, 0, 0, 0]]);
    assert_eq!((board.redcount, board.blackcount, board.rounds), (3, 0, 3));
    assert_eq!(board.currentplayer, R);
    assert_eq!(board.get_game_state(), GameState::RedWins);
}

#[test]
fn an_overflow_can_set_off_the_next() {
    let mut board = Board::new();
    let states = play_cells(&mut board, &[(2, 0), (3, 0), (2, 0), (3, 0)]);
    assert_eq!(
        states,
        vec![GameState::Playing, GameState::Playing, GameState::Playing, GameState::BlackWins]
    );
    assert_eq!(board.camp, [[E, E, E, E], [K, E, E, E], [E, K, E, E], [K, K, E, E]]);
    assert_eq!(board.num, [[0, 0, 0, 0], [1, 0, 0, 0], [0, 1, 0, 0], [1, 1, 0, 0]]);
    assert_eq!((board.redcount, board.blackcount, board.rounds), (0, 4, 4));
    assert_eq!(board.currentplayer, K);
}

#[test]
fn a_cell_above_its_capacity_gives_two_pieces_to_its_first_neighbours() {
    let mut board = Board::new();
    let opening = [
        (2, 3), (0, 2), (2, 0), (3, 0), (3, 1), (3, 0), (2, 1), (2, 0), (2, 0), (2, 1), (2, 0),
    ];
    let states = play_cells(&mut board, &opening);
    assert_eq!(states, vec![GameState::Playing; 11]);
    assert_eq!(board.camp, [[E, E, K, E], [K, E, E, E], [R, K, E, R], [K, K, E, E]]);
    assert_eq!(board.num, [[0, 0, 1, 0], [1, 0, 0, 0], [2, 3, 0, 1], [1, 2, 0, 0]]);
    assert_eq!((board.redcount, board.blackcount), (3, 8));
    assert_eq!(board.currentplayer, K);

    let states = play_cells(&mut board, &[(2, 1)]);
    assert_eq!(states, vec![GameState::Playing]);
    assert_eq!(board.camp, [[E, E, K, E], [K, K, E, E], [K, K, K, R], [E, K, K, E]]);
    assert_eq!(board.num, [[0, 0, 1, 0], [2, 1, 0, 0], [2, 2, 1, 1], [0, 1, 1, 0]]);
    assert_eq!((board.redcount, board.blackcount, board.rounds), (1, 11, 12));
    assert_eq!(board.currentplayer, R);
}

#[test]
fn totals_are_the_pieces_on_the_grid_while_none_is_lost() {
    let mut board = Board::new();
    let moves = [
        (2, 3), (0, 2), (2, 0), (3, 0), (3, 1), (3, 0), (2, 1), (2, 0), (2, 0), (2, 1), (2, 0),
        (2, 1),
    ];
    for cell in moves {
        play_cells(&mut board, &[cell]);
        assert_eq!(board.redcount, owned(&board, R));
        assert_eq!(board.blackcount, owned(&board, K));
        assert_eq!(owned(&board, E), 0);
        assert_eq!(board.redcount + board.blackcount, board.rounds);
    }
}

#[test]
fn every_cell_is_below_its_capacity_after_each_move() {
    let mut board = Board::new();
    let moves = [
        (2, 1), (0, 3), (1, 2), (3, 3), (3, 1), (0, 2), (3, 1), (2, 3), (3, 2), (3, 0), (0, 1),
        (3, 3), (3, 1), (2, 3), (2, 1), (2, 3), (0, 0), (3, 3), (1, 2), (2, 3), (1, 0), (0, 3),
        (3, 3), (1, 3), (3, 1),
    ];
    for cell in moves {
        play_cells(&mut board, &[cell]);
        for row in 0..4 {
            for col in 0..4 {
                assert!(board.num[row][col] >= 0);
                assert!(board.num[row][col] < board.maxnum[row][col]);
                assert_eq!(board.num[row][col] == 0, board.camp[row][col] == E);
            }
        }
    }
}

#[test]
fn a_cell_far_above_its_capacity_loses_pieces() {
    let mut board = Board::new();
    let opening = [
        (2, 1), (0, 3), (1, 2), (3, 3), (3, 1), (0, 2), (3, 1), (2, 3), (3, 2), (3, 0), (0, 1),
        (3, 3), (3, 1), (2, 3), (2, 1), (2, 3), (0, 0), (3, 3), (1, 2), (2, 3), (1, 0), (0, 3),
        (3, 3), (1, 3),
    ];
    let states = play_cells(&mut board, &opening);
    assert_eq!(states, vec![GameState::Playing; 24]);
    assert_eq!(board.camp, [[R, R, K, K], [R, E, K, K], [R, R, K, K], [E, R, K, R]]);
    assert_eq!(board.num, [[1, 1, 2, 1], [1, 0, 3, 1], [1, 3, 3, 2], [0, 2, 2, 1]]);
    assert_eq!((board.redcount, board.blackcount), (10, 14));
    assert_eq!((owned(&board, R), owned(&board, K)), (10, 14));

    let states = play_cells(&mut board, &[(3, 1)]);
    assert_eq!(states, vec![GameState::RedWins]);
    assert_eq!(board.camp, [[R, R, R, E], [R, R, R, R], [R, R, R, R], [R, R, R, R]]);
    assert_eq!(board.num, [[1, 2, 2, 0], [1, 2, 2, 2], [2, 1, 2, 1], [1, 2, 2, 1]]);
    assert_eq!((board.redcount, board.blackcount, board.rounds), (25, 0, 25));
    assert_eq!((owned(&board, R), owned(&board, K)), (24, 0));
}
