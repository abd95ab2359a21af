use tictactoe_core::board::{Board, BoardError};
use tictactoe_core::game::{Game, Strategy};
use tictactoe_core::search::{Player, PlayerType};

#[test]
fn should_have_used_nalgebra() {
    let board = Board::new();
    assert_eq!(
        board.flip_h(),
        Board::from_vec(vec!['3', '2', '1', '6', '5', '4', '9', '8', '7'])
    );

    assert_eq!(
        board.flip_v(),
        Board::from_vec(vec!['7', '8', '9', '4', '5', '6', '1', '2', '3'])
    );

    assert_eq!(
        board.transpose().flip_v(),
        Board::from_vec(vec!['3', '6', '9', '2', '5', '8', '1', '4', '7'])
    );

    assert_eq!(
        board.flip_h().flip_v(),
        Board::from_vec(vec!['9', '8', '7', '6', '5', '4', '3', '2', '1'])
    );

    assert_eq!(
        board.transpose().flip_h(),
        Board::from_vec(vec!['7', '4', '1', '8', '5', '2', '9', '6', '3'])
    );

    assert_eq!(
        board.transpose().flip_v().flip_h(),
        Board::from_vec(vec!['9', '6', '3', '8', '5', '2', '7', '4', '1'])
    );
}

fn sample_board() -> Board {
    Board::from_vec(vec!['X', 'O', '3', '4', 'X', '6', '7', '8', 'O'])
}

#[test]
fn state_key_invariant_under_all_transforms() {
    let b = sample_board();
    let key = b.state_key();
    let images = vec![
        b.flip_v(),
        b.flip_h(),
        b.transpose(),
        b.transpose().flip_v(),
        b.flip_h().flip_v(),
        b.transpose().flip_h(),
        b.transpose().flip_v().flip_h(),
    ];
    for img in images {
        assert_eq!(img.state_key(), key);
    }
}

#[test]
fn state_key_keeps_players_apart() {
    let a = Board::from_vec(vec!['X', 'O', '3', '4', '5', '6', '7', '8', '9']);
    let b = Board::from_vec(vec!['O', 'X', '3', '4', '5', '6', '7', '8', '9']);
    assert_ne!(a.state_key(), b.state_key());
}

#[test]
fn state_key_of_empty_board() {
    assert_eq!(Board::new().state_key(), "000000000".to_string());
}

#[test]
fn set_cell_rejects_occupied_and_bad_index() {
    let mut b = sample_board();
    let before = b.iter();
    assert_eq!(b.set_cell(1, false), Err(BoardError::CellOccupied));
    assert_eq!(b.iter(), before);
    assert_eq!(b.set_cell(0, true), Err(BoardError::InvalidIndex));
    assert_eq!(b.iter(), before);
    assert_eq!(b.set_cell(10, true), Err(BoardError::InvalidIndex));
    assert_eq!(b.iter(), before);
    assert_eq!(b.set_cell(3, true), Ok(()));
    assert_eq!(b.get_cell(3), Ok(Some('X')));
}

#[test]
fn get_cell_reports_occupant_or_none() {
    let b = sample_board();
    assert_eq!(b.get_cell(1), Ok(Some('X')));
    assert_eq!(b.get_cell(2), Ok(Some('O')));
    assert_eq!(b.get_cell(3), Ok(None));
    assert_eq!(b.get_cell(0), Err(BoardError::InvalidIndex));
    assert_eq!(b.get_cell(10), Err(BoardError::InvalidIndex));
}

#[test]
fn check_matches_on_empty_board() {
    assert_eq!(Board::new().check_matches(), None);
}

#[test]
fn check_matches_finds_each_line() {
    let lines: [[usize; 3]; 8] = [
        [1, 2, 3],
        [4, 5, 6],
        [7, 8, 9],
        [1, 4, 7],
        [2, 5, 8],
        [3, 6, 9],
        [1, 5, 9],
        [3, 5, 7],
    ];
    for line in lines.iter() {
        let mut cells = vec!['1', '2', '3', '4', '5', '6', '7', '8', '9'];
        for &i in line.iter() {
            cells[i - 1] = 'X';
        }
        let b = Board::from_vec(cells);
        assert_eq!(b.check_matches(), Some('X'));

        let mut cells = vec!['1', '2', '3', '4', '5', '6', '7', '8', '9'];
        for &i in line.iter() {
            cells[i - 1] = 'O';
        }
        let b = Board::from_vec(cells);
        assert_eq!(b.check_matches(), Some('O'));
    }
}

#[test]
fn check_matches_ignores_mixed_line() {
    let b = Board::from_vec(vec!['X', 'O', 'X', '4', '5', '6', '7', '8', '9']);
    assert_eq!(b.check_matches(), None);
}

#[test]
fn open_spaces_and_fullness() {
    let mut b = Board::new();
    assert!(!b.is_full());
    assert_eq!(b.get_open_spaces(), vec![1, 2, 3, 4, 5, 6, 7, 8, 9]);
    let mut first = true;
    for i in 1..=9 {
        assert!(!b.is_full());
        assert_eq!(b.set_cell(i, first), Ok(()));
        first = !first;
    }
    assert!(b.is_full());
    assert_eq!(b.get_open_spaces(), Vec::<usize>::new());
    b.reset();
    assert!(!b.is_full());
    assert_eq!(b.get_open_spaces(), vec![1, 2, 3, 4, 5, 6, 7, 8, 9]);
    assert_eq!(b, Board::new());
}

#[test]
fn flips_and_transpose_are_involutions() {
    let b = sample_board();
    assert_eq!(b.flip_h().flip_h(), b);
    assert_eq!(b.flip_v().flip_v(), b);
    assert_eq!(b.transpose().transpose(), b);
}

#[test]
fn minimax_calls_the_empty_board_a_draw() {
    let mut game = Game::new();
    let board = Board::new();
    assert_eq!(game.minimax_score(true, &board), 0);
}

#[test]
fn minimax_scores_a_won_board() {
    let mut game = Game::new();
    let x_wins = Board::from_vec(vec!['X', 'X', 'X', 'O', 'O', '6', '7', '8', '9']);
    assert_eq!(game.minimax_score(false, &x_wins), 10);
    let o_wins = Board::from_vec(vec!['O', 'O', 'O', 'X', 'X', '6', 'X', '8', '9']);
    assert_eq!(game.minimax_score(true, &o_wins), -10);
}

#[test]
fn completing_the_diagonal_wins() {
    let mut b = Board::from_vec(vec!['X', 'O', '3', '4', 'X', '6', '7', '8', '9']);
    assert_eq!(b.check_matches(), None);
    assert_eq!(b.set_cell(9, true), Ok(()));
    assert_eq!(b.check_matches(), Some('X'));
}

#[test]
fn block_losing_blocks_the_open_third_cell() {
    let board = Board::from_vec(vec!['O', 'O', '3', '4', '5', '6', '7', '8', '9']);
    let player = Player::new('X', PlayerType::BlockLosing);
    assert_eq!(player.make_move(&board), 3);
}

#[test]
fn find_winning_completes_own_line() {
    let board = Board::from_vec(vec!['X', 'X', '3', 'O', 'O', '6', '7', '8', '9']);
    let player = Player::new('X', PlayerType::FindWinning);
    assert_eq!(player.make_move(&board), 3);
    let blocker = Player::new('O', PlayerType::BlockLosing);
    assert_eq!(blocker.make_move(&board), 6);
}

#[test]
fn random_move_lands_on_an_open_cell() {
    let board = Board::from_vec(vec!['X', 'O', '3', '4', '5', '6', '7', '8', 'X']);
    let player = Player::new('O', PlayerType::Random);
    for _ in 0..32 {
        let m = player.make_move(&board);
        assert!(board.get_open_spaces().contains(&m));
    }
}

#[test]
fn player_records_name_and_kind() {
    let p = Player::new('X', PlayerType::Human);
    assert_eq!(p.name(), 'X');
    assert_eq!(p, Player::new('X', PlayerType::Random));
    assert_ne!(p, Player::new('O', PlayerType::Human));
    assert_eq!(Board::player(true), 'X');
    assert_eq!(Board::player(false), 'O');
}

#[test]
fn optimal_play_blocks_the_threat() {
    let mut game = Game::new();
    assert_eq!(game.apply_move(1), Ok(None));
    assert_eq!(game.apply_move(5), Ok(None));
    assert_eq!(game.apply_move(2), Ok(None));
    // X holds 1 and 2, O holds 5; O must answer on 3
    assert_eq!(game.pick_optimal_move(), 3);
}

#[test]
fn a_full_game_through_the_engine() {
    let mut game = Game::new();
    game.set_player(Strategy::Optimal);
    game.set_player(Strategy::Optimal);
    let mut steps = 0;
    while !game.is_done() {
        let mv = game.get_move(game.curr_player());
        assert_eq!(game.apply_move(mv).map(|_| ()), Ok(()));
        steps += 1;
        assert!(steps <= 9);
    }
    // optimal play on both sides ends in a draw on a full board
    assert_eq!(game.board_ref().check_matches(), None);
    assert!(game.board_ref().is_full());
}
