use tictactoe::board::Board;
use tictactoe::error::MoveError;
use tictactoe::game::{
    choose_move, make_move, minimax, pass_to_play, with_bot, GameOutcome, BOT_WINS, PLAYER_WINS,
    TIE,
};
use tictactoe::geomath::Point;

fn grid(rows: [&str; 3]) -> Board {
    let mut board = Board::new();
    for (y, row) in rows.iter().enumerate() {
        for (x, c) in row.chars().enumerate() {
            match c {
                'X' => board.set(Point::new(x, y), true),
                'O' => board.set(Point::new(x, y), false),
                _ => {}
            }
        }
    }
    board
}

fn cells(board: &Board) -> Vec<Option<bool>> {
    (0..9).map(|i| board.get(Point::new(i % 3, i / 3))).collect()
}

/// Whether the bot, on the move, can be made to lose by some play of the
/// other side.
fn bot_can_lose(board: &Board, bots_turn: bool) -> bool {
    if bots_turn {
        let mov = choose_move(board, false);
        let mut next = *board;
        match make_move(&mut next, mov, false) {
            Ok(GameOutcome::Ongoing) => bot_can_lose(&next, false),
            Ok(_) => false,
            Err(_) => true,
        }
    } else {
        for mov in board.possible_moves() {
            let mut next = *board;
            match make_move(&mut next, mov, true) {
                Ok(GameOutcome::Ongoing) => {
                    if bot_can_lose(&next, true) {
                        return true;
                    }
                }
                Ok(GameOutcome::Win(_)) => return true,
                Ok(GameOutcome::Draw) => {}
                Err(_) => return true,
            }
        }
        false
    }
}

#[test]
fn the_values_of_a_finished_game() {
    assert_eq!(PLAYER_WINS, -10);
    assert_eq!(BOT_WINS, 10);
    assert_eq!(TIE, 0);
}

#[test]
fn minimax_values_a_winning_move_of_the_player() {
    let board = grid(["XX.", "OO.", "..."]);
    assert_eq!(minimax(&board, Point::new(2, 0), true), -10);
}

#[test]
fn minimax_values_a_winning_move_of_the_bot() {
    let board = grid(["XX.", "OO.", "..."]);
    assert_eq!(minimax(&board, Point::new(2, 1), false), 10);
}

#[test]
fn minimax_values_the_last_move_of_a_tie() {
    let board = grid(["XOX", "XOO", "OX."]);
    assert_eq!(minimax(&board, Point::new(2, 2), true), 0);
}

#[test]
fn minimax_leaves_the_board_as_it_is() {
    let board = grid(["XOX", "OXO", "..."]);
    let before = cells(&board);
    minimax(&board, Point::new(1, 2), false);
    assert_eq!(cells(&board), before);
}

#[test]
fn minimax_looks_ahead() {
    let board = grid(["XOX", "OXO", "..."]);
    // The player completes the diagonal from the top right.
    assert_eq!(minimax(&board, Point::new(0, 2), true), -10);
    // Wherever the bot goes, the player completes a diagonal next.
    assert_eq!(minimax(&board, Point::new(0, 2), false), -10);
    assert_eq!(minimax(&board, Point::new(1, 2), false), -10);
    assert_eq!(minimax(&board, Point::new(2, 2), false), -10);
    // The player who goes to the middle of the last row wins a move later.
    assert_eq!(minimax(&board, Point::new(1, 2), true), -10);
}

#[test]
fn minimax_values_a_block_as_a_tie() {
    let board = grid(["XX.", ".O.", "..."]);
    assert_eq!(minimax(&board, Point::new(2, 0), false), 0);
    assert_eq!(minimax(&board, Point::new(0, 1), false), -10);
}

#[test]
fn minimax_values_every_opening_as_a_tie() {
    let board = Board::new();
    for mov in board.possible_moves() {
        assert_eq!(minimax(&board, mov, false), 0);
        assert_eq!(minimax(&board, mov, true), 0);
    }
}

#[test]
fn choose_move_takes_the_first_cell_of_the_empty_board() {
    let board = Board::new();
    assert_eq!(choose_move(&board, false), Point::new(0, 0));
    assert_eq!(choose_move(&board, true), Point::new(0, 0));
}

#[test]
fn choose_move_blocks() {
    let board = grid(["XX.", ".O.", "..."]);
    assert_eq!(choose_move(&board, false), Point::new(2, 0));
}

#[test]
fn choose_move_wins_where_it_can() {
    let board = grid(["XX.", "OO.", "X.."]);
    assert_eq!(choose_move(&board, false), Point::new(2, 1));
    assert_eq!(choose_move(&board, true), Point::new(2, 0));
}

#[test]
fn choose_move_takes_the_first_of_equal_moves() {
    let board = grid(["XOX", "OXO", "..."]);
    assert_eq!(choose_move(&board, false), Point::new(0, 2));
    assert_eq!(choose_move(&board, true), Point::new(0, 2));
}

#[test]
fn choose_move_takes_the_last_cell() {
    let board = grid(["XOX", "XOO", "OX."]);
    assert_eq!(choose_move(&board, true), Point::new(2, 2));
    assert_eq!(choose_move(&board, false), Point::new(2, 2));
}

#[test]
fn choose_move_picks_the_same_move_each_time() {
    for rows in [
        ["...", "...", "..."],
        ["X..", "...", "..."],
        ["X..", ".O.", "..X"],
        ["XO.", ".X.", "..O"],
    ] {
        let board = grid(rows);
        for turn in [false, true] {
            let first = choose_move(&board, turn);
            for _ in 0..3 {
                assert_eq!(choose_move(&board, turn), first);
            }
            assert_eq!(choose_move(&grid(rows), turn), first);
        }
    }
}

#[test]
fn choose_move_picks_an_empty_cell_of_the_best_value() {
    let board = grid(["X..", ".O.", "..X"]);
    for turn in [false, true] {
        let mov = choose_move(&board, turn);
        let moves = board.possible_moves();
        assert!(moves.contains(&mov));
        let value = minimax(&board, mov, turn);
        for other in moves {
            let rival = minimax(&board, other, turn);
            if turn {
                assert!(value <= rival);
            } else {
                assert!(value >= rival);
            }
            if other.y * 3 + other.x < mov.y * 3 + mov.x {
                assert_ne!(value, rival);
            }
        }
    }
}

#[test]
fn bot_against_a_perfect_adversary_ends_in_a_draw() {
    let mut board = Board::new();
    let mut turn = false;
    let outcome = loop {
        let mov = choose_move(&board, turn);
        match make_move(&mut board, mov, turn) {
            Ok(GameOutcome::Ongoing) => turn = !turn,
            Ok(outcome) => break outcome,
            Err(e) => panic!("{:?}", e),
        }
    };
    assert_eq!(outcome, GameOutcome::Draw);
    assert!(board.is_full());
}

#[test]
fn bot_that_begins_never_loses() {
    assert!(!bot_can_lose(&Board::new(), true));
}

#[test]
fn bot_that_answers_never_loses() {
    assert!(!bot_can_lose(&Board::new(), false));
}

#[test]
fn make_move_marks_the_cell() {
    let mut board = Board::new();
    assert_eq!(
        make_move(&mut board, Point::new(1, 1), true),
        Ok(GameOutcome::Ongoing)
    );
    assert_eq!(board.get(Point::new(1, 1)), Some(true));
    assert_eq!(board.possible_moves().len(), 8);
}

#[test]
fn make_move_sees_the_win() {
    let mut board = grid(["XX.", "OO.", "..."]);
    assert_eq!(
        make_move(&mut board, Point::new(2, 0), true),
        Ok(GameOutcome::Win(true))
    );
    let mut board = grid(["XX.", "OO.", "X.."]);
    assert_eq!(
        make_move(&mut board, Point::new(2, 1), false),
        Ok(GameOutcome::Win(false))
    );
}

#[test]
fn make_move_sees_the_draw() {
    let mut board = grid(["XOX", "XOO", "OX."]);
    assert_eq!(
        make_move(&mut board, Point::new(2, 2), true),
        Ok(GameOutcome::Draw)
    );
}

#[test]
fn make_move_counts_a_win_on_the_last_cell_as_a_win() {
    let mut board = grid(["XOX", "OXO", "OX."]);
    assert_eq!(
        make_move(&mut board, Point::new(2, 2), true),
        Ok(GameOutcome::Win(true))
    );
    assert!(board.is_full());
}

#[test]
fn make_move_turns_down_a_taken_cell() {
    let mut board = grid(["X..", "...", "..."]);
    let before = cells(&board);
    assert_eq!(
        make_move(&mut board, Point::new(0, 0), false),
        Err(MoveError::CellOccupied)
    );
    assert_eq!(
        make_move(&mut board, Point::new(0, 0), true),
        Err(MoveError::CellOccupied)
    );
    assert_eq!(cells(&board), before);
}

#[test]
fn make_move_turns_down_a_cell_off_the_board() {
    let mut board = Board::new();
    assert_eq!(
        make_move(&mut board, Point::new(3, 0), true),
        Err(MoveError::InvalidIndex)
    );
    assert_eq!(
        make_move(&mut board, Point::new(0, 3), true),
        Err(MoveError::InvalidIndex)
    );
    assert_eq!(board.possible_moves().len(), 9);
}

#[test]
fn pass_to_play_makes_the_typed_move() {
    let mut board = Board::new();
    assert_eq!(pass_to_play(&mut board, true, "5\n"), Ok(GameOutcome::Ongoing));
    assert_eq!(board.get(Point::new(1, 1)), Some(true));
    assert_eq!(pass_to_play(&mut board, false, "1\n"), Ok(GameOutcome::Ongoing));
    assert_eq!(board.get(Point::new(0, 0)), Some(false));
}

#[test]
fn pass_to_play_turns_down_bad_input() {
    let mut board = grid(["X..", "...", "..."]);
    let before = cells(&board);
    assert_eq!(pass_to_play(&mut board, false, "one\n"), Err(MoveError::ParseFailure));
    assert_eq!(pass_to_play(&mut board, false, "0\n"), Err(MoveError::InvalidIndex));
    assert_eq!(pass_to_play(&mut board, false, "10\n"), Err(MoveError::InvalidIndex));
    assert_eq!(pass_to_play(&mut board, false, "1\n"), Err(MoveError::CellOccupied));
    assert_eq!(cells(&board), before);
}

#[test]
fn pass_to_play_ends_the_game() {
    let mut board = grid(["XX.", "OO.", "..."]);
    assert_eq!(pass_to_play(&mut board, true, "3\n"), Ok(GameOutcome::Win(true)));
    let mut board = grid(["XOX", "XOO", "OX."]);
    assert_eq!(pass_to_play(&mut board, true, "9\n"), Ok(GameOutcome::Draw));
}

#[test]
fn with_bot_takes_the_players_input() {
    let mut board = Board::new();
    assert_eq!(with_bot(&mut board, true, "9\n"), Ok(GameOutcome::Ongoing));
    assert_eq!(board.get(Point::new(2, 2)), Some(true));
    assert_eq!(with_bot(&mut board, true, "9\n"), Err(MoveError::CellOccupied));
    assert_eq!(with_bot(&mut board, true, "?\n"), Err(MoveError::ParseFailure));
    assert_eq!(with_bot(&mut board, true, "12\n"), Err(MoveError::InvalidIndex));
    assert_eq!(board.possible_moves().len(), 8);
}

#[test]
fn with_bot_moves_for_the_bot_without_input() {
    let mut board = grid(["XX.", ".O.", "..."]);
    assert_eq!(with_bot(&mut board, false, ""), Ok(GameOutcome::Ongoing));
    assert_eq!(board.get(Point::new(2, 0)), Some(false));
    assert_eq!(board.possible_moves().len(), 5);

    let mut board = grid(["XX.", "OO.", "X.."]);
    assert_eq!(with_bot(&mut board, false, "3\n"), Ok(GameOutcome::Win(false)));
    assert_eq!(board.get(Point::new(2, 1)), Some(false));
    assert_eq!(board.get(Point::new(2, 0)), None);
}
