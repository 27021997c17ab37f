//! The bot: how a move is valued, and which move is picked.

use vstd::prelude::*;
use crate::board::{
    free_points, full, lemma_place, lemma_room, vacancies, vacant, wins, Board, Square,
};
use crate::error::MoveError;
use crate::geomath::{Point, SIZE};
use crate::input::{move_of, parse_move};

verus! {

/// Value of a game that the bot has won.
pub const BOT_WINS: i32 = 10;

/// Value of a game that the human player has won.
pub const PLAYER_WINS: i32 = -10;

/// Value of a game that nobody has won.
pub const TIE: i32 = 0;

/// Value of the move of `minimize` to the empty cell `placement`, when both
/// players go on to play as well as they can: `PLAYER_WINS` if the human
/// player (`true`) wins in the end, `BOT_WINS` if the bot (`false`) does,
/// `TIE` if nobody does.
pub open spec fn score(cells: Seq<Square>, placement: Point, minimize: bool) -> int
    decreases vacancies(cells), 0nat,
{
    if cells.len() == SIZE * SIZE && vacant(cells, placement) {
        let next = cells.update(placement.offset(), Some(minimize));
        if wins(next, placement) {
            if minimize {
                PLAYER_WINS as int
            } else {
                BOT_WINS as int
            }
        } else if full(next) {
            TIE as int
        } else {
            proof {
                lemma_place(cells, placement, minimize);
            }
            fold_replies(next, free_points(next), minimize)
        }
    } else {
        TIE as int
    }
}

/// Value of the best among the answers `moves` to a move of `minimize`: the
/// greatest if the human player (`true`) has just moved, since the bot
/// answers, and the least if the bot has. Without an answer it is the least,
/// respectively the greatest, `i32`.
pub open spec fn fold_replies(cells: Seq<Square>, moves: Seq<Point>, minimize: bool) -> int
    decreases vacancies(cells), moves.len() + 1,
{
    if moves.len() == 0 {
        if minimize {
            i32::MIN as int
        } else {
            i32::MAX as int
        }
    } else {
        let acc = fold_replies(cells, moves.drop_last(), minimize);
        let mm = score(cells, moves.last(), !minimize);
        if minimize {
            if acc >= mm { acc } else { mm }
        } else {
            if acc <= mm { acc } else { mm }
        }
    }
}

/// How a game stands after a move.
#[derive(Clone, Copy, Debug, PartialEq, Eq, Structural)]
pub enum GameOutcome {
    /// Nobody has won and a cell is left: the other player moves.
    Ongoing,
    /// The player who has just moved holds a whole row, column or diagonal.
    Win(bool),
    /// Every cell is occupied and nobody has won.
    Draw,
}

/// How the game stands once the cell `last` of `cells` has been marked. Only
/// the lines through `last` are looked at: a line that an earlier move has
/// completed ended the game then.
pub open spec fn outcome_after(cells: Seq<Square>, last: Point) -> GameOutcome {
    if wins(cells, last) {
        GameOutcome::Win(cells[last.offset()]->0)
    } else if full(cells) {
        GameOutcome::Draw
    } else {
        GameOutcome::Ongoing
    }
}

/// The cells after `turn` has asked for the cell `mov`: marked there if the
/// cell is on the board and empty, and as they were if not.
pub open spec fn cells_after(cells: Seq<Square>, mov: Point, turn: bool) -> Seq<Square> {
    if vacant(cells, mov) {
        cells.update(mov.offset(), Some(turn))
    } else {
        cells
    }
}

/// What `turn` is told who has asked for the cell `mov`: that the board has
/// no such cell, that the cell is taken, or how the game stands after the
/// move.
pub open spec fn answer_to(cells: Seq<Square>, mov: Point, turn: bool) -> Result<
    GameOutcome,
    MoveError,
> {
    if !mov.in_bounds() {
        Err(MoveError::InvalidIndex)
    } else if cells[mov.offset()] is Some {
        Err(MoveError::CellOccupied)
    } else {
        Ok(outcome_after(cells_after(cells, mov, turn), mov))
    }
}

/// What a player is told who has asked for `asked`, a cell or no cell at
/// all: why there is no cell, or what `answer_to` tells of the cell.
pub open spec fn turn_answer(cells: Seq<Square>, asked: Result<Point, MoveError>, turn: bool) -> Result<
    GameOutcome,
    MoveError,
> {
    match asked {
        Ok(mov) => answer_to(cells, mov, turn),
        Err(e) => Err(e),
    }
}

/// The cells after a player has asked for `asked`, a cell or no cell at all.
pub open spec fn turn_cells(cells: Seq<Square>, asked: Result<Point, MoveError>, turn: bool) -> Seq<
    Square,
> {
    match asked {
        Ok(mov) => cells_after(cells, mov, turn),
        Err(_) => cells,
    }
}

/// The cell that is asked for in a turn of a game against the bot: the one
/// that `input` names where the human player (`true`) moves, the bot's
/// choice where the bot does.
pub open spec fn asked_with_bot(cells: Seq<Square>, turn: bool, input: Seq<char>) -> Result<
    Point,
    MoveError,
> {
    if turn {
        move_of(input)
    } else {
        Ok(choice(cells, turn))
    }
}

/// A move is worth what a finished game is worth: whatever the board, the
/// cell and the player, `score` is `PLAYER_WINS`, `TIE` or `BOT_WINS`.
pub proof fn lemma_score_is_an_outcome(cells: Seq<Square>, placement: Point, minimize: bool)
    ensures
        score(cells, placement, minimize) == PLAYER_WINS || score(cells, placement, minimize)
            == TIE || score(cells, placement, minimize) == BOT_WINS,
    decreases vacancies(cells), 0nat,
{
    if cells.len() == SIZE * SIZE && vacant(cells, placement) {
        let next = cells.update(placement.offset(), Some(minimize));
        if !wins(next, placement) && !full(next) {
            lemma_place(cells, placement, minimize);
            lemma_room(next);
            lemma_fold_is_an_outcome(next, free_points(next), minimize);
        }
    }
}

/// The best of one answer or more is worth what a finished game is worth.
pub proof fn lemma_fold_is_an_outcome(cells: Seq<Square>, moves: Seq<Point>, minimize: bool)
    requires
        moves.len() > 0,
    ensures
        fold_replies(cells, moves, minimize) == PLAYER_WINS || fold_replies(cells, moves, minimize)
            == TIE || fold_replies(cells, moves, minimize) == BOT_WINS,
    decreases vacancies(cells), moves.len() + 1,
{
    lemma_score_is_an_outcome(cells, moves.last(), !minimize);
    if moves.len() > 1 {
        lemma_fold_is_an_outcome(cells, moves.drop_last(), minimize);
    } else {
        assert(fold_replies(cells, moves.drop_last(), minimize) == if minimize {
            i32::MIN as int
        } else {
            i32::MAX as int
        });
    }
}

/// A move never clears or overwrites a mark: it changes one cell at most,
/// the one asked for, and that one only if it was empty.
pub proof fn lemma_marks_stay(cells: Seq<Square>, mov: Point, turn: bool)
    requires
        cells.len() == SIZE * SIZE,
    ensures
        cells_after(cells, mov, turn).len() == cells.len(),
        forall|i: int|
            0 <= i < cells.len() && i != mov.offset() ==> #[trigger] cells_after(cells, mov, turn)[i]
                == cells[i],
        forall|i: int|
            0 <= i < cells.len() && cells[i] is Some ==> #[trigger] cells_after(cells, mov, turn)[i]
                == cells[i],
{
}

/// Whether the value `candidate` suits the player `turn` strictly better than
/// the value `best`: the human player (`true`) looks for the least value,
/// the bot for the greatest.
pub open spec fn better(candidate: int, best: int, turn: bool) -> bool {
    if turn {
        candidate < best
    } else {
        candidate > best
    }
}

/// Whether `mov` is the move that `turn` picks: an empty cell whose value no
/// other empty cell beats, and the first such cell in the order of the
/// offsets.
pub open spec fn is_choice(cells: Seq<Square>, turn: bool, mov: Point) -> bool {
    &&& vacant(cells, mov)
    &&& forall|other: Point| #[trigger]
        vacant(cells, other) ==> !better(
            score(cells, other, turn),
            score(cells, mov, turn),
            turn,
        )
    &&& forall|other: Point| #[trigger]
        vacant(cells, other) && other.offset() < mov.offset() ==> better(
            score(cells, mov, turn),
            score(cells, other, turn),
            turn,
        )
}

/// The move that `turn` picks on a board with an empty cell.
pub open spec fn choice(cells: Seq<Square>, turn: bool) -> Point {
    choose|mov: Point| is_choice(cells, turn, mov)
}

/// On a given board a player has one choice at most: whatever picks a move
/// as `is_choice` describes picks the same cell each time.
pub proof fn lemma_choice_is_unique(cells: Seq<Square>, turn: bool, a: Point, b: Point)
    requires
        is_choice(cells, turn, a),
        is_choice(cells, turn, b),
    ensures
        a == b,
{
    if a.offset() < b.offset() {
        assert(vacant(cells, a));
        assert(better(score(cells, b, turn), score(cells, a, turn), turn));
        assert(!better(score(cells, b, turn), score(cells, a, turn), turn));
    } else if b.offset() < a.offset() {
        assert(vacant(cells, b));
        assert(better(score(cells, a, turn), score(cells, b, turn), turn));
        assert(!better(score(cells, a, turn), score(cells, b, turn), turn));
    }
}

/// Values the move of `minimize` to the empty cell `placement` by playing out
/// every continuation on copies of `board`.
pub fn minimax(board: &Board, placement: Point, minimize: bool) -> (value: i32)
    requires
        vacant(board@, placement),
    ensures
        value == score(board@, placement, minimize),
    decreases vacancies(board@),
{
    proof {
        board.lemma_len();
        lemma_place(board@, placement, minimize);
    }
    let mut next = board.clone();
    next.set(placement, minimize);

    if next.check_win(placement) {
        return if minimize { PLAYER_WINS } else { BOT_WINS };
    }
    if next.is_full() {
        return TIE;
    }
    let initial = if minimize { i32::MIN } else { i32::MAX };

    let moves = next.possible_moves();
    let mut acc = initial;
    let mut i: usize = 0;
    while i < moves.len()
        invariant
            i <= moves.len(),
            moves@ == free_points(next@),
            forall|j: int| 0 <= j < moves.len() ==> vacant(next@, #[trigger] moves[j]),
            vacancies(next@) < vacancies(board@),
            acc == fold_replies(next@, moves@.take(i as int), minimize),
        decreases moves.len() - i,
    {
        let mm = minimax(&next, moves[i], !minimize);
        proof {
            let upto = moves@.take(i + 1);
            assert(upto.drop_last() == moves@.take(i as int));
            assert(upto.last() == moves[i as int]);
        }
        acc = if minimize {
            if acc >= mm { acc } else { mm }
        } else {
            if acc <= mm { acc } else { mm }
        };
        i += 1;
    }
    proof {
        assert(moves@.take(moves.len() as int) == moves@);
    }
    acc
}

/// The move of the player `turn` on a board with an empty cell: the first,
/// row by row, among the moves of the best value for that player.
pub fn choose_move(board: &Board, turn: bool) -> (mov: Point)
    requires
        !full(board@),
    ensures
        is_choice(board@, turn, mov),
        mov == choice(board@, turn),
{
    let moves = board.possible_moves();
    proof {
        board.lemma_len();
        lemma_room(board@);
    }
    let mut mov = moves[0];
    let mut value = minimax(board, mov, turn);
    let ghost mut at: int = 0;
    let mut i: usize = 1;
    while i < moves.len()
        invariant
            1 <= i <= moves.len(),
            0 <= at < i,
            mov == moves[at],
            value == score(board@, mov, turn),
            forall|j: int| 0 <= j < moves.len() ==> vacant(board@, #[trigger] moves[j]),
            forall|j: int|
                0 <= j < i ==> !better(score(board@, #[trigger] moves[j], turn), value as int, turn),
            forall|j: int|
                0 <= j < at ==> better(value as int, score(board@, #[trigger] moves[j], turn), turn),
        decreases moves.len() - i,
    {
        let candidate = minimax(board, moves[i], turn);
        if (turn && candidate < value) || (!turn && candidate > value) {
            mov = moves[i];
            value = candidate;
            proof {
                at = i as int;
            }
        }
        i += 1;
    }
    proof {
        assert forall|other: Point| #[trigger] vacant(board@, other) implies !better(
            score(board@, other, turn),
            score(board@, mov, turn),
            turn,
        ) by {
            assert(moves@.contains(other));
            let j = choose|j: int| 0 <= j < moves.len() && moves[j] == other;
            assert(!better(score(board@, moves[j], turn), value as int, turn));
        }
        assert forall|other: Point| #[trigger]
            vacant(board@, other) && other.offset() < mov.offset() implies better(
            score(board@, mov, turn),
            score(board@, other, turn),
            turn,
        ) by {
            assert(moves@.contains(other));
            let j = choose|j: int| 0 <= j < moves.len() && moves[j] == other;
            if j >= at {
                if j > at {
                    assert(moves[at].offset() < moves[j].offset());
                }
            }
            assert(better(value as int, score(board@, moves[j], turn), turn));
        }
    }
    proof {
        lemma_choice_is_unique(board@, turn, mov, choice(board@, turn));
    }
    mov
}

/// Marks the cell `mov` for `turn` and tells how the game stands then. A
/// cell off the board and a cell that is taken are turned down, and the
/// board stays as it is.
pub fn make_move(board: &mut Board, mov: Point, turn: bool) -> (answer: Result<
    GameOutcome,
    MoveError,
>)
    ensures
        answer == answer_to(old(board)@, mov, turn),
        final(board)@ == cells_after(old(board)@, mov, turn),
        answer is Ok <==> vacant(old(board)@, mov),
{
    if mov.x >= SIZE || mov.y >= SIZE {
        return Err(MoveError::InvalidIndex);
    }
    if board.get(mov).is_some() {
        return Err(MoveError::CellOccupied);
    }
    proof {
        board.lemma_len();
    }
    board.set(mov, turn);

    if board.check_win(mov) {
        return Ok(GameOutcome::Win(turn));
    }
    if board.is_full() {
        return Ok(GameOutcome::Draw);
    }
    Ok(GameOutcome::Ongoing)
}

/// One turn of a game between two human players: `turn` has typed `input`.
/// Input that names no cell is turned down as `parse_move` tells, the rest
/// goes as `make_move` tells.
pub fn pass_to_play(board: &mut Board, turn: bool, input: &str) -> (answer: Result<
    GameOutcome,
    MoveError,
>)
    ensures
        answer == turn_answer(old(board)@, move_of(input@), turn),
        final(board)@ == turn_cells(old(board)@, move_of(input@), turn),
{
    match parse_move(input) {
        Ok(mov) => make_move(board, mov, turn),
        Err(e) => Err(e),
    }
}

/// One turn of a game against the bot, on a board with an empty cell. The
/// human player (`true`) has typed `input`, and the turn goes as in
/// `pass_to_play`. The bot (`false`) reads no input: it makes the move that
/// `choose_move` picks.
pub fn with_bot(board: &mut Board, turn: bool, input: &str) -> (answer: Result<
    GameOutcome,
    MoveError,
>)
    requires
        !turn ==> !full(old(board)@),
    ensures
        answer == turn_answer(old(board)@, asked_with_bot(old(board)@, turn, input@), turn),
        final(board)@ == turn_cells(old(board)@, asked_with_bot(old(board)@, turn, input@), turn),
        !turn ==> answer is Ok,
{
    let mov = if turn {
        match parse_move(input) {
            Ok(mov) => mov,
            Err(e) => {
                return Err(e);
            },
        }
    } else {
        choose_move(board, turn)
    };
    make_move(board, mov, turn)
}

} // verus!
