//! A game from its first move to its last: whose turn it is, who moves for
//! whom, and when it is over.

use vstd::prelude::*;
use crate::board::{full, Board, Square};
use crate::error::MoveError;
use crate::game::{
    asked_with_bot, pass_to_play, turn_answer, turn_cells, with_bot, GameOutcome,
};
use crate::geomath::{Point, SIZE};
use crate::input::move_of;

verus! {

/// What a session is made of.
pub struct SessionView {
    /// The cells of the board, row by row.
    pub cells: Seq<Square>,
    /// Who moves next: the player who began (`true`), or the other side.
    pub turn: bool,
    /// Whether the bot moves for the other side.
    pub bot: bool,
    /// How the game stands.
    pub outcome: GameOutcome,
}

/// A game in progress or at its end. While it goes on, the board has an
/// empty cell.
pub struct Session {
    board: Board,
    turn: bool,
    bot: bool,
    outcome: GameOutcome,
}

impl View for Session {
    type V = SessionView;

    closed spec fn view(&self) -> SessionView {
        SessionView { cells: self.board@, turn: self.turn, bot: self.bot, outcome: self.outcome }
    }
}

/// Whether the next move is typed by a player: the game goes on, and it is
/// not the bot's turn.
pub open spec fn awaits_input(state: SessionView) -> bool {
    state.outcome is Ongoing && (!state.bot || state.turn)
}

/// The cell that is asked for in the next step: the one that `input` names
/// where a player types the move, the bot's choice where the bot moves.
pub open spec fn asked(state: SessionView, input: Seq<char>) -> Result<Point, MoveError> {
    if state.bot {
        asked_with_bot(state.cells, state.turn, input)
    } else {
        move_of(input)
    }
}

/// What the next step of a game that goes on answers.
pub open spec fn step_answer(state: SessionView, input: Seq<char>) -> Result<
    GameOutcome,
    MoveError,
> {
    turn_answer(state.cells, asked(state, input), state.turn)
}

/// The session after the next step of a game that goes on. A move that is
/// turned down changes nothing. After any other move the cell is marked;
/// then the turn passes to the other side, or the game is over.
pub open spec fn step_state(state: SessionView, input: Seq<char>) -> SessionView {
    match step_answer(state, input) {
        Ok(outcome) => SessionView {
            cells: turn_cells(state.cells, asked(state, input), state.turn),
            turn: if outcome is Ongoing {
                !state.turn
            } else {
                state.turn
            },
            bot: state.bot,
            outcome,
        },
        Err(_) => state,
    }
}

impl Session {
    #[verifier::type_invariant]
    spec fn has_room(self) -> bool {
        self.outcome is Ongoing ==> !full(self.board@)
    }

    /// A new game on an empty board, against the bot or between two players.
    /// The player `true` begins; the bot, where it plays, is `false`.
    pub fn new(bot: bool) -> (session: Session)
        ensures
            session@.cells == Seq::new((SIZE * SIZE) as nat, |i: int| None::<bool>),
            session@.turn,
            session@.bot == bot,
            session@.outcome is Ongoing,
    {
        let board = Board::default();
        assert(board@[0] is None);
        Session { board, turn: true, bot, outcome: GameOutcome::Ongoing }
    }

    /// The board as it stands.
    pub fn board(&self) -> (board: &Board)
        ensures
            board@ == self@.cells,
    {
        &self.board
    }

    /// Who moves next.
    pub fn turn(&self) -> (turn: bool)
        ensures
            turn == self@.turn,
    {
        self.turn
    }

    /// Whether the bot plays.
    pub fn against_bot(&self) -> (bot: bool)
        ensures
            bot == self@.bot,
    {
        self.bot
    }

    /// How the game stands. A game that goes on has an empty cell left.
    pub fn outcome(&self) -> (outcome: GameOutcome)
        ensures
            outcome == self@.outcome,
            outcome is Ongoing ==> !full(self@.cells),
    {
        proof {
            use_type_invariant(self);
        }
        self.outcome
    }

    /// Whether the next move has to be typed.
    pub fn awaits_input(&self) -> (typed: bool)
        ensures
            typed == awaits_input(self@),
    {
        match self.outcome {
            GameOutcome::Ongoing => !self.bot || self.turn,
            _ => false,
        }
    }

    /// The next step of a game that goes on: the move that `input` names,
    /// or, where it is the bot's turn, the bot's move, for which `input` is
    /// not read.
    pub fn advance(&mut self, input: &str) -> (answer: Result<GameOutcome, MoveError>)
        requires
            old(self)@.outcome is Ongoing,
        ensures
            answer == step_answer(old(self)@, input@),
            final(self)@ == step_state(old(self)@, input@),
    {
        proof {
            use_type_invariant(&*self);
        }
        let mut board = self.board;
        let answer = if self.bot {
            with_bot(&mut board, self.turn, input)
        } else {
            pass_to_play(&mut board, self.turn, input)
        };
        match answer {
            Ok(GameOutcome::Ongoing) => {
                *self = Session {
                    board,
                    turn: !self.turn,
                    bot: self.bot,
                    outcome: GameOutcome::Ongoing,
                };
            },
            Ok(outcome) => {
                *self = Session { board, turn: self.turn, bot: self.bot, outcome };
            },
            Err(_) => {},
        }
        answer
    }
}

} // verus!
