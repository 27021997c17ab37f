//! How the board and the players are shown on a terminal.

use colored::Colorize;
use vstd::prelude::*;
use vstd::string::StringExecFns;
use crate::board::{Board, Square};
use crate::geomath::{Point, SIZE};

verus! {

/// Symbol of the player who begins, who is `true` wherever a player is a
/// `bool`: the human player in a game against the bot.
pub const PLAYER: char = 'X';

/// Symbol of the other side, who is `false`: the bot, or the second of two
/// human players.
pub const BOT: char = 'O';

/// The symbol under which a player is shown.
pub fn p_name(turn: bool) -> (symbol: char)
    ensures
        symbol == if turn { PLAYER } else { BOT },
{
    if turn { PLAYER } else { BOT }
}

/// `String::push`, of the standard library, appends `c` to the text.
pub assume_specification[ String::push ](text: &mut String, c: char)
    ensures
        final(text)@ == old(text)@.push(c),
;

/// The escape character, with which a terminal's control sequences begin.
pub const ESCAPE: char = '\x1b';

/// Digit that names the bright blue foreground among the bright colours.
pub const BLUE: char = '4';

/// Digit that names the bright red foreground among the bright colours.
pub const RED: char = '1';

/// The control sequence that switches to the bright foreground colour named
/// by the digit `colour`.
pub open spec fn colour_on(colour: char) -> Seq<char> {
    seq![ESCAPE, '[', '9', colour, 'm']
}

/// The control sequence that switches every colour and style off.
pub open spec fn colour_off() -> Seq<char> {
    seq![ESCAPE, '[', '0', 'm']
}

/// Whether `text` shows `symbol` in the bright colour `colour` as the crate
/// `colored` writes it. Where colours are switched on, `text` is the symbol
/// between the two control sequences; where they are switched off, it is the
/// symbol alone. Somebody may switch them off while the text is written: the
/// first control sequence is missing then.
pub open spec fn shows(text: Seq<char>, symbol: char, colour: char) -> bool {
    ||| text == seq![symbol]
    ||| text == colour_on(colour) + seq![symbol] + colour_off()
    ||| text == seq![symbol] + colour_off()
}

/// Has `colored::Colorize::bright_blue` colour the text that `symbol` alone
/// makes up, and formats the result with its `Display`. The contract claims
/// that the text shows the symbol in bright blue, in one of the forms that
/// `shows` lists; which one depends on the terminal, on the environment and
/// on `colored::control`.
#[verifier::external_body]
fn bright_blue(symbol: char) -> (text: String)
    ensures
        shows(text@, symbol, BLUE),
{
    symbol.to_string().as_str().bright_blue().to_string()
}

/// Has `colored::Colorize::bright_red` colour the text that `symbol` alone
/// makes up, and formats the result with its `Display`. The contract claims
/// that the text shows the symbol in bright red, in one of the forms that
/// `shows` lists; which one depends on the terminal, on the environment and
/// on `colored::control`.
#[verifier::external_body]
fn bright_red(symbol: char) -> (text: String)
    ensures
        shows(text@, symbol, RED),
{
    symbol.to_string().as_str().bright_red().to_string()
}

/// The symbol of a player in that player's colour: bright blue for the
/// player who begins, bright red for the other side.
pub fn p_colored(turn: bool) -> (text: String)
    ensures
        shows(text@, if turn { PLAYER } else { BOT }, if turn { BLUE } else { RED }),
{
    let symbol = p_name(turn);
    if turn {
        bright_blue(symbol)
    } else {
        bright_red(symbol)
    }
}

/// The decimal digit for `n`, which is less than ten.
pub open spec fn digit(n: int) -> char {
    ('0' as int + n) as char
}

/// What is written into the cell at offset `i`: the text of the player who
/// holds it, or, where it is empty, the number that a player types to take
/// it.
pub open spec fn cell_text(cells: Seq<Square>, i: int, player: Seq<char>, bot: Seq<char>) -> Seq<
    char,
> {
    match cells[i] {
        Some(true) => player,
        Some(false) => bot,
        None => seq![digit(i + 1)],
    }
}

/// The texts `parts` one after the other, with `separator` between each two.
pub open spec fn joined(parts: Seq<Seq<char>>, separator: Seq<char>) -> Seq<char>
    decreases parts.len(),
{
    if parts.len() == 0 {
        Seq::empty()
    } else if parts.len() == 1 {
        parts[0]
    } else {
        joined(parts.drop_last(), separator) + separator + parts.last()
    }
}

/// The line for row `y`: its cells from the left, with a bar between each
/// two.
pub open spec fn row_text(cells: Seq<Square>, y: int, player: Seq<char>, bot: Seq<char>) -> Seq<
    char,
> {
    joined(
        Seq::new(SIZE as nat, |x: int| cell_text(cells, y * SIZE + x, player, bot)),
        seq![' ', '|', ' '],
    )
}

/// The picture of the grid: the lines of its rows from the top, with a line
/// break between each two.
pub open spec fn board_text(cells: Seq<Square>, player: Seq<char>, bot: Seq<char>) -> Seq<char> {
    joined(Seq::new(SIZE as nat, |y: int| row_text(cells, y, player, bot)), seq!['\n'])
}

impl Board {
    /// The line for row `y`, with `player` and `bot` as the texts of the two
    /// players.
    pub fn render_row(&self, y: usize, player: &str, bot: &str) -> (text: String)
        requires
            y < SIZE,
        ensures
            text@ == row_text(self@, y as int, player@, bot@),
    {
        let ghost parts = Seq::new(
            SIZE as nat,
            |x: int| cell_text(self@, y * SIZE + x, player@, bot@),
        );
        let mut text = String::new();
        let mut x: usize = 0;
        while x < SIZE
            invariant
                y < SIZE,
                x <= SIZE,
                parts == Seq::new(
                    SIZE as nat,
                    |x: int| cell_text(self@, y * SIZE + x, player@, bot@),
                ),
                text@ == joined(parts.take(x as int), seq![' ', '|', ' ']),
            decreases SIZE - x,
        {
            let ghost before = text@;
            if x != 0 {
                text.push(' ');
                text.push('|');
                text.push(' ');
                assert(text@ == before + seq![' ', '|', ' ']);
            }
            let coord = Point::new(x, y);
            match self.get(coord) {
                Some(true) => text.append(player),
                Some(false) => text.append(bot),
                None => {
                    let n = coord.linear_index();
                    text.push(('0' as u8 + n as u8) as char);
                    assert(text@ == if x != 0 {
                        before + seq![' ', '|', ' ']
                    } else {
                        before
                    } + seq![digit(n as int)]);
                },
            }
            proof {
                let upto = parts.take(x + 1);
                assert(upto.drop_last() == parts.take(x as int));
                assert(upto.last() == cell_text(self@, y * SIZE + x, player@, bot@));
            }
            x += 1;
        }
        proof {
            assert(parts.take(SIZE as int) == parts);
        }
        text
    }

    /// The picture of the board, with `player` and `bot` as the texts of the
    /// two players.
    pub fn render_with(&self, player: &str, bot: &str) -> (text: String)
        ensures
            text@ == board_text(self@, player@, bot@),
    {
        let ghost parts = Seq::new(SIZE as nat, |y: int| row_text(self@, y, player@, bot@));
        let mut text = String::new();
        let mut y: usize = 0;
        while y < SIZE
            invariant
                y <= SIZE,
                parts == Seq::new(SIZE as nat, |y: int| row_text(self@, y, player@, bot@)),
                text@ == joined(parts.take(y as int), seq!['\n']),
            decreases SIZE - y,
        {
            let ghost before = text@;
            if y != 0 {
                text.push('\n');
                assert(text@ == before + seq!['\n']);
            }
            let row = self.render_row(y, player, bot);
            text.append(row.as_str());
            proof {
                let upto = parts.take(y + 1);
                assert(upto.drop_last() == parts.take(y as int));
                assert(upto.last() == row@);
            }
            y += 1;
        }
        proof {
            assert(parts.take(SIZE as int) == parts);
        }
        text
    }

    /// The picture of the board, each player's symbol in that player's
    /// colour.
    pub fn render(&self) -> (text: String)
        ensures
            exists|player: Seq<char>, bot: Seq<char>|
                shows(player, PLAYER, BLUE) && shows(bot, BOT, RED) && text@ == #[trigger] board_text(
                    self@,
                    player,
                    bot,
                ),
    {
        let player = p_colored(true);
        let bot = p_colored(false);
        self.render_with(player.as_str(), bot.as_str())
    }
}

} // verus!
