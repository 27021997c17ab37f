//! What the players type: the number of a cell, and the answer to the
//! question whether the bot shall play.

use vstd::prelude::*;
use vstd::slice::slice_subrange;
use vstd::std_specs::iter::IteratorSpec;
use crate::error::MoveError;
use crate::geomath::{from_linear, Point};

verus! {

/// Whether `c` is white space, as `char::is_whitespace` of the standard
/// library tells: whether Unicode gives it the property `White_Space`.
pub uninterp spec fn white_space(c: char) -> bool;

/// `char::is_whitespace`, of the standard library, tells whether `c` has the
/// Unicode property `White_Space`.
pub assume_specification[ char::is_whitespace ](c: char) -> (white: bool)
    ensures
        white == white_space(c),
;

/// The characters of `text`, one by one.
pub fn chars_of(text: &str) -> (chars: Vec<char>)
    ensures
        chars@ == text@,
{
    let mut chars: Vec<char> = Vec::new();
    let mut rest = text.chars();
    loop
        invariant
            chars@ + rest.remaining() == text@,
            rest.decrease() is Some,
        ensures
            chars@ == text@,
        decreases rest.decrease()->0,
    {
        match rest.next() {
            Some(c) => {
                chars.push(c);
            },
            None => {
                break ;
            },
        }
    }
    chars
}

/// `text` without the white space at its start.
pub open spec fn trim_start(text: Seq<char>) -> Seq<char>
    decreases text.len(),
{
    if text.len() > 0 && white_space(text.first()) {
        trim_start(text.drop_first())
    } else {
        text
    }
}

/// `text` without the white space at its end.
pub open spec fn trim_end(text: Seq<char>) -> Seq<char>
    decreases text.len(),
{
    if text.len() > 0 && white_space(text.last()) {
        trim_end(text.drop_last())
    } else {
        text
    }
}

/// `text` without the white space at its start and at its end.
pub open spec fn trimmed(text: Seq<char>) -> Seq<char> {
    trim_end(trim_start(text))
}

/// Whether `c` is one of the ten decimal digits.
pub open spec fn is_digit(c: char) -> bool {
    '0' <= c && c <= '9'
}

/// The number that the decimal digits `digits` write.
pub open spec fn decimal(digits: Seq<char>) -> int
    decreases digits.len(),
{
    if digits.len() == 0 {
        0
    } else {
        decimal(digits.drop_last()) * 10 + (digits.last() as int - '0' as int)
    }
}

/// The digits of a number written as `text`: all of `text` but a plus sign
/// in front.
pub open spec fn digits_of(text: Seq<char>) -> Seq<char> {
    if text.len() > 0 && text.first() == '+' {
        text.drop_first()
    } else {
        text
    }
}

/// The number that `text` writes, if it writes one: one decimal digit or
/// more, with or without a plus sign in front, and nothing else.
pub open spec fn number(text: Seq<char>) -> Option<int> {
    let digits = digits_of(text);
    if digits.len() > 0 && forall|i: int| 0 <= i < digits.len() ==> is_digit(#[trigger] digits[i]) {
        Some(decimal(digits))
    } else {
        None
    }
}

/// The cell that `text` names: the one whose number `text` writes. A text
/// that writes no number is a `ParseFailure`, a number that names no cell an
/// `InvalidIndex`.
pub open spec fn cell_named(text: Seq<char>) -> Result<Point, MoveError> {
    match number(text) {
        Some(index) => from_linear(index),
        None => Err(MoveError::ParseFailure),
    }
}

/// The cell that a line of input asks for: the one that the line names once
/// the white space around the number is left out.
pub open spec fn move_of(line: Seq<char>) -> Result<Point, MoveError> {
    cell_named(trimmed(line))
}

/// Whether `text` is the letter `y`, small or capital.
pub open spec fn says_yes(text: Seq<char>) -> bool {
    text.len() == 1 && (text[0] == 'y' || text[0] == 'Y')
}

/// `trim_start` cuts where the first character stands that is no white
/// space.
pub proof fn lemma_trim_start(text: Seq<char>, from: int)
    requires
        0 <= from <= text.len(),
        forall|i: int| 0 <= i < from ==> white_space(#[trigger] text[i]),
        from < text.len() ==> !white_space(text[from]),
    ensures
        trim_start(text) == text.subrange(from, text.len() as int),
    decreases from,
{
    if from == 0 {
        assert(text.subrange(0, text.len() as int) == text);
    } else {
        let rest = text.drop_first();
        assert(white_space(text[0]));
        assert forall|i: int| 0 <= i < from - 1 implies white_space(#[trigger] rest[i]) by {
            assert(rest[i] == text[i + 1]);
        }
        lemma_trim_start(rest, from - 1);
        assert(rest.subrange(from - 1, rest.len() as int) == text.subrange(
            from,
            text.len() as int,
        ));
    }
}

/// `trim_end` cuts behind the last character that is no white space.
pub proof fn lemma_trim_end(text: Seq<char>, to: int)
    requires
        0 <= to <= text.len(),
        forall|i: int| to <= i < text.len() ==> white_space(#[trigger] text[i]),
        0 < to ==> !white_space(text[to - 1]),
    ensures
        trim_end(text) == text.subrange(0, to),
    decreases text.len() - to,
{
    if to == text.len() {
        assert(text.subrange(0, to) == text);
    } else {
        let rest = text.drop_last();
        assert(white_space(text[text.len() - 1]));
        lemma_trim_end(rest, to);
        assert(rest.subrange(0, to) == text.subrange(0, to));
    }
}

/// `text` without the white space at its start and at its end.
pub fn trim(text: &[char]) -> (rest: &[char])
    ensures
        rest@ == trimmed(text@),
{
    let mut from: usize = 0;
    while from < text.len() && text[from].is_whitespace()
        invariant
            from <= text.len(),
            forall|i: int| 0 <= i < from ==> white_space(#[trigger] text[i]),
        decreases text.len() - from,
    {
        from += 1;
    }
    let mut to: usize = text.len();
    while to > from && text[to - 1].is_whitespace()
        invariant
            from <= to <= text.len(),
            forall|i: int| to <= i < text.len() ==> white_space(#[trigger] text[i]),
        decreases to,
    {
        to -= 1;
    }
    proof {
        let tail = text@.subrange(from as int, text.len() as int);
        lemma_trim_start(text@, from as int);
        assert forall|i: int| to - from <= i < tail.len() implies white_space(
            #[trigger] tail[i],
        ) by {
            assert(tail[i] == text[i + from]);
        }
        lemma_trim_end(tail, to - from);
        assert(tail.subrange(0, to - from) == text@.subrange(from as int, to as int));
    }
    slice_subrange(text, from, to)
}

/// Reads the number of a cell.
pub fn parse_cell(text: &[char]) -> (cell: Result<Point, MoveError>)
    ensures
        cell == cell_named(text@),
{
    let mut i: usize = 0;
    if i < text.len() && text[i] == '+' {
        i += 1;
    }
    let first: usize = i;
    let ghost digits = text@.subrange(first as int, text.len() as int);
    assert(digits == digits_of(text@));
    if i == text.len() {
        return Err(MoveError::ParseFailure);
    }
    // The number read so far, or ten where it is greater: no cell has a
    // number of two digits.
    let mut value: usize = 0;
    while i < text.len()
        invariant
            first <= i <= text.len(),
            digits == text@.subrange(first as int, text.len() as int),
            digits == digits_of(text@),
            forall|k: int| 0 <= k < i - first ==> is_digit(#[trigger] digits[k]),
            value <= 10,
            value == if decimal(digits.take(i - first)) < 10 {
                decimal(digits.take(i - first))
            } else {
                10
            },
        decreases text.len() - i,
    {
        let c = text[i];
        if !(c >= '0' && c <= '9') {
            assert(!is_digit(digits[i - first]));
            return Err(MoveError::ParseFailure);
        }
        let d: usize = (c as u8 - '0' as u8) as usize;
        proof {
            let upto = digits.take(i + 1 - first);
            assert(upto.drop_last() == digits.take(i - first));
            assert(upto.last() == c);
        }
        value = if value * 10 + d > 10 {
            10
        } else {
            value * 10 + d
        };
        i += 1;
    }
    assert(digits.take(text.len() - first) == digits);
    Point::from_linear_index(value)
}

/// Reads the move that a player has typed.
pub fn parse_move(line: &str) -> (mov: Result<Point, MoveError>)
    ensures
        mov == move_of(line@),
{
    let chars = chars_of(line);
    parse_cell(trim(chars.as_slice()))
}

/// Whether `text` is the letter `y`, small or capital.
pub fn is_yes(text: &[char]) -> (yes: bool)
    ensures
        yes == says_yes(text@),
{
    text.len() == 1 && (text[0] == 'y' || text[0] == 'Y')
}

/// Whether the answer to the question, if the bot shall play, is a yes: the
/// letter `y`, with or without white space around it.
pub fn wants_bot(answer: &str) -> (yes: bool)
    ensures
        yes == says_yes(trimmed(answer@)),
{
    let chars = chars_of(answer);
    is_yes(trim(chars.as_slice()))
}

} // verus!
