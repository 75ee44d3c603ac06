//! Board coordinates and the labels that name them.

use vstd::prelude::*;
use vstd::string::*;
use crate::text::chars_of;
use crate::decimal::{
    all_digits, decimal_text, digits_value, is_digit, lemma_decimal_text_reads_back, push_decimal,
};

verus! {

/// The side that makes a move.
#[derive(Clone, Copy, Debug, PartialEq, Eq, Structural)]
pub enum Color {
    Black,
    White,
}

/// The other side.
pub open spec fn other_color(color: Color) -> Color {
    match color {
        Color::Black => Color::White,
        Color::White => Color::Black,
    }
}

/// The side that moves after `color`.
pub fn swap_color(color: &Color) -> (res: Color)
    ensures
        res == other_color(*color),
{
    match color {
        Color::Black => Color::White,
        Color::White => Color::Black,
    }
}

/// The number of lines of the board, each way.
pub const BOARD_SIZE: u8 = 19;

/// The letters that name the columns, from the left: the alphabet from `A`
/// to `T` without `I`.
pub const COLUMN_LETTERS: &'static str = "ABCDEFGHJKLMNOPQRST";

/// What a player does on their turn: a stone on the cell in the given
/// column and row, both counted from one, or a pass.
#[derive(Clone, Copy, Debug, PartialEq, Eq, Structural)]
pub enum Action {
    Move(u8, u8),
    Pass,
}

/// Why a coordinate could not be written, or a label not be read.
#[derive(Clone, Copy, Debug, PartialEq, Eq, Structural)]
pub enum CodecError {
    /// The column is zero or lies beyond the last letter.
    ColumnOutOfRange,
    /// The row is zero or lies beyond the board.
    RowOutOfRange,
    /// The label is empty, or its first character names no column.
    UnknownColumn,
    /// What follows the column letter is not the number of a row of the board.
    InvalidRow,
}

/// Whether the cell lies on the board.
pub open spec fn on_board(column: u8, row: u8) -> bool {
    1 <= column <= BOARD_SIZE && 1 <= row <= BOARD_SIZE
}

/// The letter of a column: `A` to `H` for the first eight, `J` to `T` for
/// the other eleven.
pub open spec fn column_letter(column: u8) -> char
    recommends
        1 <= column <= BOARD_SIZE,
{
    if column <= 8 {
        (64 + column) as char
    } else {
        (65 + column) as char
    }
}

/// The column that a letter names, if it names one.
pub open spec fn column_of(letter: char) -> Option<u8> {
    if 65 <= letter as int <= 72 {
        Some((letter as int - 64) as u8)
    } else if 74 <= letter as int <= 84 {
        Some((letter as int - 65) as u8)
    } else {
        None
    }
}

/// The label of a cell: the column's letter, then the row's number counted
/// from the far edge of the board, so that the first row is row 19.
pub open spec fn label_text(column: u8, row: u8) -> Seq<char>
    recommends
        on_board(column, row),
{
    seq![column_letter(column)] + decimal_text((BOARD_SIZE + 1 - row) as nat)
}

/// The number that a row's text writes: an optional plus sign, then one or
/// more digits.
pub open spec fn row_number(s: Seq<char>) -> Option<nat> {
    let digits = if s.len() > 0 && s[0] == '+' {
        s.skip(1)
    } else {
        s
    };
    if digits.len() > 0 && all_digits(digits) {
        Some(digits_value(digits))
    } else {
        None
    }
}

/// The cell that a label names, or why it names none.
pub open spec fn label_cell(s: Seq<char>) -> Result<(u8, u8), CodecError> {
    if s.len() == 0 || column_of(s[0]) is None {
        Err(CodecError::UnknownColumn)
    } else {
        match row_number(s.skip(1)) {
            Some(n) if 1 <= n <= BOARD_SIZE => Ok(
                (column_of(s[0]).unwrap(), (BOARD_SIZE + 1 - n) as u8),
            ),
            _ => Err(CodecError::InvalidRow),
        }
    }
}

impl Action {
    /// Whether the action is a pass or a stone on a cell of the board.
    pub open spec fn on_board(&self) -> bool {
        match *self {
            Action::Move(column, row) => on_board(column, row),
            Action::Pass => true,
        }
    }

    /// Tests `on_board`.
    pub fn is_on_board(&self) -> (res: bool)
        ensures
            res == self.on_board(),
    {
        match *self {
            Action::Move(column, row) => 1 <= column && column <= BOARD_SIZE && 1 <= row && row
                <= BOARD_SIZE,
            Action::Pass => true,
        }
    }
}

/// The text of an action: the label of its cell, or `PASS`.
pub open spec fn action_text(action: Action) -> Seq<char>
    recommends
        action.on_board(),
{
    match action {
        Action::Move(column, row) => label_text(column, row),
        Action::Pass => "PASS"@,
    }
}

/// The action that a text names: a pass for `PASS`, else the cell of the
/// label.
pub open spec fn text_action(s: Seq<char>) -> Result<Action, CodecError> {
    if s == "PASS"@ {
        Ok(Action::Pass)
    } else {
        match label_cell(s) {
            Ok((column, row)) => Ok(Action::Move(column, row)),
            Err(e) => Err(e),
        }
    }
}

/// The column letters are those of `COLUMN_LETTERS`, in its order.
pub proof fn lemma_column_letters()
    ensures
        COLUMN_LETTERS@.len() == BOARD_SIZE,
        forall|column: u8|
            1 <= column <= BOARD_SIZE ==> #[trigger] column_letter(column) == COLUMN_LETTERS@[
                column - 1],
{
    reveal_strlit("ABCDEFGHJKLMNOPQRST");
    assert forall|column: u8| 1 <= column <= BOARD_SIZE implies #[trigger] column_letter(column)
        == COLUMN_LETTERS@[column - 1] by {
        let s = COLUMN_LETTERS@;
        assert(s[0] == 'A' && s[1] == 'B' && s[2] == 'C' && s[3] == 'D' && s[4] == 'E' && s[5]
            == 'F' && s[6] == 'G' && s[7] == 'H' && s[8] == 'J' && s[9] == 'K' && s[10] == 'L'
            && s[11] == 'M' && s[12] == 'N' && s[13] == 'O' && s[14] == 'P' && s[15] == 'Q'
            && s[16] == 'R' && s[17] == 'S' && s[18] == 'T');
    }
}

/// The label of a cell, or why the cell has none.
pub open spec fn cell_label(column: u8, row: u8) -> Result<Seq<char>, CodecError> {
    if !(1 <= column <= BOARD_SIZE) {
        Err(CodecError::ColumnOutOfRange)
    } else if !(1 <= row <= BOARD_SIZE) {
        Err(CodecError::RowOutOfRange)
    } else {
        Ok(label_text(column, row))
    }
}

/// Writes the label of a cell of the board.
fn write_label(column: u8, row: u8) -> (res: String)
    requires
        on_board(column, row),
    ensures
        res@ == label_text(column, row),
{
    let letter = if column <= 8 {
        (64u8 + column) as char
    } else {
        (65u8 + column) as char
    };
    let mut label = String::new();
    label.push(letter);
    push_decimal(&mut label, (BOARD_SIZE + 1 - row) as u64);
    assert(label@ =~= label_text(column, row));
    label
}

/// Writes the label of a cell.
pub fn to_label(column: u8, row: u8) -> (res: Result<String, CodecError>)
    ensures
        match cell_label(column, row) {
            Ok(text) => res is Ok && res->Ok_0@ == text,
            Err(e) => res is Err && res->Err_0 == e,
        },
{
    if column < 1 || column > BOARD_SIZE {
        Err(CodecError::ColumnOutOfRange)
    } else if row < 1 || row > BOARD_SIZE {
        Err(CodecError::RowOutOfRange)
    } else {
        Ok(write_label(column, row))
    }
}

/// Reads the number of a row from the characters that follow place `from`.
/// The result is the number where it is at most 19, and 20 for every
/// greater one.
fn read_row(label: &Vec<char>, from: usize) -> (res: Option<u8>)
    requires
        from <= label@.len(),
    ensures
        match row_number(label@.skip(from as int)) {
            Some(n) => res == Some(if n <= BOARD_SIZE { n as u8 } else { 20u8 }),
            None => res is None,
        },
{
    let len = label.len();
    let ghost text = label@.skip(from as int);
    let mut start = from;
    if start < len && label[start] == '+' {
        start = start + 1;
        assert(text.skip(1) =~= label@.skip(start as int));
    }
    let ghost digits = label@.skip(start as int);
    assert(row_number(text) == if digits.len() > 0 && all_digits(digits) {
        Some(digits_value(digits))
    } else {
        None
    });
    if start == len {
        return None;
    }
    let mut i = start;
    let mut value: u8 = 0;
    while i < len
        invariant
            start <= i <= len,
            len == label@.len(),
            digits == label@.skip(start as int),
            row_number(label@.skip(from as int)) == if digits.len() > 0 && all_digits(digits) {
                Some(digits_value(digits))
            } else {
                None
            },
            all_digits(label@.subrange(start as int, i as int)),
            value <= 20,
            value == if digits_value(label@.subrange(start as int, i as int)) <= BOARD_SIZE {
                digits_value(label@.subrange(start as int, i as int))
            } else {
                20
            },
        decreases len - i,
    {
        let c = label[i];
        if !(c >= '0' && c <= '9') {
            assert(digits[i - start] == c);
            return None;
        }
        let d = (c as u8) - 48u8;
        proof {
            let next = label@.subrange(start as int, i as int + 1);
            assert(next.drop_last() =~= label@.subrange(start as int, i as int));
            assert(next.last() == c);
        }
        value = if value >= 2 {
            20
        } else {
            value * 10 + d
        };
        if value > BOARD_SIZE {
            value = 20;
        }
        i = i + 1;
    }
    assert(label@.subrange(start as int, len as int) =~= digits);
    Some(value)
}

/// Reads the label of a cell.
pub fn from_label(label: &str) -> (res: Result<(u8, u8), CodecError>)
    ensures
        res == label_cell(label@),
{
    let chars = chars_of(label);
    if chars.len() == 0 {
        return Err(CodecError::UnknownColumn);
    }
    let letter = chars[0];
    let column = if letter >= 'A' && letter <= 'H' {
        (letter as u8) - 64u8
    } else if letter >= 'J' && letter <= 'T' {
        (letter as u8) - 65u8
    } else {
        return Err(CodecError::UnknownColumn);
    };
    match read_row(&chars, 1) {
        Some(n) => {
            if 1 <= n && n <= BOARD_SIZE {
                Ok((column, BOARD_SIZE + 1 - n))
            } else {
                Err(CodecError::InvalidRow)
            }
        },
        None => Err(CodecError::InvalidRow),
    }
}

/// Writes an action as the engine names it.
pub fn action_to_string(a_move: &Action) -> (res: String)
    requires
        a_move.on_board(),
    ensures
        res@ == action_text(*a_move),
{
    match *a_move {
        Action::Move(x, y) => write_label(x, y),
        Action::Pass => String::from_str("PASS"),
    }
}

/// Whether the text is `PASS`.
fn is_pass(text: &str) -> (res: bool)
    ensures
        res == (text@ == "PASS"@),
{
    proof {
        reveal_strlit("PASS");
    }
    if text.unicode_len() != 4 {
        return false;
    }
    let same = text.get_char(0) == 'P' && text.get_char(1) == 'A' && text.get_char(2) == 'S'
        && text.get_char(3) == 'S';
    proof {
        if same {
            assert(text@ =~= "PASS"@);
        }
    }
    same
}

/// Reads an action as the engine names it.
pub fn string_to_action(move_string: &str) -> (res: Result<Action, CodecError>)
    ensures
        res == text_action(move_string@),
{
    if is_pass(move_string) {
        Ok(Action::Pass)
    } else {
        match from_label(move_string) {
            Ok((x, y)) => Ok(Action::Move(x, y)),
            Err(e) => Err(e),
        }
    }
}

/// A label that was written for a cell of the board reads back as that
/// cell.
pub proof fn lemma_label_round_trip(column: u8, row: u8)
    requires
        on_board(column, row),
    ensures
        cell_label(column, row) == Ok::<Seq<char>, CodecError>(label_text(column, row)),
        label_cell(label_text(column, row)) == Ok::<(u8, u8), CodecError>((column, row)),
        label_text(column, row) != "PASS"@,
{
    let n = (BOARD_SIZE + 1 - row) as nat;
    let s = label_text(column, row);
    lemma_decimal_text_reads_back(n);
    assert(s[0] == column_letter(column));
    assert(s.skip(1) =~= decimal_text(n));
    assert(is_digit(decimal_text(n)[0]));
    assert(s[1] == decimal_text(n)[0]);
    reveal_strlit("PASS");
}

/// The text of an action on the board reads back as that action.
pub proof fn lemma_action_round_trip(action: Action)
    requires
        action.on_board(),
    ensures
        text_action(action_text(action)) == Ok::<Action, CodecError>(action),
{
    match action {
        Action::Move(column, row) => {
            lemma_label_round_trip(column, row);
        },
        Action::Pass => {},
    }
}

} // verus!
