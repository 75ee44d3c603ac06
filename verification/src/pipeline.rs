//! From a record and the engine's output to the annotated record.

use vstd::prelude::*;
use vstd::string::*;
use crate::decode::{decoded_text, json};
use crate::json::DecodeError;
use crate::laws::lemma_merged_on_board;
use crate::merge::{annotate, merge_outcome, MergeError};
use crate::query::{moves_on_board, query_text, Game};
use crate::record::{read_moves, record_moves, record_text, write_record, RecordError};
use crate::response::response_models;
use crate::text::chars_of;
use crate::winrate::Winrate;

verus! {

/// The greatest gap between two win-rates that is not yet a swing, where
/// no other is asked for: a tenth, in units of a win-rate.
pub const SWING_THRESHOLD: u64 = 100_000_000_000_000_000;

/// Why a record could not be annotated.
#[derive(Clone, Copy, Debug, PartialEq, Eq, Structural)]
pub enum PipelineError {
    /// The record could not be read.
    Record(RecordError),
    /// A move of the record is a stone beyond the board.
    OffBoard,
    /// The engine's output is no list of responses.
    Decode(DecodeError),
    /// The responses do not fit the moves.
    Merge(MergeError),
}

/// Whether a character is white space, as Unicode defines it.
pub open spec fn is_white_space(c: char) -> bool {
    let code = c as int;
    9 <= code <= 13 || code == 0x20 || code == 0x85 || code == 0xA0 || code == 0x1680 || 0x2000
        <= code <= 0x200A || code == 0x2028 || code == 0x2029 || code == 0x202F || code == 0x205F
        || code == 0x3000
}

/// Where the white space that starts at `from` ends.
pub open spec fn leading_space(s: Seq<char>, from: int) -> int
    decreases s.len() - from,
{
    if 0 <= from < s.len() && is_white_space(s[from]) {
        leading_space(s, from + 1)
    } else {
        from
    }
}

/// Where the white space that ends at `to` starts.
pub open spec fn trailing_space(s: Seq<char>, to: int) -> int
    decreases to,
{
    if 0 < to <= s.len() && is_white_space(s[to - 1]) {
        trailing_space(s, to - 1)
    } else {
        to
    }
}

/// The text without the white space at its start and at its end.
pub open spec fn trimmed(s: Seq<char>) -> Seq<char> {
    let from = leading_space(s, 0);
    let to = trailing_space(s, s.len() as int);
    if from < to {
        s.subrange(from, to)
    } else {
        Seq::empty()
    }
}

/// The lines of the engine's output as one JSON list: the output without
/// the white space around it, a comma in place of each line break, and
/// square brackets around the whole.
pub open spec fn listed_lines(output: Seq<char>) -> Seq<char> {
    let body = trimmed(output);
    seq!['['] + Seq::new(
        body.len(),
        |i: int|
            if body[i] == '\n' {
                ','
            } else {
                body[i]
            },
    ) + seq![']']
}

/// Tests `is_white_space`.
fn white_space(c: char) -> (res: bool)
    ensures
        res == is_white_space(c),
{
    let code = c as u32;
    (9 <= code && code <= 13) || code == 0x20 || code == 0x85 || code == 0xA0 || code == 0x1680
        || (0x2000 <= code && code <= 0x200A) || code == 0x2028 || code == 0x2029 || code
        == 0x202F || code == 0x205F || code == 0x3000
}

/// Turns the engine's output, one response on each line, into one JSON
/// list of the responses.
pub fn wrap_lines(output: &str) -> (res: String)
    ensures
        res@ == listed_lines(output@),
{
    let chars = chars_of(output);
    let n = chars.len();
    let mut from: usize = 0;
    while from < n && white_space(chars[from])
        invariant
            from <= n,
            n == chars@.len(),
            leading_space(chars@, 0) == leading_space(chars@, from as int),
        decreases n - from,
    {
        from = from + 1;
    }
    let mut to: usize = n;
    while to > 0 && white_space(chars[to - 1])
        invariant
            to <= n,
            n == chars@.len(),
            trailing_space(chars@, n as int) == trailing_space(chars@, to as int),
        decreases to,
    {
        to = to - 1;
    }
    let ghost body = trimmed(chars@);
    assert(from == leading_space(chars@, 0));
    assert(to == trailing_space(chars@, n as int));
    let mut list = String::new();
    list.push('[');
    assert(list@ =~= seq!['[']);
    assert(list@ =~= seq!['['] + Seq::new(
        0nat,
        |k: int|
            if body[k] == '\n' {
                ','
            } else {
                body[k]
            },
    ));
    let mut i: usize = from;
    while i < to
        invariant
            from <= i,
            i <= to || to <= from,
            to <= n,
            n == chars@.len(),
            body == trimmed(chars@),
            chars@ == output@,
            from == leading_space(chars@, 0),
            to == trailing_space(chars@, n as int),
            from >= to ==> list@ == seq!['['],
            from < to ==> list@ == seq!['['] + Seq::new(
                (i - from) as nat,
                |k: int|
                    if body[k] == '\n' {
                        ','
                    } else {
                        body[k]
                    },
            ),
        decreases to - i,
    {
        let c = chars[i];
        let ghost before = list@;
        if c == '\n' {
            list.push(',');
        } else {
            list.push(c);
        }
        proof {
            assert(body[i - from] == c);
            assert(list@ =~= seq!['['] + Seq::new(
                (i + 1 - from) as nat,
                |k: int|
                    if body[k] == '\n' {
                        ','
                    } else {
                        body[k]
                    },
            ));
        }
        i = i + 1;
    }
    list.push(']');
    assert(list@ =~= listed_lines(output@));
    list
}

/// The request for the game that a text records, or why there is none.
pub open spec fn record_query(id: Seq<char>, record: Seq<char>) -> Result<
    Seq<char>,
    PipelineError,
> {
    match record_moves(record) {
        Err(e) => Err(PipelineError::Record(e)),
        Ok(moves) => if moves_on_board(moves) {
            Ok(query_text(id, moves))
        } else {
            Err(PipelineError::OffBoard)
        },
    }
}

/// Writes the request that asks the engine to analyse the game of a
/// record.
pub fn build_query(id: &str, record: &str) -> (res: Result<String, PipelineError>)
    ensures
        match record_query(id@, record@) {
            Ok(query) => res is Ok && res->Ok_0@ == query,
            Err(e) => res == Err::<String, PipelineError>(e),
        },
{
    let moves = match read_moves(record) {
        Ok(moves) => moves,
        Err(e) => {
            return Err(PipelineError::Record(e));
        },
    };
    let game = Game { id: String::from_str(id), moves };
    if !game.is_valid() {
        return Err(PipelineError::OffBoard);
    }
    Ok(game.to_query())
}

/// The annotated record of the game that a text records, or the first of
/// the reasons that stand against one.
pub open spec fn annotated_text(record: Seq<char>, responses: Seq<char>, threshold: Winrate)
    -> Result<Seq<char>, PipelineError> {
    match record_moves(record) {
        Err(e) => Err(PipelineError::Record(e)),
        Ok(moves) => if !moves_on_board(moves) {
            Err(PipelineError::OffBoard)
        } else {
            match decoded_text(responses) {
                Err(e) => Err(PipelineError::Decode(e)),
                Ok(rs) => match merge_outcome(moves, rs, threshold) {
                    Err(e) => Err(PipelineError::Merge(e)),
                    Ok(tree) => Ok(record_text(tree)),
                },
            }
        },
    }
}

/// Annotates the game of a record from the JSON list of the engine's
/// responses, and writes the annotated record.
pub fn annotate_record(record: &str, responses: &str, threshold: Winrate) -> (res: Result<
    String,
    PipelineError,
>)
    ensures
        match annotated_text(record@, responses@, threshold) {
            Ok(text) => res is Ok && res->Ok_0@ == text,
            Err(e) => res == Err::<String, PipelineError>(e),
        },
{
    let moves = match read_moves(record) {
        Ok(moves) => moves,
        Err(e) => {
            return Err(PipelineError::Record(e));
        },
    };
    let game = Game { id: String::new(), moves };
    if !game.is_valid() {
        return Err(PipelineError::OffBoard);
    }
    let decoded = match json(responses) {
        Ok(decoded) => decoded,
        Err(e) => {
            return Err(PipelineError::Decode(e));
        },
    };
    let tree = match annotate(&game.moves, &decoded, threshold) {
        Ok(tree) => tree,
        Err(e) => {
            return Err(PipelineError::Merge(e));
        },
    };
    proof {
        lemma_merged_on_board(game.moves@, response_models(decoded@), threshold);
    }
    Ok(write_record(&tree))
}

} // verus!
