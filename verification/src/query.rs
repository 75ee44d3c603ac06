//! The request that asks the engine to analyse a game.

use vstd::prelude::*;
use vstd::string::*;
use crate::coord::{action_text, action_to_string, Action, Color};
use crate::decimal::{decimal_string, decimal_text};
use crate::text::{join, joined, texts};

verus! {

/// A game to be analysed: a name for it, and its moves in order.
#[derive(Debug, PartialEq, Eq)]
pub struct Game {
    pub id: String,
    pub moves: Vec<(Color, Action)>,
}

/// Whether every move is a pass or a stone on the board.
pub open spec fn moves_on_board(moves: Seq<(Color, Action)>) -> bool {
    forall|i: int| 0 <= i < moves.len() ==> (#[trigger] moves[i]).1.on_board()
}

/// The engine's name for a side.
pub open spec fn color_text(color: Color) -> Seq<char> {
    match color {
        Color::Black => "\"B\""@,
        Color::White => "\"W\""@,
    }
}

/// A move as the request lists it: the side and the label, as a pair.
pub open spec fn move_text(turn: (Color, Action)) -> Seq<char> {
    "["@ + color_text(turn.0) + ",\""@ + action_text(turn.1) + "\"]"@
}

/// Each move as the request lists it.
pub open spec fn move_texts(moves: Seq<(Color, Action)>) -> Seq<Seq<char>> {
    Seq::new(moves.len(), |i: int| move_text(moves[i]))
}

/// The numbers of the first `n` turns, each in base ten.
pub open spec fn turn_texts(n: nat) -> Seq<Seq<char>> {
    Seq::new(n, |i: int| decimal_text(i as nat))
}

/// The request for a game: one line that holds the game's name, its moves,
/// the rules, and the number of every turn, each of which is to be
/// analysed.
pub open spec fn query_text(id: Seq<char>, moves: Seq<(Color, Action)>) -> Seq<char> {
    "{\"id\":\""@ + id + "\",\"moves\":["@ + joined(move_texts(moves), ","@)
        + "],\"rules\":\"japanese\",\"komi\":6.5,\"boardXSize\":19,\"boardYSize\":19,\"analyzeTurns\":["@
        + joined(turn_texts(moves.len()), ","@) + "]}\n"@
}

impl Game {
    /// Whether every move of the game is a pass or a stone on the board.
    pub open spec fn valid(&self) -> bool {
        moves_on_board(self.moves@)
    }

    /// Tests `valid`.
    pub fn is_valid(&self) -> (res: bool)
        ensures
            res == self.valid(),
    {
        let mut i: usize = 0;
        while i < self.moves.len()
            invariant
                i <= self.moves@.len(),
                forall|k: int| 0 <= k < i ==> (#[trigger] self.moves@[k]).1.on_board(),
            decreases self.moves@.len() - i,
        {
            if !self.moves[i].1.is_on_board() {
                return false;
            }
            i = i + 1;
        }
        true
    }

    /// Writes the request for the game.
    pub fn to_query(&self) -> (res: String)
        requires
            self.valid(),
        ensures
            res@ == query_text(self.id@, self.moves@),
    {
        proof {
            reveal_strlit(",");
        }
        let mut moves: Vec<String> = Vec::new();
        let mut turns: Vec<String> = Vec::new();
        let mut i: usize = 0;
        while i < self.moves.len()
            invariant
                i <= self.moves@.len(),
                self.valid(),
                moves@.len() == i,
                turns@.len() == i,
                forall|k: int| 0 <= k < i ==> (#[trigger] moves@[k])@ == move_text(self.moves@[k]),
                forall|k: int| 0 <= k < i ==> (#[trigger] turns@[k])@ == decimal_text(k as nat),
            decreases self.moves@.len() - i,
        {
            let (color, action) = self.moves[i];
            assert(self.moves@[i as int].1.on_board());
            let mut entry = String::from_str("[");
            match color {
                Color::Black => entry.append("\"B\""),
                Color::White => entry.append("\"W\""),
            }
            entry.append(",\"");
            entry.append(action_to_string(&action).as_str());
            entry.append("\"]");
            assert(entry@ =~= move_text(self.moves@[i as int]));
            moves.push(entry);
            turns.push(decimal_string(i as u64));
            i = i + 1;
        }
        assert(texts(moves@) =~= move_texts(self.moves@));
        assert(texts(turns@) =~= turn_texts(self.moves@.len()));
        let mut query = String::from_str("{\"id\":\"");
        query.append(self.id.as_str());
        query.append("\",\"moves\":[");
        query.append(join(&moves, ",").as_str());
        query.append(
            "],\"rules\":\"japanese\",\"komi\":6.5,\"boardXSize\":19,\"boardYSize\":19,\"analyzeTurns\":[",
        );
        query.append(join(&turns, ",").as_str());
        query.append("]}\n");
        assert(query@ =~= query_text(self.id@, self.moves@));
        query
    }
}

} // verus!
