//! What the engine says of one turn of a game.

use vstd::prelude::*;
use crate::text::texts;
use crate::winrate::Winrate;

verus! {

/// One move that the engine considered, and the line it expects after it.
#[derive(Debug, PartialEq, Eq)]
pub struct MoveInfo {
    /// The label of the move.
    pub move_location: String,
    /// The move's place among those considered, the best first.
    pub rank: usize,
    /// The labels of the moves that the engine expects, this one first.
    pub primary_variation: Vec<String>,
    /// How many playouts went into the move.
    pub visits: usize,
    /// The win-rate after the move.
    pub winrate: Winrate,
}

/// What a `MoveInfo` holds.
pub ghost struct MoveInfoModel {
    pub move_location: Seq<char>,
    pub rank: usize,
    pub primary_variation: Seq<Seq<char>>,
    pub visits: usize,
    pub winrate: Winrate,
}

impl View for MoveInfo {
    type V = MoveInfoModel;

    open spec fn view(&self) -> MoveInfoModel {
        MoveInfoModel {
            move_location: self.move_location@,
            rank: self.rank,
            primary_variation: texts(self.primary_variation@),
            visits: self.visits,
            winrate: self.winrate,
        }
    }
}

/// The engine's judgement of the position before one turn.
#[derive(Debug, PartialEq, Eq)]
pub struct Response {
    /// The moves considered, the best first.
    pub move_infos: Vec<MoveInfo>,
    /// How many playouts went into the position.
    pub root_visits: usize,
    /// The win-rate of the position.
    pub winrate: Winrate,
    /// The turn that the response is about, counted from zero.
    pub turn_number: usize,
}

/// What a `Response` holds.
pub ghost struct ResponseModel {
    pub move_infos: Seq<MoveInfoModel>,
    pub root_visits: usize,
    pub winrate: Winrate,
    pub turn_number: usize,
}

impl View for Response {
    type V = ResponseModel;

    open spec fn view(&self) -> ResponseModel {
        ResponseModel {
            move_infos: move_info_models(self.move_infos@),
            root_visits: self.root_visits,
            winrate: self.winrate,
            turn_number: self.turn_number,
        }
    }
}

/// What each candidate of a list holds.
pub open spec fn move_info_models(infos: Seq<MoveInfo>) -> Seq<MoveInfoModel> {
    Seq::new(infos.len(), |i: int| infos[i]@)
}

/// What each response of a list holds.
pub open spec fn response_models(responses: Seq<Response>) -> Seq<ResponseModel> {
    Seq::new(responses.len(), |i: int| responses[i]@)
}

} // verus!
