//! Annotation of recorded Go games with an analysis engine's win-rate
//! estimates: the labels of the board's cells, the request that asks the
//! engine about a game, the responses that it gives, the merge of a game's
//! moves with the engine's judgement of each turn, and the record that the
//! merged tree is written as.

pub mod text;
pub mod decimal;
pub mod coord;
pub mod winrate;
pub mod number;
pub mod tree;
pub mod response;
pub mod merge;
pub mod laws;
pub mod json;
pub mod decode;
pub mod query;
pub mod scan;
pub mod record;
pub mod pipeline;
