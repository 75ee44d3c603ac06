//! The merge of a game's moves with the engine's responses: the game as it
//! was played, each move with the win-rate before it, and at each swing of
//! the win-rate the lines that the engine would have played.

use vstd::prelude::*;
use vstd::string::*;
use crate::coord::{
    other_color, string_to_action, swap_color, text_action, Action, CodecError, Color,
};
use crate::decimal::{decimal_text, push_decimal};
use crate::response::{response_models, Response, ResponseModel};
use crate::tree::{
    empty_tree, tree_models, AnnotatedMove, AnnotatedTree, Annotation, AnnotationText, MoveModel,
    TreeModel,
};
use crate::winrate::Winrate;

verus! {

/// The name of the property that holds the win-rate before a move, in
/// percent.
pub const WINRATE_PROPERTY: &'static str = "SBKV";

/// How many of the engine's lines are shown at a swing, at most.
pub const MAX_VARIATIONS: usize = 3;

/// Why moves and responses could not be merged.
#[derive(Clone, Copy, Debug, PartialEq, Eq, Structural)]
pub enum MergeError {
    /// There are not as many responses as moves.
    LengthMismatch,
    /// A response is about a turn that the game does not have.
    TurnIndexOutOfRange,
    /// A turn of the game has no response.
    TurnIndexMissing,
    /// A line to be shown names a move that is neither a cell of the board
    /// nor a pass.
    UnreadableLabel,
}

/// How many of a response's candidates are shown: the first three, or all
/// where there are fewer.
pub open spec fn shown_candidates(r: ResponseModel) -> nat {
    if r.move_infos.len() < MAX_VARIATIONS {
        r.move_infos.len()
    } else {
        MAX_VARIATIONS as nat
    }
}

/// The remark on each move of a proposed line: the win-rate of the position
/// that the line starts from, and the playouts behind the line's first
/// move.
pub open spec fn variation_comment(winrate: Winrate, visits: usize) -> Seq<char> {
    "Black winrate: "@ + winrate.text() + " Visits: "@ + decimal_text(visits as nat)
}

/// The side to play the move at place `k` of a line that `first` begins.
pub open spec fn color_at(first: Color, k: int) -> Color {
    if k % 2 == 0 {
        first
    } else {
        other_color(first)
    }
}

/// The action that a readable label names.
pub open spec fn label_action(label: Seq<char>) -> Action
    recommends
        text_action(label) is Ok,
{
    match text_action(label) {
        Ok(action) => action,
        Err(_) => Action::Pass,
    }
}

/// Whether every label of a line names a cell of the board or a pass.
pub open spec fn line_readable(labels: Seq<Seq<char>>) -> bool {
    forall|j: int| 0 <= j < labels.len() ==> text_action(#[trigger] labels[j]) is Ok
}

/// The moves of a proposed line: the sides take turns, and every move
/// carries the same remark.
pub open spec fn variation_line(labels: Seq<Seq<char>>, first: Color, comment: Seq<char>) -> Seq<
    MoveModel,
> {
    Seq::new(
        labels.len(),
        |j: int|
            MoveModel {
                color: color_at(first, j),
                action: label_action(labels[j]),
                annotation: AnnotationText::Comment(comment),
            },
    )
}

/// The tree of the line that follows candidate `k`: its moves, and no
/// branches.
pub open spec fn variation_tree(r: ResponseModel, k: int, first: Color) -> TreeModel
    recommends
        0 <= k < r.move_infos.len(),
{
    TreeModel {
        nodes: variation_line(
            r.move_infos[k].primary_variation,
            first,
            variation_comment(r.winrate, r.move_infos[k].visits),
        ),
        variations: Seq::empty(),
    }
}

/// The trees of the lines that are shown for a response, the best
/// candidate's first.
pub open spec fn variation_trees(r: ResponseModel, first: Color) -> Seq<TreeModel> {
    Seq::new(shown_candidates(r), |k: int| variation_tree(r, k, first))
}

/// Whether every line that is shown for a response is readable.
pub open spec fn variations_readable(r: ResponseModel) -> bool {
    forall|k: int|
        0 <= k < shown_candidates(r) ==> line_readable(
            (#[trigger] r.move_infos[k]).primary_variation,
        )
}

/// Whether label `j` of candidate `k` is the first that cannot be read, the
/// candidates taken in their order and each line from its start.
pub open spec fn first_unreadable(r: ResponseModel, k: int, j: int) -> bool {
    &&& 0 <= k < shown_candidates(r)
    &&& 0 <= j < r.move_infos[k].primary_variation.len()
    &&& text_action(r.move_infos[k].primary_variation[j]) is Err
    &&& forall|j1: int| 0 <= j1 < j ==> text_action(#[trigger] r.move_infos[k].primary_variation[j1]) is Ok
    &&& forall|k1: int|
        0 <= k1 < k ==> line_readable((#[trigger] r.move_infos[k1]).primary_variation)
}

impl Response {
    /// The lines that the engine would have played from this position, as
    /// trees without branches: one for each of the first three candidates,
    /// with `color` to play first.  Fails with the error of the first label
    /// that cannot be read.
    pub fn get_variations(&self, color: Color) -> (res: Result<Vec<AnnotatedTree>, CodecError>)
        ensures
            match res {
                Ok(trees) => variations_readable(self@) && tree_models(trees@) == variation_trees(
                    self@,
                    color,
                ),
                Err(e) => !variations_readable(self@) && exists|k: int, j: int|
                    #[trigger] first_unreadable(self@, k, j) && text_action(
                        self@.move_infos[k].primary_variation[j],
                    ) == Err::<Action, CodecError>(e),
            },
    {
        let shown = if self.move_infos.len() < MAX_VARIATIONS {
            self.move_infos.len()
        } else {
            MAX_VARIATIONS
        };
        let root = self.winrate.to_text();
        let mut variations: Vec<AnnotatedTree> = Vec::new();
        let mut k: usize = 0;
        while k < shown
            invariant
                k <= shown,
                shown == shown_candidates(self@),
                shown <= self.move_infos@.len(),
                root@ == self.winrate.text(),
                variations@.len() == k,
                forall|k1: int|
                    0 <= k1 < k ==> line_readable((#[trigger] self@.move_infos[k1]).primary_variation),
                forall|k1: int|
                    0 <= k1 < k ==> (#[trigger] variations@[k1])@ == variation_tree(
                        self@,
                        k1,
                        color,
                    ),
            decreases shown - k,
        {
            let alternative = &self.move_infos[k];
            let ghost labels = self@.move_infos[k as int].primary_variation;
            let ghost note = variation_comment(self.winrate, alternative.visits);
            let mut comment = String::from_str("Black winrate: ");
            comment.append(root.as_str());
            comment.append(" Visits: ");
            push_decimal(&mut comment, alternative.visits as u64);
            assert(comment@ =~= note);
            let mut nodes: Vec<AnnotatedMove> = Vec::new();
            let mut current_color = color;
            let mut j: usize = 0;
            while j < alternative.primary_variation.len()
                invariant
                    j <= alternative.primary_variation@.len(),
                    k < shown,
                    shown == shown_candidates(self@),
                    alternative == self.move_infos@[k as int],
                    labels == self@.move_infos[k as int].primary_variation,
                    labels.len() == alternative.primary_variation@.len(),
                    comment@ == note,
                    current_color == color_at(color, j as int),
                    nodes@.len() == j,
                    forall|j1: int| 0 <= j1 < j ==> text_action(#[trigger] labels[j1]) is Ok,
                    forall|j1: int|
                        0 <= j1 < j ==> (#[trigger] nodes@[j1])@ == variation_line(
                            labels,
                            color,
                            note,
                        )[j1],
                    forall|k1: int|
                        0 <= k1 < k ==> line_readable(
                            (#[trigger] self@.move_infos[k1]).primary_variation,
                        ),
                decreases alternative.primary_variation@.len() - j,
            {
                assert(labels[j as int] == alternative.primary_variation@[j as int]@);
                match string_to_action(alternative.primary_variation[j].as_str()) {
                    Ok(action) => {
                        nodes.push(
                            AnnotatedMove {
                                color: current_color,
                                action,
                                annotation: Annotation::Comment(comment.clone()),
                            },
                        );
                    },
                    Err(e) => {
                        proof {
                            assert(first_unreadable(self@, k as int, j as int));
                            assert(!line_readable(self@.move_infos[k as int].primary_variation));
                        }
                        return Err(e);
                    },
                }
                current_color = swap_color(&current_color);
                j = j + 1;
            }
            let tree = AnnotatedTree::new(nodes, Vec::new());
            proof {
                assert(tree@.nodes =~= variation_line(labels, color, note));
                assert(tree@.variations =~= Seq::empty());
            }
            variations.push(tree);
            k = k + 1;
        }
        proof {
            assert(tree_models(variations@) =~= variation_trees(self@, color));
        }
        Ok(variations)
    }
}

/// The turn that each response is about.
pub open spec fn turn_numbers(rs: Seq<ResponseModel>) -> Seq<usize> {
    Seq::new(rs.len(), |j: int| rs[j].turn_number)
}

/// Whether every response is about a turn of a game of as many moves as
/// there are responses.
pub open spec fn turns_in_range(rs: Seq<ResponseModel>) -> bool {
    forall|j: int| 0 <= j < rs.len() ==> (#[trigger] rs[j]).turn_number < rs.len()
}

/// Whether every turn of such a game has a response.
pub open spec fn turns_complete(rs: Seq<ResponseModel>) -> bool {
    forall|k: usize| k < rs.len() ==> #[trigger] turn_numbers(rs).contains(k)
}

/// The place in the list of the first response about turn `k`.
pub open spec fn position_of_turn(rs: Seq<ResponseModel>, k: usize) -> int {
    match turn_numbers(rs).index_of_first(k) {
        Some(j) => j,
        None => 0,
    }
}

/// The responses in the order of their turns: the response about turn `k`
/// at place `k`.
pub open spec fn in_turn_order(rs: Seq<ResponseModel>) -> Seq<ResponseModel>
    recommends
        turns_in_range(rs),
        turns_complete(rs),
{
    Seq::new(rs.len(), |k: int| rs[position_of_turn(rs, k as usize)])
}

/// Whether the win-rate swings between turn `i` and the next: whether the
/// two win-rates lie further apart than the threshold.
pub open spec fn is_swing(rs: Seq<ResponseModel>, threshold: Winrate, i: int) -> bool {
    0 <= i && i + 1 < rs.len() && rs[i].winrate.swings(rs[i + 1].winrate, threshold)
}

/// Whether the lines to be shown at every swing are readable.
pub open spec fn swings_readable(rs: Seq<ResponseModel>, threshold: Winrate) -> bool {
    forall|i: int| #[trigger] is_swing(rs, threshold, i) ==> variations_readable(rs[i])
}

/// A move of the game with the win-rate of the position before it.
pub open spec fn annotated_move(turn: (Color, Action), r: ResponseModel) -> MoveModel {
    MoveModel {
        color: turn.0,
        action: turn.1,
        annotation: AnnotationText::Property(WINRATE_PROPERTY@, r.winrate.percent_text()),
    }
}

/// The tree of the game from turn `i` on.  Up to the next swing the moves
/// form one line.  The move at a swing ends its line, and the line branches:
/// first into the rest of the game, then into the lines that the engine
/// proposes in place of the next move, for the other side to begin.
pub open spec fn merged_from(
    moves: Seq<(Color, Action)>,
    rs: Seq<ResponseModel>,
    threshold: Winrate,
    i: int,
) -> TreeModel
    recommends
        moves.len() == rs.len(),
        0 <= i <= moves.len(),
    decreases moves.len() - i,
{
    if i < 0 || i >= moves.len() {
        empty_tree()
    } else {
        let rest = merged_from(moves, rs, threshold, i + 1);
        let node = annotated_move(moves[i], rs[i]);
        if is_swing(rs, threshold, i) {
            TreeModel {
                nodes: seq![node],
                variations: seq![rest] + variation_trees(rs[i], other_color(moves[i].0)),
            }
        } else {
            TreeModel { nodes: seq![node] + rest.nodes, variations: rest.variations }
        }
    }
}

/// The annotated tree of a whole game, from responses in the order of
/// their turns.
pub open spec fn merged_tree(
    moves: Seq<(Color, Action)>,
    rs: Seq<ResponseModel>,
    threshold: Winrate,
) -> TreeModel
    recommends
        moves.len() == rs.len(),
{
    merged_from(moves, rs, threshold, 0)
}

/// What the merge of moves and responses gives: the annotated tree, or the
/// first of the reasons that stand against one.
pub open spec fn merge_outcome(
    moves: Seq<(Color, Action)>,
    rs: Seq<ResponseModel>,
    threshold: Winrate,
) -> Result<TreeModel, MergeError> {
    if moves.len() != rs.len() {
        Err(MergeError::LengthMismatch)
    } else if !turns_in_range(rs) {
        Err(MergeError::TurnIndexOutOfRange)
    } else if !turns_complete(rs) {
        Err(MergeError::TurnIndexMissing)
    } else if !swings_readable(in_turn_order(rs), threshold) {
        Err(MergeError::UnreadableLabel)
    } else {
        Ok(merged_tree(moves, in_turn_order(rs), threshold))
    }
}

/// Finds for each turn the first response about it.
pub fn turn_order(responses: &Vec<Response>) -> (res: Result<Vec<usize>, MergeError>)
    ensures
        match res {
            Ok(order) => {
                &&& turns_in_range(response_models(responses@))
                &&& turns_complete(response_models(responses@))
                &&& order@.len() == responses@.len()
                &&& forall|k: int|
                    0 <= k < order@.len() ==> {
                        &&& 0 <= #[trigger] order@[k] < responses@.len()
                        &&& order@[k] == position_of_turn(response_models(responses@), k as usize)
                        &&& responses@[order@[k] as int].turn_number == k
                    }
            },
            Err(e) => if turns_in_range(response_models(responses@)) {
                e == MergeError::TurnIndexMissing && !turns_complete(response_models(responses@))
            } else {
                e == MergeError::TurnIndexOutOfRange
            },
        },
{
    let n = responses.len();
    let ghost rs = response_models(responses@);
    let ghost turns = turn_numbers(rs);
    let mut order: Vec<usize> = Vec::new();
    let mut k: usize = 0;
    while k < n
        invariant
            k <= n,
            order@.len() == k,
            forall|k1: int| 0 <= k1 < k ==> order@[k1] == n,
        decreases n - k,
    {
        order.push(n);
        k = k + 1;
    }
    let mut j: usize = 0;
    while j < n
        invariant
            j <= n,
            n == responses@.len(),
            rs == response_models(responses@),
            turns == turn_numbers(rs),
            order@.len() == n,
            forall|j1: int| 0 <= j1 < j ==> (#[trigger] rs[j1]).turn_number < n,
            forall|k1: int|
                0 <= k1 < n ==> if #[trigger] order@[k1] == n {
                    forall|j1: int| 0 <= j1 < j ==> #[trigger] turns[j1] != k1
                } else {
                    &&& order@[k1] < j
                    &&& turns[order@[k1] as int] == k1
                    &&& forall|j1: int| 0 <= j1 < order@[k1] ==> #[trigger] turns[j1] != k1
                },
        decreases n - j,
    {
        let turn = responses[j].turn_number;
        assert(rs[j as int].turn_number == turn);
        assert(turns[j as int] == turn);
        if turn >= n {
            return Err(MergeError::TurnIndexOutOfRange);
        }
        if order[turn] == n {
            order.set(turn, j);
        }
        j = j + 1;
    }
    assert(turns_in_range(rs));
    let mut k: usize = 0;
    while k < n
        invariant
            k <= n,
            n == responses@.len(),
            rs == response_models(responses@),
            turns == turn_numbers(rs),
            turns.len() == n,
            order@.len() == n,
            turns_in_range(rs),
            forall|k1: int|
                0 <= k1 < n ==> if #[trigger] order@[k1] == n {
                    forall|j1: int| 0 <= j1 < n ==> #[trigger] turns[j1] != k1
                } else {
                    &&& order@[k1] < n
                    &&& turns[order@[k1] as int] == k1
                    &&& forall|j1: int| 0 <= j1 < order@[k1] ==> #[trigger] turns[j1] != k1
                },
            forall|k1: int|
                0 <= k1 < k ==> #[trigger] order@[k1] == position_of_turn(rs, k1 as usize)
                    && order@[k1] < n,
            forall|k1: usize| k1 < k ==> #[trigger] turns.contains(k1),
        decreases n - k,
    {
        if order[k] == n {
            proof {
                assert(!turns.contains(k));
            }
            return Err(MergeError::TurnIndexMissing);
        }
        proof {
            let at = order@[k as int] as int;
            assert(turns[at] == k);
            turns.index_of_first_ensures(k);
        }
        k = k + 1;
    }
    assert(turns_complete(rs));
    Ok(order)
}

/// The turns at which the win-rate swings, in ascending order.
pub fn swing_indices(responses: &Vec<Response>, threshold: Winrate) -> (res: Vec<usize>)
    ensures
        forall|a: int, b: int| 0 <= a < b < res@.len() ==> res@[a] < res@[b],
        forall|i: int|
            is_swing(response_models(responses@), threshold, i) <==> exists|a: int|
                0 <= a < res@.len() && #[trigger] res@[a] == i,
{
    let ghost rs = response_models(responses@);
    let mut found: Vec<usize> = Vec::new();
    if responses.len() == 0 {
        return found;
    }
    let last = responses.len() - 1;
    let mut i: usize = 0;
    while i < last
        invariant
            i <= last,
            last + 1 == responses@.len(),
            rs == response_models(responses@),
            forall|a: int| 0 <= a < found@.len() ==> #[trigger] found@[a] < i,
            forall|a: int, b: int| 0 <= a < b < found@.len() ==> found@[a] < found@[b],
            forall|a: int| 0 <= a < found@.len() ==> is_swing(rs, threshold, #[trigger] found@[a] as int),
            forall|s: int|
                0 <= s < i && is_swing(rs, threshold, s) ==> exists|a: int|
                    0 <= a < found@.len() && #[trigger] found@[a] == s,
        decreases last - i,
    {
        if responses[i].winrate.is_swing(responses[i + 1].winrate, threshold) {
            let ghost before = found@;
            found.push(i);
            proof {
                assert(found@[before.len() as int] == i);
                assert forall|s: int| 0 <= s < i + 1 && is_swing(rs, threshold, s) implies exists|
                    a: int,
                |
                    0 <= a < found@.len() && #[trigger] found@[a] == s by {
                    if s < i {
                        let a = choose|a: int| 0 <= a < before.len() && #[trigger] before[a] == s;
                        assert(found@[a] == s);
                    }
                }
            }
        }
        i = i + 1;
    }
    found
}

/// Merges the moves of a game with the engine's responses, one for each
/// turn and in any order, into the annotated tree of the game.
pub fn annotate(moves: &Vec<(Color, Action)>, responses: &Vec<Response>, threshold: Winrate) -> (res:
    Result<AnnotatedTree, MergeError>)
    ensures
        match merge_outcome(moves@, response_models(responses@), threshold) {
            Ok(tree) => res is Ok && res->Ok_0@ == tree,
            Err(e) => res == Err::<AnnotatedTree, MergeError>(e),
        },
{
    let n = moves.len();
    if responses.len() != n {
        return Err(MergeError::LengthMismatch);
    }
    let order = match turn_order(responses) {
        Ok(order) => order,
        Err(e) => {
            return Err(e);
        },
    };
    let ghost rs = in_turn_order(response_models(responses@));
    assert forall|k: int| 0 <= k < n implies #[trigger] rs[k] == responses@[order@[k] as int]@ by {}
    let mut tree = AnnotatedTree::empty();
    let mut i: usize = n;
    while i > 0
        invariant
            i <= n,
            n == moves@.len(),
            n == responses@.len(),
            order@.len() == n,
            rs.len() == n,
            rs == in_turn_order(response_models(responses@)),
            turns_in_range(response_models(responses@)),
            turns_complete(response_models(responses@)),
            forall|k: int| 0 <= k < n ==> 0 <= #[trigger] order@[k] < n,
            forall|k: int| 0 <= k < n ==> #[trigger] rs[k] == responses@[order@[k] as int]@,
            tree@ == merged_from(moves@, rs, threshold, i as int),
            forall|s: int|
                i <= s && #[trigger] is_swing(rs, threshold, s) ==> variations_readable(rs[s]),
        decreases i,
    {
        let at = i - 1;
        let response = &responses[order[at]];
        let (color, action) = moves[at];
        let ghost rest = tree@;
        let node = AnnotatedMove {
            color,
            action,
            annotation: Annotation::Property(
                String::from_str(WINRATE_PROPERTY),
                response.winrate.to_percent_text(),
            ),
        };
        assert(node@ == annotated_move(moves@[at as int], rs[at as int]));
        let swing = i < n && response.winrate.is_swing(responses[order[i]].winrate, threshold);
        assert(swing == is_swing(rs, threshold, at as int));
        if swing {
            match response.get_variations(swap_color(&color)) {
                Ok(mut alternatives) => {
                    let mut variations: Vec<AnnotatedTree> = Vec::new();
                    variations.push(tree);
                    variations.append(&mut alternatives);
                    let mut nodes: Vec<AnnotatedMove> = Vec::new();
                    nodes.push(node);
                    tree = AnnotatedTree::new(nodes, variations);
                    proof {
                        assert(tree@.nodes =~= seq![node@]);
                        assert(tree@.variations =~= seq![rest] + variation_trees(
                            rs[at as int],
                            other_color(color),
                        ));
                    }
                },
                Err(_) => {
                    proof {
                        assert(!swings_readable(rs, threshold));
                    }
                    return Err(MergeError::UnreadableLabel);
                },
            }
        } else {
            let ghost before = tree;
            tree.nodes.insert(0, node);
            proof {
                assert(tree.variations == before.variations);
                assert(tree@.variations =~= rest.variations);
                assert(tree@.nodes =~= seq![node@] + rest.nodes);
            }
        }
        i = at;
    }
    proof {
        assert(swings_readable(rs, threshold));
    }
    Ok(tree)
}

} // verus!
