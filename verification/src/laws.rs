//! What holds of every merged tree.

use vstd::prelude::*;
use crate::coord::{other_color, Action, Color};
use crate::merge::{
    annotated_move, in_turn_order, is_swing, label_action, merge_outcome, merged_from,
    merged_tree, position_of_turn, turn_numbers, turns_complete, turns_in_range, variation_tree,
    variation_trees,
};
use crate::query::moves_on_board;
use crate::record::tree_on_board;
use crate::response::ResponseModel;
use crate::tree::{empty_tree, MoveModel, TreeModel};
use crate::winrate::Winrate;

verus! {

/// The game as it was played: the moves of the tree's own line, then those
/// of its first branch, and so on to the end.
pub open spec fn main_line(tree: TreeModel) -> Seq<MoveModel>
    decreases tree,
{
    if tree.variations.len() == 0 {
        tree.nodes
    } else {
        tree.nodes + main_line(tree.variations[0])
    }
}

/// For each move of the game as it was played, how many branchings lie
/// between it and a root that itself lies `depth` deep.
pub open spec fn main_line_depths(tree: TreeModel, depth: nat) -> Seq<nat>
    decreases tree,
{
    let own = Seq::new(tree.nodes.len(), |k: int| depth);
    if tree.variations.len() == 0 {
        own
    } else {
        own + main_line_depths(tree.variations[0], depth + 1)
    }
}

/// The tree that is reached by taking the first branch `depth` times.
pub open spec fn main_branch(tree: TreeModel, depth: nat) -> TreeModel
    decreases depth,
{
    if depth == 0 {
        tree
    } else if tree.variations.len() == 0 {
        empty_tree()
    } else {
        main_branch(tree.variations[0], (depth - 1) as nat)
    }
}

/// How many swings there are before turn `i`.
pub open spec fn swings_before(rs: Seq<ResponseModel>, threshold: Winrate, i: int) -> nat
    decreases i,
{
    if i <= 0 {
        0
    } else {
        swings_before(rs, threshold, i - 1) + if is_swing(rs, threshold, i - 1) {
            1nat
        } else {
            0nat
        }
    }
}

/// From any turn on, the game as played in the merged tree is the rest of
/// the moves, each once and in order, and each move lies as many branchings
/// deep as there are swings between that turn and the move.
pub proof fn lemma_main_line_from(
    moves: Seq<(Color, Action)>,
    rs: Seq<ResponseModel>,
    threshold: Winrate,
    i: int,
    depth: nat,
)
    requires
        moves.len() == rs.len(),
        0 <= i <= moves.len(),
    ensures
        main_line(merged_from(moves, rs, threshold, i)) == Seq::new(
            (moves.len() - i) as nat,
            |k: int| annotated_move(moves[i + k], rs[i + k]),
        ),
        main_line_depths(merged_from(moves, rs, threshold, i), depth) == Seq::new(
            (moves.len() - i) as nat,
            |k: int|
                (depth + swings_before(rs, threshold, i + k) - swings_before(
                    rs,
                    threshold,
                    i,
                )) as nat,
        ),
    decreases moves.len() - i,
{
    let tree = merged_from(moves, rs, threshold, i);
    let line = Seq::new(
        (moves.len() - i) as nat,
        |k: int| annotated_move(moves[i + k], rs[i + k]),
    );
    let depths = Seq::new(
        (moves.len() - i) as nat,
        |k: int|
            (depth + swings_before(rs, threshold, i + k) - swings_before(rs, threshold, i)) as nat,
    );
    if i >= moves.len() {
        assert(main_line(tree) =~= line);
        assert(main_line_depths(tree, depth) =~= depths);
    } else {
        let rest = merged_from(moves, rs, threshold, i + 1);
        assert forall|k: int| i <= k implies swings_before(rs, threshold, k) >= swings_before(
            rs,
            threshold,
            i,
        ) by {
            lemma_swings_before_grows(rs, threshold, i, k);
        }
        let node = annotated_move(moves[i], rs[i]);
        let rest_line = Seq::new(
            (moves.len() - (i + 1)) as nat,
            |k: int| annotated_move(moves[i + 1 + k], rs[i + 1 + k]),
        );
        assert(swings_before(rs, threshold, i + 1) == swings_before(rs, threshold, i) + if is_swing(
            rs,
            threshold,
            i,
        ) {
            1nat
        } else {
            0nat
        });
        assert(seq![node] + rest_line =~= line);
        if is_swing(rs, threshold, i) {
            lemma_main_line_from(moves, rs, threshold, i + 1, depth + 1);
            let branches = seq![rest] + variation_trees(rs[i], other_color(moves[i].0));
            assert(tree.nodes == seq![node]);
            assert(tree.variations == branches);
            assert(branches[0] == rest);
            assert(main_line(tree) == tree.nodes + main_line(rest));
            let rest_depths = main_line_depths(rest, depth + 1);
            assert(main_line_depths(tree, depth) == Seq::new(1, |k: int| depth) + rest_depths);
            assert(Seq::new(1, |k: int| depth) + rest_depths =~= depths);
        } else {
            lemma_main_line_from(moves, rs, threshold, i + 1, depth);
            assert(tree.nodes == seq![node] + rest.nodes);
            assert(tree.variations == rest.variations);
            let rest_depths = main_line_depths(rest, depth);
            if rest.variations.len() == 0 {
                assert(main_line(tree) == seq![node] + main_line(rest));
                assert(main_line_depths(tree, depth) =~= Seq::new(1, |k: int| depth)
                    + rest_depths);
            } else {
                let deeper = main_line(rest.variations[0]);
                assert(main_line(tree) == (seq![node] + rest.nodes) + deeper);
                assert(main_line(rest) == rest.nodes + deeper);
                assert((seq![node] + rest.nodes) + deeper =~= seq![node] + (rest.nodes + deeper));
                let deeper_depths = main_line_depths(rest.variations[0], depth + 1);
                let own = Seq::new(rest.nodes.len(), |k: int| depth);
                assert(rest_depths == own + deeper_depths);
                assert(main_line_depths(tree, depth) == Seq::new(tree.nodes.len(), |k: int| depth)
                    + deeper_depths);
                assert(Seq::new(tree.nodes.len(), |k: int| depth) + deeper_depths =~= Seq::new(
                    1,
                    |k: int| depth,
                ) + (own + deeper_depths));
            }
            assert(Seq::new(1, |k: int| depth) + rest_depths =~= depths);
        }
    }
}

/// The number of swings before a turn does not fall as the turn moves on.
pub proof fn lemma_swings_before_grows(
    rs: Seq<ResponseModel>,
    threshold: Winrate,
    i: int,
    k: int,
)
    requires
        i <= k,
    ensures
        swings_before(rs, threshold, i) <= swings_before(rs, threshold, k),
    decreases k - i,
{
    if i < k {
        lemma_swings_before_grows(rs, threshold, i, k - 1);
        if k <= 0 {
            assert(swings_before(rs, threshold, k) == 0);
            assert(swings_before(rs, threshold, k - 1) == 0);
        }
    }
}

/// Every move of the game stands in the merged tree exactly once: the game
/// as played in the tree is the list of the moves, each with the win-rate
/// of its turn, and move `i` lies as many branchings deep as there are
/// swings before turn `i`.
pub proof fn lemma_merge_keeps_every_move(
    moves: Seq<(Color, Action)>,
    rs: Seq<ResponseModel>,
    threshold: Winrate,
)
    requires
        moves.len() == rs.len(),
    ensures
        main_line(merged_tree(moves, rs, threshold)) == Seq::new(
            moves.len(),
            |i: int| annotated_move(moves[i], rs[i]),
        ),
        main_line_depths(merged_tree(moves, rs, threshold), 0) == Seq::new(
            moves.len(),
            |i: int| swings_before(rs, threshold, i),
        ),
{
    lemma_main_line_from(moves, rs, threshold, 0, 0);
    assert(main_line(merged_tree(moves, rs, threshold)) =~= Seq::new(
        moves.len(),
        |i: int| annotated_move(moves[i], rs[i]),
    ));
    assert(main_line_depths(merged_tree(moves, rs, threshold), 0) =~= Seq::new(
        moves.len(),
        |i: int| swings_before(rs, threshold, i),
    ));
}

/// Seen from any turn up to a swing, the line that ends with the move at
/// the swing branches into the rest of the game and the lines shown for
/// that turn.
pub proof fn lemma_branches_from(
    moves: Seq<(Color, Action)>,
    rs: Seq<ResponseModel>,
    threshold: Winrate,
    i: int,
    s: int,
)
    requires
        moves.len() == rs.len(),
        0 <= i <= s,
        is_swing(rs, threshold, s),
    ensures
        swings_before(rs, threshold, i) <= swings_before(rs, threshold, s),
        main_branch(
            merged_from(moves, rs, threshold, i),
            (swings_before(rs, threshold, s) - swings_before(rs, threshold, i)) as nat,
        ).variations == seq![merged_from(moves, rs, threshold, s + 1)] + variation_trees(
            rs[s],
            other_color(moves[s].0),
        ),
    decreases s - i,
{
    lemma_swings_before_grows(rs, threshold, i, s);
    if i < s {
        lemma_branches_from(moves, rs, threshold, i + 1, s);
        let tree = merged_from(moves, rs, threshold, i);
        let rest = merged_from(moves, rs, threshold, i + 1);
        if is_swing(rs, threshold, i) {
            assert(tree.variations[0] == rest);
        }
    }
}

/// At every swing the merged tree branches: at the depth of the move at the
/// swing, the first branch is the rest of the game, and after it come the
/// lines of the first three candidates of that turn, fewer where there are
/// fewer, in the candidates' order and for the other side to begin.
pub proof fn lemma_branches_at_swing(
    moves: Seq<(Color, Action)>,
    rs: Seq<ResponseModel>,
    threshold: Winrate,
    s: int,
)
    requires
        moves.len() == rs.len(),
        is_swing(rs, threshold, s),
    ensures
        ({
            let at = main_branch(merged_tree(moves, rs, threshold), swings_before(rs, threshold, s));
            let shown = if rs[s].move_infos.len() < 3 {
                rs[s].move_infos.len()
            } else {
                3
            };
            &&& at.variations.len() == 1 + shown
            &&& at.variations[0] == merged_from(moves, rs, threshold, s + 1)
            &&& forall|k: int|
                0 <= k < shown ==> #[trigger] at.variations[1 + k] == variation_tree(
                    rs[s],
                    k,
                    other_color(moves[s].0),
                )
        }),
{
    lemma_branches_from(moves, rs, threshold, 0, s);
}

/// Where moves and responses merge, every move of the game stands in the
/// tree exactly once and in its place: the game as played in the tree is
/// the list of the moves, each with the win-rate of the response about its
/// turn, and each move lies as many branchings deep as there are swings
/// before its turn.
pub proof fn lemma_outcome_keeps_every_move(
    moves: Seq<(Color, Action)>,
    rs: Seq<ResponseModel>,
    threshold: Winrate,
)
    ensures
        merge_outcome(moves, rs, threshold) matches Ok(tree) ==> {
            &&& main_line(tree) == Seq::new(
                moves.len(),
                |i: int| annotated_move(moves[i], in_turn_order(rs)[i]),
            )
            &&& main_line_depths(tree, 0) == Seq::new(
                moves.len(),
                |i: int| swings_before(in_turn_order(rs), threshold, i),
            )
        },
{
    if merge_outcome(moves, rs, threshold) is Ok {
        lemma_merge_keeps_every_move(moves, in_turn_order(rs), threshold);
    }
}

/// Where moves and responses merge, the tree branches at every swing: after
/// the branch of the game itself come as many branches as the response
/// about that turn has candidates, but no more than three.
pub proof fn lemma_outcome_branches(
    moves: Seq<(Color, Action)>,
    rs: Seq<ResponseModel>,
    threshold: Winrate,
    s: int,
)
    requires
        is_swing(in_turn_order(rs), threshold, s),
    ensures
        merge_outcome(moves, rs, threshold) matches Ok(tree) ==> {
            let at = main_branch(tree, swings_before(in_turn_order(rs), threshold, s));
            let candidates = in_turn_order(rs)[s].move_infos.len();
            at.variations.len() == 1 + if candidates < 3 {
                candidates
            } else {
                3
            }
        },
{
    if merge_outcome(moves, rs, threshold) is Ok {
        lemma_branches_at_swing(moves, in_turn_order(rs), threshold, s);
    }
}

/// The line of a candidate has one move for each label of its principal
/// variation, none where that is empty, and no branches.
pub proof fn lemma_variation_shape(r: ResponseModel, k: int, first: Color)
    requires
        0 <= k < r.move_infos.len(),
    ensures
        variation_tree(r, k, first).nodes.len() == r.move_infos[k].primary_variation.len(),
        variation_tree(r, k, first).variations.len() == 0,
{
}

/// In the order of their turns, the response at each place is one of the
/// responses, and it is about the turn of that place.
pub proof fn lemma_in_turn_order(rs: Seq<ResponseModel>)
    requires
        rs.len() <= usize::MAX,
        turns_in_range(rs),
        turns_complete(rs),
    ensures
        in_turn_order(rs).len() == rs.len(),
        forall|k: int|
            0 <= k < rs.len() ==> (#[trigger] in_turn_order(rs)[k]).turn_number == k
                && rs.contains(in_turn_order(rs)[k]),
{
    assert forall|k: int| 0 <= k < rs.len() implies (#[trigger] in_turn_order(rs)[k]).turn_number
        == k && rs.contains(in_turn_order(rs)[k]) by {
        assert(turn_numbers(rs).contains(k as usize));
        turn_numbers(rs).index_of_first_ensures(k as usize);
        let j = position_of_turn(rs, k as usize);
        assert(turn_numbers(rs).index_of_first(k as usize) == Some(j));
        assert(turn_numbers(rs)[j] == k);
        assert(rs[j] == in_turn_order(rs)[k]);
    }
}

/// A label names a pass or a cell of the board, whatever it is.
pub proof fn lemma_label_on_board(label: Seq<char>)
    ensures
        label_action(label).on_board(),
{
}

/// Where the moves of a game lie on the board, so do all moves of the tree
/// of the game from any turn on.
pub proof fn lemma_merged_from_on_board(
    moves: Seq<(Color, Action)>,
    rs: Seq<ResponseModel>,
    threshold: Winrate,
    i: int,
)
    requires
        moves.len() == rs.len(),
        moves_on_board(moves),
        0 <= i <= moves.len(),
    ensures
        tree_on_board(merged_from(moves, rs, threshold, i)),
    decreases moves.len() - i,
{
    if i < moves.len() {
        lemma_merged_from_on_board(moves, rs, threshold, i + 1);
        let tree = merged_from(moves, rs, threshold, i);
        let rest = merged_from(moves, rs, threshold, i + 1);
        assert(moves[i].1.on_board());
        if is_swing(rs, threshold, i) {
            let shown = variation_trees(rs[i], other_color(moves[i].0));
            assert forall|k: int| 0 <= k < tree.variations.len() implies tree_on_board(
                #[trigger] tree.variations[k],
            ) by {
                if k > 0 {
                    let line = shown[k - 1];
                    assert(tree.variations[k] == line);
                    assert forall|j: int| 0 <= j < line.nodes.len() implies (
                    #[trigger] line.nodes[j]).action.on_board() by {
                        lemma_label_on_board(rs[i].move_infos[k - 1].primary_variation[j]);
                    }
                }
            }
        } else {
            assert forall|j: int| 0 <= j < tree.nodes.len() implies (
            #[trigger] tree.nodes[j]).action.on_board() by {
                if j > 0 {
                    assert(tree.nodes[j] == rest.nodes[j - 1]);
                }
            }
        }
    }
}

/// Where the moves of a game lie on the board, so do all moves of the
/// merged tree.
pub proof fn lemma_merged_on_board(
    moves: Seq<(Color, Action)>,
    rs: Seq<ResponseModel>,
    threshold: Winrate,
)
    requires
        moves_on_board(moves),
    ensures
        merge_outcome(moves, rs, threshold) matches Ok(tree) ==> tree_on_board(tree),
{
    if merge_outcome(moves, rs, threshold) is Ok {
        lemma_merged_from_on_board(moves, in_turn_order(rs), threshold, 0);
    }
}

/// Whether each of the first `n` turns is among the given ones.
pub open spec fn covers(turns: Seq<usize>, n: nat) -> bool {
    forall|k: usize| k < n ==> #[trigger] turns.contains(k)
}

/// Turns among which each of the first `n` is found are at least `n`.
pub proof fn lemma_cover_count(turns: Seq<usize>, n: nat)
    requires
        covers(turns, n),
        n <= usize::MAX,
    ensures
        n <= turns.len(),
    decreases n,
{
    if n > 0 {
        let last = (n - 1) as usize;
        assert(turns.contains(last));
        let p = choose|p: int| 0 <= p < turns.len() && turns[p] == last;
        let rest = turns.remove(p);
        assert forall|k: usize| k < n - 1 implies #[trigger] rest.contains(k) by {
            assert(turns.contains(k));
            let i = choose|i: int| 0 <= i < turns.len() && turns[i] == k;
            if i < p {
                assert(rest[i] == k);
            } else {
                assert(rest[i - 1] == k);
            }
        }
        lemma_cover_count(rest, (n - 1) as nat);
    }
}

/// Where every response is about a turn of the game and every turn has a
/// response, no two responses are about the same turn: the turns of the
/// responses are those of the game, each once.
pub proof fn lemma_turns_distinct(rs: Seq<ResponseModel>)
    requires
        rs.len() <= usize::MAX,
        turns_in_range(rs),
        turns_complete(rs),
    ensures
        forall|i: int, j: int|
            0 <= i < j < rs.len() ==> (#[trigger] rs[i]).turn_number != (
            #[trigger] rs[j]).turn_number,
{
    let turns = turn_numbers(rs);
    assert forall|i: int, j: int| 0 <= i < j < rs.len() implies (#[trigger] rs[i]).turn_number != (
    #[trigger] rs[j]).turn_number by {
        if rs[i].turn_number == rs[j].turn_number {
            let rest = turns.remove(j);
            assert forall|k: usize| k < rs.len() implies #[trigger] rest.contains(k) by {
                assert(turns.contains(k));
                let w = choose|w: int| 0 <= w < turns.len() && turns[w] == k;
                if w == j {
                    assert(rest[i] == turns[i]);
                    assert(rest[i] == k);
                } else if w < j {
                    assert(rest[w] == k);
                } else {
                    assert(rest[w - 1] == k);
                }
            }
            lemma_cover_count(rest, rs.len());
            assert(false);
        }
    }
}

} // verus!
