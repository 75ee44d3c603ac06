//! The annotated game record: a line of moves, each with a note, and the
//! lines that branch off where it ends.

use vstd::prelude::*;
use crate::coord::{Action, Color};

verus! {

/// The note that a move carries.
#[derive(Debug, PartialEq, Eq)]
pub enum Annotation {
    /// A property of the move, by its name and its value.
    Property(String, String),
    /// A remark on a move of a line that the engine proposes.
    Comment(String),
}

/// What an `Annotation` holds.
pub ghost enum AnnotationText {
    Property(Seq<char>, Seq<char>),
    Comment(Seq<char>),
}

impl View for Annotation {
    type V = AnnotationText;

    open spec fn view(&self) -> AnnotationText {
        match *self {
            Annotation::Property(name, value) => AnnotationText::Property(name@, value@),
            Annotation::Comment(text) => AnnotationText::Comment(text@),
        }
    }
}

/// A move of one side, with its note.
#[derive(Debug, PartialEq, Eq)]
pub struct AnnotatedMove {
    pub color: Color,
    pub action: Action,
    pub annotation: Annotation,
}

/// What an `AnnotatedMove` holds.
pub ghost struct MoveModel {
    pub color: Color,
    pub action: Action,
    pub annotation: AnnotationText,
}

impl View for AnnotatedMove {
    type V = MoveModel;

    open spec fn view(&self) -> MoveModel {
        MoveModel { color: self.color, action: self.action, annotation: self.annotation@ }
    }
}

/// A line of moves and the lines that may follow its last move.  Where
/// there are any, the first of them is the game as it was played.
#[derive(Debug, PartialEq, Eq)]
pub struct AnnotatedTree {
    pub nodes: Vec<AnnotatedMove>,
    pub variations: Vec<AnnotatedTree>,
}

/// What an `AnnotatedTree` holds.
pub ghost struct TreeModel {
    pub nodes: Seq<MoveModel>,
    pub variations: Seq<TreeModel>,
}

impl View for AnnotatedTree {
    type V = TreeModel;

    open spec fn view(&self) -> TreeModel {
        tree_model(*self)
    }
}

/// What a tree holds: what its moves hold, and what each branch holds.
pub open spec fn tree_model(tree: AnnotatedTree) -> TreeModel
    decreases tree,
{
    TreeModel {
        nodes: move_models(tree.nodes@),
        variations: Seq::new(
            tree.variations@.len(),
            |i: int|
                if 0 <= i < tree.variations@.len() {
                    tree_model(tree.variations@[i])
                } else {
                    arbitrary()
                },
        ),
    }
}

/// What each move of a line holds.
pub open spec fn move_models(moves: Seq<AnnotatedMove>) -> Seq<MoveModel> {
    Seq::new(moves.len(), |i: int| moves[i]@)
}

/// What each tree of a list holds.
pub open spec fn tree_models(trees: Seq<AnnotatedTree>) -> Seq<TreeModel> {
    Seq::new(trees.len(), |i: int| trees[i]@)
}

/// The tree without moves and without branches.
pub open spec fn empty_tree() -> TreeModel {
    TreeModel { nodes: Seq::empty(), variations: Seq::empty() }
}

impl AnnotatedTree {
    /// A tree of the given line and branches.
    pub fn new(nodes: Vec<AnnotatedMove>, variations: Vec<AnnotatedTree>) -> (res: AnnotatedTree)
        ensures
            res@.nodes == move_models(nodes@),
            res@.variations == tree_models(variations@),
            res.nodes == nodes,
            res.variations == variations,
    {
        let res = AnnotatedTree { nodes, variations };
        assert(res@.variations =~= tree_models(variations@));
        res
    }

    /// The tree without moves and without branches.
    pub fn empty() -> (res: AnnotatedTree)
        ensures
            res@ == empty_tree(),
    {
        let res = AnnotatedTree::new(Vec::new(), Vec::new());
        assert(res@.nodes =~= Seq::empty());
        assert(res@.variations =~= Seq::empty());
        res
    }
}

} // verus!
