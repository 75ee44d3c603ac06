//! The game record: what is read from one, and what an annotated tree is
//! written as.

use vstd::prelude::*;
use crate::coord::{Action, Color};
use crate::scan::{is_record_safe, record_safe};
use crate::tree::{AnnotatedMove, AnnotatedTree, Annotation, MoveModel, TreeModel};

verus! {

/// A property of a node of a record, as far as the moves of the game go.
#[derive(Clone, Copy, Debug, PartialEq, Eq, Structural)]
pub enum RecordToken {
    /// A move of one side.
    Move(Color, Action),
    /// Anything else.
    Other,
}

/// A node of a record: its properties in their order.
#[derive(Debug, PartialEq, Eq)]
pub struct RecordNode {
    pub tokens: Vec<RecordToken>,
}

/// The first move among the properties from place `from` on.
pub open spec fn first_move(tokens: Seq<RecordToken>, from: int) -> Option<(Color, Action)>
    decreases tokens.len() - from,
{
    if from < 0 || from >= tokens.len() {
        None
    } else {
        match tokens[from] {
            RecordToken::Move(color, action) => Some((color, action)),
            RecordToken::Other => first_move(tokens, from + 1),
        }
    }
}

/// The moves of a line of nodes: of each node that holds a move its first,
/// in the order of the nodes.
pub open spec fn line_moves(nodes: Seq<Seq<RecordToken>>) -> Seq<(Color, Action)>
    decreases nodes.len(),
{
    if nodes.len() == 0 {
        Seq::empty()
    } else {
        match first_move(nodes.last(), 0) {
            Some(turn) => line_moves(nodes.drop_last()).push(turn),
            None => line_moves(nodes.drop_last()),
        }
    }
}

/// The properties of each node of a list.
pub open spec fn node_tokens(nodes: Seq<RecordNode>) -> Seq<Seq<RecordToken>> {
    Seq::new(nodes.len(), |i: int| nodes[i].tokens@)
}

impl RecordNode {
    /// The node's first move, if it holds one.
    pub fn find_move(&self) -> (res: Option<(Color, Action)>)
        ensures
            res == first_move(self.tokens@, 0),
    {
        let mut i: usize = 0;
        while i < self.tokens.len()
            invariant
                i <= self.tokens@.len(),
                first_move(self.tokens@, 0) == first_move(self.tokens@, i as int),
            decreases self.tokens@.len() - i,
        {
            match self.tokens[i] {
                RecordToken::Move(color, action) => {
                    return Some((color, action));
                },
                RecordToken::Other => {},
            }
            i = i + 1;
        }
        None
    }
}

/// Collects the moves of the game from the nodes of a record's main line.
pub fn extract_moves(nodes: &Vec<RecordNode>) -> (res: Vec<(Color, Action)>)
    ensures
        res@ == line_moves(node_tokens(nodes@)),
{
    let ghost lines = node_tokens(nodes@);
    let mut moves: Vec<(Color, Action)> = Vec::new();
    let mut i: usize = 0;
    assert(lines.take(0) =~= Seq::<Seq<RecordToken>>::empty());
    while i < nodes.len()
        invariant
            i <= nodes@.len(),
            lines == node_tokens(nodes@),
            moves@ == line_moves(lines.take(i as int)),
        decreases nodes@.len() - i,
    {
        proof {
            assert(lines.take(i + 1).drop_last() =~= lines.take(i as int));
            assert(lines.take(i + 1).last() == nodes@[i as int].tokens@);
        }
        match nodes[i].find_move() {
            Some(turn) => {
                moves.push(turn);
            },
            None => {},
        }
        i = i + 1;
    }
    assert(lines.take(nodes@.len() as int) =~= lines);
    moves
}

/// Why a text could not be read as a record.
#[derive(Clone, Copy, Debug, PartialEq, Eq, Structural)]
pub enum RecordError {
    /// A value that stands for a point of the board is written with a
    /// character that cannot stand for one.
    UnsafeValue,
    /// The text is not written as a record is.
    Malformed,
}

/// A node of a record as `sgf_parser` holds it.
#[verifier::external_type_specification]
#[verifier::external_body]
pub struct ExGameNode(sgf_parser::GameNode);

/// A record as `sgf_parser` holds it.
#[verifier::external_type_specification]
#[verifier::external_body]
pub struct ExGameTree(sgf_parser::GameTree);

/// Why `sgf_parser` could not read a text.
#[verifier::external_type_specification]
#[verifier::external_body]
pub struct ExSgfError(sgf_parser::SgfError);

/// The properties of the nodes of the main line of a tree of `sgf_parser`:
/// of the tree's own nodes, then of those of its first branch, and so on.
pub uninterp spec fn main_line_model(tree: sgf_parser::GameTree) -> Seq<Seq<RecordToken>>;

/// The properties of the nodes of the main line of the record that
/// `sgf_parser` reads from a text, where it reads one.
pub uninterp spec fn record_main_line(text: Seq<char>) -> Option<Seq<Seq<RecordToken>>>;

/// `sgf_parser::parse` reads a text as a record, and fails on a text that
/// is not written as one.  What it reads depends on the text alone.  It
/// tells the kind of a property by the capital letters of its name.  Of a
/// value of two bytes under `B`, `W`, `AB`, `AW`, `SQ` or `TR` it
/// subtracts 38 from each byte that is not above 96.  A value of four bytes
/// or more under `LB` it cuts after its second and after its third byte,
/// and subtracts from the first two in the same way.  In a safe text none
/// of these bytes is below 38, and the cuts fall between characters.
#[verifier::external_body]
fn parse_record(text: &str) -> (res: Result<sgf_parser::GameTree, sgf_parser::SgfError>)
    requires
        record_safe(text@),
    ensures
        match res {
            Ok(tree) => record_main_line(text@) == Some(main_line_model(tree)),
            Err(_) => record_main_line(text@) is None,
        },
{
    sgf_parser::parse(text)
}

/// `GameTree::iter` walks the nodes of the main line of a tree.  Each node
/// is copied property by property: a move as a move, anything else as
/// `Other`.
#[verifier::external_body]
fn main_line(tree: &sgf_parser::GameTree) -> (res: Vec<RecordNode>)
    ensures
        node_tokens(res@) == main_line_model(*tree),
{
    tree.iter().map(|node| RecordNode {
        tokens: node.tokens.iter().map(|token| match token {
            sgf_parser::SgfToken::Move { color, action } => RecordToken::Move(
                match color {
                    sgf_parser::Color::Black => Color::Black,
                    sgf_parser::Color::White => Color::White,
                },
                match action {
                    sgf_parser::Action::Move(x, y) => Action::Move(*x, *y),
                    sgf_parser::Action::Pass => Action::Pass,
                },
            ),
            _ => RecordToken::Other,
        }).collect(),
    }).collect()
}

/// The properties of the nodes of the main line of the record that a text
/// writes, or why the text is not read.
pub open spec fn record_lines(text: Seq<char>) -> Result<Seq<Seq<RecordToken>>, RecordError> {
    if !record_safe(text) {
        Err(RecordError::UnsafeValue)
    } else {
        match record_main_line(text) {
            Some(lines) => Ok(lines),
            None => Err(RecordError::Malformed),
        }
    }
}

/// Reads the nodes of the main line of a record.
pub fn read_record(text: &str) -> (res: Result<Vec<RecordNode>, RecordError>)
    ensures
        match record_lines(text@) {
            Ok(lines) => res is Ok && node_tokens(res->Ok_0@) == lines,
            Err(e) => res == Err::<Vec<RecordNode>, RecordError>(e),
        },
{
    if !is_record_safe(text) {
        return Err(RecordError::UnsafeValue);
    }
    match parse_record(text) {
        Ok(tree) => Ok(main_line(&tree)),
        Err(_) => Err(RecordError::Malformed),
    }
}

/// The moves of the game that a text records, or why the text is not read.
pub open spec fn record_moves(text: Seq<char>) -> Result<Seq<(Color, Action)>, RecordError> {
    match record_lines(text) {
        Ok(lines) => Ok(line_moves(lines)),
        Err(e) => Err(e),
    }
}

/// Reads the moves of the game that a text records.
pub fn read_moves(text: &str) -> (res: Result<Vec<(Color, Action)>, RecordError>)
    ensures
        match record_moves(text@) {
            Ok(moves) => res is Ok && res->Ok_0@ == moves,
            Err(e) => res == Err::<Vec<(Color, Action)>, RecordError>(e),
        },
{
    match read_record(text) {
        Ok(nodes) => Ok(extract_moves(&nodes)),
        Err(e) => Err(e),
    }
}

/// Whether every move of a tree, in its own line and in all its branches,
/// is a pass or a stone on the board.
pub open spec fn tree_on_board(tree: TreeModel) -> bool
    decreases tree,
{
    &&& forall|i: int| 0 <= i < tree.nodes.len() ==> (#[trigger] tree.nodes[i]).action.on_board()
    &&& forall|k: int|
        0 <= k < tree.variations.len() ==> tree_on_board(#[trigger] tree.variations[k])
}

/// The move and the note that a node of `sgf_parser` holds.
pub uninterp spec fn game_node_model(node: sgf_parser::GameNode) -> MoveModel;

/// The line and the branches that a tree of `sgf_parser` holds.
pub uninterp spec fn game_tree_model(tree: sgf_parser::GameTree) -> TreeModel;

/// The text that `sgf_parser` writes for a tree.
pub uninterp spec fn record_text(tree: TreeModel) -> Seq<char>;

/// What each node of a list holds.
pub open spec fn game_node_models(nodes: Seq<sgf_parser::GameNode>) -> Seq<MoveModel> {
    Seq::new(nodes.len(), |i: int| game_node_model(nodes[i]))
}

/// What each tree of a list holds.
pub open spec fn game_tree_models(trees: Seq<sgf_parser::GameTree>) -> Seq<TreeModel> {
    Seq::new(trees.len(), |i: int| game_tree_model(trees[i]))
}

/// Makes a node of `sgf_parser` with two properties: the move, and after it
/// the note, a property without a meaning to `sgf_parser` or a comment.
#[verifier::external_body]
fn game_node(played: &AnnotatedMove) -> (res: sgf_parser::GameNode)
    ensures
        game_node_model(res) == played@,
{
    let color = match played.color {
        Color::Black => sgf_parser::Color::Black,
        Color::White => sgf_parser::Color::White,
    };
    let action = match played.action {
        Action::Move(x, y) => sgf_parser::Action::Move(x, y),
        Action::Pass => sgf_parser::Action::Pass,
    };
    let note = match &played.annotation {
        Annotation::Property(name, value) => sgf_parser::SgfToken::Unknown(
            (name.clone(), value.clone()),
        ),
        Annotation::Comment(text) => sgf_parser::SgfToken::Comment(text.clone()),
    };
    sgf_parser::GameNode { tokens: vec![sgf_parser::SgfToken::Move { color, action }, note] }
}

/// Makes a tree of `sgf_parser` of the given nodes and branches.
#[verifier::external_body]
fn game_tree(nodes: Vec<sgf_parser::GameNode>, variations: Vec<sgf_parser::GameTree>) -> (res:
    sgf_parser::GameTree)
    ensures
        game_tree_model(res) == (TreeModel {
            nodes: game_node_models(nodes@),
            variations: game_tree_models(variations@),
        }),
{
    sgf_parser::GameTree { nodes, variations }
}

/// The conversion of a tree of `sgf_parser` into a `String` writes the
/// record.  What it writes depends on the tree alone.  It writes the
/// column and the row of a stone as one letter each, which it finds by
/// adding to the number: the stone has to lie on the board.
#[verifier::external_body]
fn game_tree_text(tree: &sgf_parser::GameTree) -> (res: String)
    requires
        tree_on_board(game_tree_model(*tree)),
    ensures
        res@ == record_text(game_tree_model(*tree)),
{
    tree.into()
}

/// Builds the tree of `sgf_parser` that holds what `tree` holds.
fn to_game_tree(tree: &AnnotatedTree) -> (res: sgf_parser::GameTree)
    ensures
        game_tree_model(res) == tree@,
    decreases tree,
{
    let mut nodes: Vec<sgf_parser::GameNode> = Vec::new();
    let mut i: usize = 0;
    while i < tree.nodes.len()
        invariant
            i <= tree.nodes@.len(),
            nodes@.len() == i,
            forall|k: int| 0 <= k < i ==> game_node_model(#[trigger] nodes@[k]) == tree.nodes@[k]@,
        decreases tree.nodes@.len() - i,
    {
        nodes.push(game_node(&tree.nodes[i]));
        i = i + 1;
    }
    let mut variations: Vec<sgf_parser::GameTree> = Vec::new();
    let mut k: usize = 0;
    while k < tree.variations.len()
        invariant
            k <= tree.variations@.len(),
            variations@.len() == k,
            forall|j: int|
                0 <= j < k ==> game_tree_model(#[trigger] variations@[j]) == tree.variations@[j]@,
        decreases tree.variations@.len() - k,
    {
        variations.push(to_game_tree(&tree.variations[k]));
        k = k + 1;
    }
    proof {
        assert(game_node_models(nodes@) =~= tree@.nodes);
        assert(game_tree_models(variations@) =~= tree@.variations);
    }
    game_tree(nodes, variations)
}

/// Writes an annotated tree as a game record.
pub fn write_record(tree: &AnnotatedTree) -> (res: String)
    requires
        tree_on_board(tree@),
    ensures
        res@ == record_text(tree@),
{
    let outside = to_game_tree(tree);
    game_tree_text(&outside)
}

impl AnnotatedTree {
    /// Tests whether every move of the tree is a pass or a stone on the
    /// board.
    pub fn is_on_board(&self) -> (res: bool)
        ensures
            res == tree_on_board(self@),
        decreases self,
    {
        let mut i: usize = 0;
        while i < self.nodes.len()
            invariant
                i <= self.nodes@.len(),
                forall|k: int| 0 <= k < i ==> (#[trigger] self@.nodes[k]).action.on_board(),
            decreases self.nodes@.len() - i,
        {
            if !self.nodes[i].action.is_on_board() {
                assert(!self@.nodes[i as int].action.on_board());
                return false;
            }
            i = i + 1;
        }
        let mut k: usize = 0;
        while k < self.variations.len()
            invariant
                k <= self.variations@.len(),
                forall|j: int| 0 <= j < self@.nodes.len() ==> (#[trigger] self@.nodes[j]).action.on_board(),
                forall|j: int| 0 <= j < k ==> tree_on_board(#[trigger] self@.variations[j]),
            decreases self.variations@.len() - k,
        {
            if !self.variations[k].is_on_board() {
                assert(!tree_on_board(self@.variations[k as int]));
                return false;
            }
            k = k + 1;
        }
        true
    }
}

} // verus!
