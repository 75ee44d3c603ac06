use sgf_annotate::coord::{Action, CodecError, Color};
use sgf_annotate::merge::{annotate, swing_indices, turn_order, MergeError};
use sgf_annotate::number::parse_winrate;
use sgf_annotate::response::{MoveInfo, Response};
use sgf_annotate::tree::{AnnotatedMove, AnnotatedTree, Annotation};
use sgf_annotate::winrate::Winrate;

fn rate(text: &str) -> Winrate {
    parse_winrate(text).unwrap()
}

fn candidate(rank: usize, visits: usize, line: &[&str]) -> MoveInfo {
    MoveInfo {
        move_location: line.first().map(|s| s.to_string()).unwrap_or_default(),
        rank,
        primary_variation: line.iter().map(|s| s.to_string()).collect(),
        visits,
        winrate: rate("0.5"),
    }
}

fn response(turn: usize, winrate: &str, move_infos: Vec<MoveInfo>) -> Response {
    Response { move_infos, root_visits: 100, winrate: rate(winrate), turn_number: turn }
}

fn plain(rates: &[&str]) -> Vec<Response> {
    rates.iter().enumerate().map(|(i, r)| response(i, r, vec![])).collect()
}

fn played(color: Color, action: Action, percent: &str) -> AnnotatedMove {
    AnnotatedMove {
        color,
        action,
        annotation: Annotation::Property("SBKV".to_string(), percent.to_string()),
    }
}

fn proposed(color: Color, action: Action, comment: &str) -> AnnotatedMove {
    AnnotatedMove { color, action, annotation: Annotation::Comment(comment.to_string()) }
}

fn game(n: usize) -> Vec<(Color, Action)> {
    (0..n)
        .map(|i| {
            let color = if i % 2 == 0 { Color::Black } else { Color::White };
            (color, Action::Move(i as u8 + 1, i as u8 + 2))
        })
        .collect()
}

fn main_line(tree: &AnnotatedTree) -> Vec<(usize, &AnnotatedMove)> {
    let mut out = vec![];
    let mut depth = 0;
    let mut at = tree;
    loop {
        for node in &at.nodes {
            out.push((depth, node));
        }
        match at.variations.first() {
            Some(next) => {
                at = next;
                depth += 1;
            }
            None => return out,
        }
    }
}

#[test]
fn one_swing_among_four_responses() {
    let responses = plain(&["0.5", "0.5", "0.65", "0.64"]);
    assert_eq!(swing_indices(&responses, rate("0.1")), vec![1]);
}

#[test]
fn a_gap_of_exactly_the_threshold_is_no_swing() {
    let responses = plain(&["0.5", "0.6", "0.5", "0.39", "0.5"]);
    assert_eq!(swing_indices(&responses, rate("0.1")), vec![2, 3]);
    assert_eq!(swing_indices(&plain(&[]), rate("0.1")), Vec::<usize>::new());
    assert_eq!(swing_indices(&plain(&["0.5"]), rate("0.1")), Vec::<usize>::new());
}

#[test]
fn a_game_without_swings_is_one_line() {
    let moves = game(3);
    let tree = annotate(&moves, &plain(&["0.5", "0.55", "0.5"]), rate("0.1")).unwrap();
    assert_eq!(
        tree,
        AnnotatedTree {
            nodes: vec![
                played(Color::Black, Action::Move(1, 2), "50"),
                played(Color::White, Action::Move(2, 3), "55"),
                played(Color::Black, Action::Move(3, 4), "50"),
            ],
            variations: vec![],
        }
    );
}

#[test]
fn no_moves_give_the_empty_tree() {
    let tree = annotate(&vec![], &vec![], rate("0.1")).unwrap();
    assert_eq!(tree, AnnotatedTree { nodes: vec![], variations: vec![] });
}

#[test]
fn a_swing_branches_into_the_game_and_the_proposed_lines() {
    let moves = game(4);
    let mut responses = plain(&["0.5", "0.5", "0.65", "0.64"]);
    responses[1].move_infos =
        vec![candidate(0, 120, &["D4", "Q16", "PASS"]), candidate(1, 30, &["C3"])];
    let tree = annotate(&moves, &responses, rate("0.1")).unwrap();
    let first = "Black winrate: 0.5 Visits: 120";
    let second = "Black winrate: 0.5 Visits: 30";
    assert_eq!(
        tree,
        AnnotatedTree {
            nodes: vec![
                played(Color::Black, Action::Move(1, 2), "50"),
                played(Color::White, Action::Move(2, 3), "50"),
            ],
            variations: vec![
                AnnotatedTree {
                    nodes: vec![
                        played(Color::Black, Action::Move(3, 4), "65"),
                        played(Color::White, Action::Move(4, 5), "64"),
                    ],
                    variations: vec![],
                },
                AnnotatedTree {
                    nodes: vec![
                        proposed(Color::Black, Action::Move(4, 16), first),
                        proposed(Color::White, Action::Move(16, 4), first),
                        proposed(Color::Black, Action::Pass, first),
                    ],
                    variations: vec![],
                },
                AnnotatedTree {
                    nodes: vec![proposed(Color::Black, Action::Move(3, 17), second)],
                    variations: vec![],
                },
            ],
        }
    );
}

#[test]
fn at_most_three_lines_are_shown() {
    let moves = game(2);
    for count in 0..6usize {
        let mut responses = plain(&["0.2", "0.9"]);
        responses[0].move_infos =
            (0..count).map(|k| candidate(k, 10 + k, &["A1", "B2"])).collect();
        let tree = annotate(&moves, &responses, rate("0.1")).unwrap();
        assert_eq!(tree.nodes.len(), 1);
        assert_eq!(tree.variations.len(), 1 + count.min(3));
        for (k, branch) in tree.variations.iter().skip(1).enumerate() {
            let comment = format!("Black winrate: 0.2 Visits: {}", 10 + k);
            assert_eq!(
                branch.nodes,
                vec![
                    proposed(Color::White, Action::Move(1, 19), &comment),
                    proposed(Color::Black, Action::Move(2, 18), &comment),
                ]
            );
            assert!(branch.variations.is_empty());
        }
    }
}

#[test]
fn an_empty_line_gives_an_empty_branch() {
    let moves = game(2);
    let mut responses = plain(&["0.2", "0.9"]);
    responses[0].move_infos = vec![candidate(0, 5, &[]), candidate(1, 4, &["PASS"])];
    let tree = annotate(&moves, &responses, rate("0.1")).unwrap();
    assert_eq!(tree.variations.len(), 3);
    assert_eq!(tree.variations[1], AnnotatedTree { nodes: vec![], variations: vec![] });
    assert_eq!(tree.variations[2].nodes.len(), 1);
    assert_eq!(responses[0].get_variations(Color::Black).unwrap()[0].nodes.len(), 0);
}

#[test]
fn swings_next_to_each_other_nest() {
    let moves = game(5);
    let mut responses = plain(&["0.5", "0.9", "0.1", "0.1", "0.8"]);
    responses[0].move_infos = vec![candidate(0, 1, &["A1"])];
    responses[1].move_infos = vec![candidate(0, 2, &["B1"]), candidate(1, 3, &["C1"])];
    let threshold = rate("0.1");
    assert_eq!(swing_indices(&responses, threshold), vec![0, 1, 3]);
    let tree = annotate(&moves, &responses, threshold).unwrap();
    assert_eq!(tree.nodes.len(), 1);
    assert_eq!(tree.variations.len(), 2);
    let second = &tree.variations[0];
    assert_eq!(second.nodes, vec![played(Color::White, Action::Move(2, 3), "90")]);
    assert_eq!(second.variations.len(), 3);
    let third = &second.variations[0];
    assert_eq!(third.nodes.len(), 2);
    assert_eq!(third.variations.len(), 1);
    let last = &third.variations[0];
    assert_eq!(last.nodes, vec![played(Color::Black, Action::Move(5, 6), "80")]);
    assert!(last.variations.is_empty());
}

#[test]
fn every_move_stands_once_on_the_main_line() {
    let moves = game(7);
    let responses = plain(&["0.5", "0.9", "0.85", "0.1", "0.1", "0.8", "0.75"]);
    let threshold = rate("0.1");
    let swings = swing_indices(&responses, threshold);
    assert_eq!(swings, vec![0, 2, 4]);
    let tree = annotate(&moves, &responses, threshold).unwrap();
    let line = main_line(&tree);
    assert_eq!(line.len(), moves.len());
    for (i, (depth, node)) in line.iter().enumerate() {
        assert_eq!((node.color, node.action), moves[i]);
        assert_eq!(node.annotation, Annotation::Property("SBKV".to_string(), responses[i].winrate.to_percent_text()));
        assert_eq!(*depth, swings.iter().filter(|s| **s < i).count());
    }
}

#[test]
fn responses_are_taken_in_the_order_of_their_turns() {
    let moves = game(4);
    let mut ordered = plain(&["0.5", "0.5", "0.65", "0.64"]);
    ordered[1].move_infos = vec![candidate(0, 9, &["D4"])];
    let expected = annotate(&moves, &ordered, rate("0.1")).unwrap();
    let mut shuffled = plain(&["0.65", "0.5", "0.64", "0.5"]);
    shuffled[0].turn_number = 2;
    shuffled[1].turn_number = 0;
    shuffled[2].turn_number = 3;
    shuffled[3].turn_number = 1;
    shuffled[3].move_infos = vec![candidate(0, 9, &["D4"])];
    assert_eq!(turn_order(&shuffled), Ok(vec![1, 3, 0, 2]));
    assert_eq!(annotate(&moves, &shuffled, rate("0.1")).unwrap(), expected);
}

#[test]
fn five_moves_and_four_responses_do_not_merge() {
    let result = annotate(&game(5), &plain(&["0.5", "0.5", "0.9", "0.5"]), rate("0.1"));
    assert_eq!(result, Err(MergeError::LengthMismatch));
    let result = annotate(&game(3), &plain(&["0.5", "0.5", "0.9", "0.5"]), rate("0.1"));
    assert_eq!(result, Err(MergeError::LengthMismatch));
}

#[test]
fn a_turn_beyond_the_game_does_not_merge() {
    let mut responses = plain(&["0.5", "0.5", "0.5"]);
    responses[2].turn_number = 3;
    assert_eq!(annotate(&game(3), &responses, rate("0.1")), Err(MergeError::TurnIndexOutOfRange));
    assert_eq!(turn_order(&responses), Err(MergeError::TurnIndexOutOfRange));
}

#[test]
fn a_turn_without_a_response_does_not_merge() {
    let mut responses = plain(&["0.5", "0.5", "0.5"]);
    responses[2].turn_number = 1;
    assert_eq!(annotate(&game(3), &responses, rate("0.1")), Err(MergeError::TurnIndexMissing));
    assert_eq!(turn_order(&responses), Err(MergeError::TurnIndexMissing));
}

#[test]
fn an_unreadable_label_at_a_swing_does_not_merge() {
    let moves = game(3);
    let mut responses = plain(&["0.5", "0.9", "0.9"]);
    responses[0].move_infos = vec![candidate(0, 1, &["D4", "Z9"])];
    assert_eq!(annotate(&moves, &responses, rate("0.1")), Err(MergeError::UnreadableLabel));
    assert_eq!(responses[0].get_variations(Color::White), Err(CodecError::UnknownColumn));
    responses[0].move_infos = vec![candidate(0, 1, &["D4"]), candidate(1, 1, &["D40"])];
    assert_eq!(responses[0].get_variations(Color::White), Err(CodecError::InvalidRow));
    responses[0].move_infos = vec![
        candidate(0, 1, &["D4"]),
        candidate(1, 1, &["D5"]),
        candidate(2, 1, &["D6"]),
        candidate(3, 1, &["Z9"]),
    ];
    assert!(annotate(&moves, &responses, rate("0.1")).is_ok());
    let mut responses = plain(&["0.5", "0.5", "0.5"]);
    responses[0].move_infos = vec![candidate(0, 1, &["Z9"])];
    assert!(annotate(&moves, &responses, rate("0.1")).is_ok());
}
