use sgf_annotate::coord::{Action, Color};
use sgf_annotate::decode::json;
use sgf_annotate::merge::{annotate, MergeError};
use sgf_annotate::number::parse_winrate;
use sgf_annotate::pipeline::{annotate_record, build_query, wrap_lines, PipelineError, SWING_THRESHOLD};
use sgf_annotate::json::DecodeError;
use sgf_annotate::record::{
    extract_moves, read_moves, read_record, write_record, RecordError, RecordNode, RecordToken,
};
use sgf_annotate::scan::is_record_safe;
use sgf_annotate::tree::{AnnotatedMove, AnnotatedTree, Annotation};
use sgf_annotate::winrate::Winrate;

fn nodes_of(record: &str) -> Vec<RecordNode> {
    let tree = sgf_parser::parse(record).unwrap();
    tree.iter()
        .map(|node| RecordNode {
            tokens: node
                .tokens
                .iter()
                .map(|token| match token {
                    sgf_parser::SgfToken::Move { color, action } => RecordToken::Move(
                        match color {
                            sgf_parser::Color::Black => Color::Black,
                            sgf_parser::Color::White => Color::White,
                        },
                        match action {
                            sgf_parser::Action::Move(x, y) => Action::Move(*x, *y),
                            sgf_parser::Action::Pass => Action::Pass,
                        },
                    ),
                    _ => RecordToken::Other,
                })
                .collect(),
        })
        .collect()
}

fn line(turn: usize, winrate: &str, infos: &str) -> String {
    format!(
        "{{\"id\":\"test\",\"turnNumber\":{},\"rootInfo\":{{\"visits\":100,\"winrate\":{}}},\"moveInfos\":[{}]}}",
        turn, winrate, infos
    )
}

fn info(order: usize, visits: usize, pv: &[&str]) -> String {
    let labels: Vec<String> = pv.iter().map(|l| format!("\"{}\"", l)).collect();
    format!(
        "{{\"move\":\"{}\",\"order\":{},\"pv\":[{}],\"visits\":{},\"winrate\":0.5}}",
        pv[0],
        order,
        labels.join(","),
        visits
    )
}

fn threshold() -> Winrate {
    Winrate { units: SWING_THRESHOLD }
}

const RECORD: &str = "(;GM[1]SZ[19]PB[a b];B[dd];W[pp]C[a comment];B[dp];W[pd])";

#[test]
fn moves_are_the_first_of_each_node_that_has_one() {
    let nodes = vec![
        RecordNode { tokens: vec![RecordToken::Other, RecordToken::Other] },
        RecordNode { tokens: vec![RecordToken::Move(Color::Black, Action::Move(4, 4))] },
        RecordNode { tokens: vec![] },
        RecordNode {
            tokens: vec![
                RecordToken::Other,
                RecordToken::Move(Color::White, Action::Pass),
                RecordToken::Move(Color::Black, Action::Move(1, 1)),
            ],
        },
        RecordNode { tokens: vec![RecordToken::Move(Color::White, Action::Move(16, 16))] },
    ];
    assert_eq!(
        extract_moves(&nodes),
        vec![
            (Color::Black, Action::Move(4, 4)),
            (Color::White, Action::Pass),
            (Color::White, Action::Move(16, 16)),
        ]
    );
    assert_eq!(extract_moves(&vec![]), vec![]);
}

#[test]
fn moves_of_a_parsed_record() {
    assert_eq!(
        extract_moves(&nodes_of(RECORD)),
        vec![
            (Color::Black, Action::Move(4, 4)),
            (Color::White, Action::Move(16, 16)),
            (Color::Black, Action::Move(4, 16)),
            (Color::White, Action::Move(16, 4)),
        ]
    );
}

#[test]
fn a_record_is_read_as_the_parser_reads_it() {
    for record in [
        RECORD,
        "()",
        "(;)",
        "(;B[dd](;W[pp];B[dp])(;W[dp]))",
        "(;GM[1]FF[4]SZ[19]KM[6.5]PB[Black]PW[White]C[a comment \\] with a bracket];B[aa]C[ x];W[];B[tt])",
        "(;AB[aa][bb]AW[cc]LB[dd:a label]SQ[ee]TR[ff];B[dd]\n;W[pp] ;B [dp])",
        "(;C[\u{9ed2}\u{306e}\u{52dd}\u{3061}]PB[\u{674e}];B[dd]LB[dd:\u{9ed2}])",
    ] {
        assert_eq!(read_record(record), Ok(nodes_of(record)), "{}", record);
    }
    assert_eq!(
        read_moves("(;B[dd];W[];C[x](;B[aa])(;B[bb]))"),
        Ok(vec![
            (Color::Black, Action::Move(4, 4)),
            (Color::White, Action::Pass),
            (Color::Black, Action::Move(1, 1)),
        ])
    );
}

#[test]
fn a_text_that_is_no_record_is_refused() {
    for text in ["", "B[dd]", "(;B[dd]", ";B[dd])", "(;B[dd]1)", " (;B[dd])", "(;B[dd]\t;W[pp])"] {
        assert!(is_record_safe(text), "{}", text);
        assert_eq!(read_record(text), Err(RecordError::Malformed), "{}", text);
    }
}

#[test]
fn a_point_written_with_other_than_letters_is_refused() {
    for text in [
        "(;B[  ])",
        "(;W[a!])",
        "(;W[#a])",
        "(;AB[aa][ b])",
        "(;A B[ b])",
        "(;aAbBc[\n\n])",
        "(;SQ[\u{0}\u{0}])",
        "(;TR[a$])",
        "(;LB[a\u{e9}:x])",
        "(;LB[\u{1d11e}])",
        "(;LB[aa\u{e9}])",
        "(;LB[a :label])",
        "(;LaBel[a\u{e9}:x])",
        "(;C[x]B[ a])",
        "(;B[aa] [ a])",
    ] {
        assert!(!is_record_safe(text), "{}", text);
        assert_eq!(read_record(text), Err(RecordError::UnsafeValue), "{}", text);
    }
    for text in [
        "(;C[  ]PB[ a]GN[!!])",
        "(;B[aa]C[ a])",
        "(;B[aa]x[ a])",
        "(;B[aa];[ a])",
        "(;B[abc !])",
        "(;B[\u{e9}])",
        "(;B[\\]])",
        "(;LB[aa: \u{e9}])",
        "(;BL[ 1])",
        "(;ABC[  ])",
    ] {
        assert!(is_record_safe(text), "{}", text);
        assert_eq!(read_record(text).is_ok(), sgf_parser::parse(text).is_ok(), "{}", text);
    }
}

#[test]
fn every_safe_text_is_read_without_a_failure() {
    let alphabet = ['(', ')', ';', 'B', 'L', 'a', '[', ']', '\\', ' ', '!', '\u{e9}', ':'];
    let mut texts: Vec<String> = vec![String::new()];
    let mut from = 0;
    for _ in 0..4 {
        let upto = texts.len();
        for i in from..upto {
            for c in alphabet {
                let mut longer = texts[i].clone();
                longer.push(c);
                texts.push(longer);
            }
        }
        from = upto;
    }
    let mut read = 0;
    for body in &texts {
        for text in [format!("(;{})", body), format!("(;LB[{}", body), format!("(;B[a]AB{}", body)] {
            if is_record_safe(&text) {
                assert_eq!(read_record(&text).ok(), sgf_parser::parse(&text).ok().map(|_| nodes_of(&text)));
                read += 1;
            } else {
                assert_eq!(read_record(&text), Err(RecordError::UnsafeValue));
            }
        }
    }
    assert!(read > 50_000);
}

#[test]
fn the_query_of_a_parsed_record() {
    assert_eq!(
        build_query("test", RECORD).unwrap(),
        "{\"id\":\"test\",\"moves\":[[\"B\",\"D16\"],[\"W\",\"Q4\"],[\"B\",\"D4\"],[\"W\",\"Q16\"]],\"rules\":\"japanese\",\"komi\":6.5,\"boardXSize\":19,\"boardYSize\":19,\"analyzeTurns\":[0,1,2,3]}\n"
    );
    assert_eq!(build_query("test", "(;B[dd];W[tt])"), Err(PipelineError::OffBoard));
    assert_eq!(
        build_query("test", "(;B[dd];W[pp]"),
        Err(PipelineError::Record(RecordError::Malformed))
    );
    assert_eq!(
        build_query("test", "(;B[dd];W[p ])"),
        Err(PipelineError::Record(RecordError::UnsafeValue))
    );
}

#[test]
fn output_lines_become_one_list() {
    assert_eq!(wrap_lines("{\"a\":1}\n{\"b\":2}\n"), "[{\"a\":1},{\"b\":2}]");
    assert_eq!(wrap_lines("  \n{\"a\":1}\n\n{\"b\":2}\t\r\n "), "[{\"a\":1},,{\"b\":2}]");
    assert_eq!(wrap_lines("x"), "[x]");
    assert_eq!(wrap_lines(""), "[]");
    assert_eq!(wrap_lines(" \n\u{3000}\u{a0}"), "[]");
    assert_eq!(wrap_lines("\u{2003}a b\u{85}"), "[a b]");
    for text in ["", " a\nb ", "\n\n", "{\"a\":1}\n{\"b\":2}\n", "\u{1680}é\n\u{200b}\n"] {
        let lines: Vec<&str> = text.trim().split('\n').collect();
        assert_eq!(wrap_lines(text), format!("[{}]", lines.join(",")));
    }
}

#[test]
fn a_tree_is_written_as_a_record() {
    let tree = AnnotatedTree {
        nodes: vec![
            AnnotatedMove {
                color: Color::Black,
                action: Action::Move(4, 16),
                annotation: Annotation::Property("SBKV".to_string(), "50".to_string()),
            },
            AnnotatedMove {
                color: Color::White,
                action: Action::Pass,
                annotation: Annotation::Property("SBKV".to_string(), "43.75".to_string()),
            },
        ],
        variations: vec![
            AnnotatedTree { nodes: vec![], variations: vec![] },
            AnnotatedTree {
                nodes: vec![AnnotatedMove {
                    color: Color::Black,
                    action: Action::Move(19, 1),
                    annotation: Annotation::Comment("a remark".to_string()),
                }],
                variations: vec![],
            },
        ],
    };
    assert!(tree.is_on_board());
    let text = write_record(&tree);
    assert_eq!(text, "(;B[dp]SBKV[50];SBKV[43.75]W[]()(;B[sa]C[a remark]))");
    assert_eq!(write_record(&AnnotatedTree { nodes: vec![], variations: vec![] }), "()");
}

#[test]
fn a_tree_with_a_stone_beyond_the_board_is_told_apart() {
    let stone = |action| AnnotatedMove {
        color: Color::Black,
        action,
        annotation: Annotation::Comment(String::new()),
    };
    let inner = AnnotatedTree { nodes: vec![stone(Action::Move(20, 1))], variations: vec![] };
    let tree = AnnotatedTree { nodes: vec![stone(Action::Move(1, 1))], variations: vec![inner] };
    assert!(!tree.is_on_board());
    assert!(!tree.variations[0].is_on_board());
    let tree = AnnotatedTree { nodes: vec![stone(Action::Move(1, 0))], variations: vec![] };
    assert!(!tree.is_on_board());
}

#[test]
fn a_record_is_annotated_from_the_output_of_the_engine() {
    let output = [
        line(2, "0.65", ""),
        line(0, "0.5", ""),
        line(3, "0.64", ""),
        line(1, "0.5", &[info(0, 120, &["D4", "Q16"]), info(1, 30, &["PASS"])].join(",")),
    ]
    .join("\n")
        + "\n";
    let nodes = nodes_of(RECORD);
    let listed = wrap_lines(&output);
    let responses = json(&listed).unwrap();
    let tree = annotate(&extract_moves(&nodes), &responses, threshold()).unwrap();
    assert_eq!(tree.nodes.len(), 2);
    assert_eq!((tree.nodes[0].color, tree.nodes[0].action), (Color::Black, Action::Move(4, 4)));
    assert_eq!((tree.nodes[1].color, tree.nodes[1].action), (Color::White, Action::Move(16, 16)));
    assert_eq!(tree.variations.len(), 3);
    assert_eq!(tree.variations[0].nodes.len(), 2);
    assert!(tree.variations[0].variations.is_empty());
    let first = "Black winrate: 0.5 Visits: 120".to_string();
    assert_eq!(
        tree.variations[1],
        AnnotatedTree {
            nodes: vec![
                AnnotatedMove {
                    color: Color::Black,
                    action: Action::Move(4, 16),
                    annotation: Annotation::Comment(first.clone()),
                },
                AnnotatedMove {
                    color: Color::White,
                    action: Action::Move(16, 4),
                    annotation: Annotation::Comment(first),
                },
            ],
            variations: vec![],
        }
    );
    assert_eq!(
        tree.variations[2],
        AnnotatedTree {
            nodes: vec![AnnotatedMove {
                color: Color::Black,
                action: Action::Pass,
                annotation: Annotation::Comment("Black winrate: 0.5 Visits: 30".to_string()),
            }],
            variations: vec![],
        }
    );
    let text = annotate_record(RECORD, &listed, threshold()).unwrap();
    assert_eq!(text, write_record(&tree));
    assert_eq!(
        text,
        "(;B[dd]SBKV[50];SBKV[50]W[pp](;B[dp]SBKV[65];SBKV[64]W[pd])(;B[dp]C[Black winrate: 0.5 Visits: 120];C[Black winrate: 0.5 Visits: 120]W[pd])(;B[]C[Black winrate: 0.5 Visits: 30]))"
    );
    let read_back = sgf_parser::parse(&text).unwrap();
    assert_eq!(read_back.nodes.len(), 2);
    assert_eq!(read_back.variations.len(), 3);
    assert_eq!(extract_moves(&nodes_of(&text)), extract_moves(&nodes));
}

#[test]
fn a_record_is_not_annotated_from_too_few_responses() {
    let record = "(;B[dd];W[pp];B[dp];W[pd];B[jj])";
    let output = [line(0, "0.5", ""), line(1, "0.5", ""), line(2, "0.9", ""), line(3, "0.5", "")];
    let listed = wrap_lines(&output.join("\n"));
    assert_eq!(
        annotate_record(record, &listed, threshold()),
        Err(PipelineError::Merge(MergeError::LengthMismatch))
    );
}

#[test]
fn each_kind_of_fault_is_reported_as_its_own() {
    let record = "(;B[dd];W[pp])";
    let good = wrap_lines(&[line(1, "0.5", ""), line(0, "0.5", "")].join("\n"));
    assert!(annotate_record(record, &good, threshold()).is_ok());
    assert_eq!(
        annotate_record("(;B[dd];W[pp]", &good, threshold()),
        Err(PipelineError::Record(RecordError::Malformed))
    );
    assert_eq!(
        annotate_record("(;B[dd];W[!!])", &good, threshold()),
        Err(PipelineError::Record(RecordError::UnsafeValue))
    );
    let off = "(;B[dd];W[zz])";
    assert_eq!(annotate_record(off, &good, threshold()), Err(PipelineError::OffBoard));
    assert_eq!(annotate_record(off, "?", threshold()), Err(PipelineError::OffBoard));
    assert_eq!(
        annotate_record(record, &[line(1, "0.5", ""), line(0, "0.5", "")].join("\n"), threshold()),
        Err(PipelineError::Decode(DecodeError::Syntax))
    );
    assert_eq!(
        annotate_record(record, "[{\"turnNumber\":0}]", threshold()),
        Err(PipelineError::Decode(DecodeError::RootVisits))
    );
    let twice = wrap_lines(&[line(1, "0.5", ""), line(1, "0.5", "")].join("\n"));
    assert_eq!(
        annotate_record(record, &twice, threshold()),
        Err(PipelineError::Merge(MergeError::TurnIndexMissing))
    );
    let beyond = wrap_lines(&[line(1, "0.5", ""), line(2, "0.5", "")].join("\n"));
    assert_eq!(
        annotate_record(record, &beyond, threshold()),
        Err(PipelineError::Merge(MergeError::TurnIndexOutOfRange))
    );
    let unreadable = wrap_lines(
        &[line(0, "0.1", &info(0, 1, &["D4", "pass"])), line(1, "0.5", "")].join("\n"),
    );
    assert_eq!(
        annotate_record(record, &unreadable, threshold()),
        Err(PipelineError::Merge(MergeError::UnreadableLabel))
    );
    assert!(annotate_record(record, &unreadable, parse_winrate("0.4").unwrap()).is_ok());
}
