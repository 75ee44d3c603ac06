use sgf_annotate::decode::json;
use sgf_annotate::json::{parse_json, DecodeError, Json, Member};
use sgf_annotate::response::{MoveInfo, Response};
use sgf_annotate::winrate::Winrate;

fn one(fields: &str) -> String {
    format!("[{{{}}}]", fields)
}

const WHOLE: &str = r#""turnNumber":3,"rootInfo":{"visits":500,"winrate":0.4375,"scoreLead":1.5},"moveInfos":[{"move":"D4","order":0,"pv":["D4","Q16"],"visits":120,"winrate":0.5},{"move":"PASS","order":1,"pv":[],"visits":3,"winrate":1e-7}]"#;

#[test]
fn a_document_is_read_into_plain_values() {
    let document = parse_json(r#"{"b":[1,-2.50,"x",null,true],"a":{}}"#).unwrap();
    assert_eq!(
        document,
        Json::Object(vec![
            Member { name: "a".to_string(), value: Json::Object(vec![]) },
            Member {
                name: "b".to_string(),
                value: Json::Array(vec![
                    Json::Number("1".to_string()),
                    Json::Number("-2.5".to_string()),
                    Json::Text("x".to_string()),
                    Json::Null,
                    Json::Bool(true),
                ]),
            },
        ])
    );
    assert_eq!(parse_json("{"), Err(DecodeError::Syntax));
    assert_eq!(parse_json(""), Err(DecodeError::Syntax));
    assert_eq!(parse_json("[1] [2]"), Err(DecodeError::Syntax));
}

#[test]
fn a_response_is_read_with_all_its_fields() {
    let responses = json(&one(WHOLE)).unwrap();
    assert_eq!(
        responses,
        vec![Response {
            move_infos: vec![
                MoveInfo {
                    move_location: "D4".to_string(),
                    rank: 0,
                    primary_variation: vec!["D4".to_string(), "Q16".to_string()],
                    visits: 120,
                    winrate: Winrate { units: 500_000_000_000_000_000 },
                },
                MoveInfo {
                    move_location: "PASS".to_string(),
                    rank: 1,
                    primary_variation: vec![],
                    visits: 3,
                    winrate: Winrate { units: 100_000_000_000 },
                },
            ],
            root_visits: 500,
            winrate: Winrate { units: 437_500_000_000_000_000 },
            turn_number: 3,
        }]
    );
}

#[test]
fn responses_keep_the_order_of_the_document() {
    let text = format!("[{{{}}},{{{}}}]", WHOLE.replace(":3,", ":7,"), WHOLE);
    let responses = json(&text).unwrap();
    assert_eq!(responses.len(), 2);
    assert_eq!(responses[0].turn_number, 7);
    assert_eq!(responses[1].turn_number, 3);
    assert_eq!(json("[]"), Ok(vec![]));
}

#[test]
fn a_text_that_is_no_list_is_refused() {
    assert_eq!(json("not json"), Err(DecodeError::Syntax));
    assert_eq!(json(&format!("{{{}}}\n{{{}}}", WHOLE, WHOLE)), Err(DecodeError::Syntax));
    assert_eq!(json(&format!("{{{}}}", WHOLE)), Err(DecodeError::NotAList));
    assert_eq!(json("3"), Err(DecodeError::NotAList));
    assert_eq!(json("[3]"), Err(DecodeError::TurnNumber));
}

#[test]
fn each_missing_or_mistyped_field_is_named() {
    let cases = [
        (r#""turnNumber":3,"#, r#""turn":3,"#, DecodeError::TurnNumber),
        (r#""turnNumber":3,"#, r#""turnNumber":-3,"#, DecodeError::TurnNumber),
        (r#""turnNumber":3,"#, r#""turnNumber":3.0,"#, DecodeError::TurnNumber),
        (r#""turnNumber":3,"#, r#""turnNumber":"3","#, DecodeError::TurnNumber),
        (r#""rootInfo":{"#, r#""root":{"#, DecodeError::RootVisits),
        (r#""visits":500"#, r#""visits":null"#, DecodeError::RootVisits),
        (r#""winrate":0.4375"#, r#""winrate":"0.4375""#, DecodeError::RootWinrate),
        (r#""winrate":0.4375"#, r#""winrate":1.5"#, DecodeError::RootWinrate),
        (r#""winrate":0.4375"#, r#""winrate":-0.1"#, DecodeError::RootWinrate),
        (r#""moveInfos":["#, r#""moves":["#, DecodeError::MoveInfos),
        (r#""move":"D4""#, r#""move":4"#, DecodeError::Move),
        (r#""order":0"#, r#""rank":0"#, DecodeError::Order),
        (r#""pv":["D4","Q16"]"#, r#""pv":"D4 Q16""#, DecodeError::PrincipalVariation),
        (r#""pv":["D4","Q16"]"#, r#""pv":["D4",16]"#, DecodeError::PrincipalVariation),
        (r#""visits":120"#, r#""visits":1.2e2"#, DecodeError::Visits),
        (r#""winrate":0.5}"#, r#""winrate":true}"#, DecodeError::Winrate),
        (r#""winrate":1e-7"#, r#""winrate":2"#, DecodeError::Winrate),
    ];
    for (from, to, error) in cases {
        assert!(WHOLE.contains(from), "{}", from);
        assert_eq!(json(&one(&WHOLE.replacen(from, to, 1))), Err(error), "{}", to);
    }
}

#[test]
fn the_first_fault_is_the_one_reported() {
    let broken = WHOLE.replacen(r#""order":0"#, r#""order":"x""#, 1).replacen(
        r#""move":"PASS""#,
        r#""move":0"#,
        1,
    );
    assert_eq!(json(&one(&broken)), Err(DecodeError::Order));
    let text = format!("[{{{}}},{{{}}}]", broken, r#""turnNumber":null"#);
    assert_eq!(json(&text), Err(DecodeError::Order));
    let text = format!("[{{{}}},{{{}}}]", r#""turnNumber":null"#, broken);
    assert_eq!(json(&text), Err(DecodeError::TurnNumber));
}
