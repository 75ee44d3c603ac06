use sgf_annotate::coord::{Action, Color};
use sgf_annotate::query::Game;

#[test]
fn the_request_lists_moves_and_turns() {
    let game = Game {
        id: "test".to_string(),
        moves: vec![
            (Color::Black, Action::Move(4, 16)),
            (Color::White, Action::Move(16, 4)),
            (Color::Black, Action::Pass),
        ],
    };
    assert!(game.is_valid());
    assert_eq!(
        game.to_query(),
        "{\"id\":\"test\",\"moves\":[[\"B\",\"D4\"],[\"W\",\"Q16\"],[\"B\",\"PASS\"]],\"rules\":\"japanese\",\"komi\":6.5,\"boardXSize\":19,\"boardYSize\":19,\"analyzeTurns\":[0,1,2]}\n"
    );
}

#[test]
fn the_request_of_a_game_without_moves() {
    let game = Game { id: String::new(), moves: vec![] };
    assert_eq!(
        game.to_query(),
        "{\"id\":\"\",\"moves\":[],\"rules\":\"japanese\",\"komi\":6.5,\"boardXSize\":19,\"boardYSize\":19,\"analyzeTurns\":[]}\n"
    );
}

#[test]
fn the_request_is_one_line_of_json() {
    let moves: Vec<(Color, Action)> = (0..12u8)
        .map(|i| (if i % 2 == 0 { Color::Black } else { Color::White }, Action::Move(i + 1, 19 - i)))
        .collect();
    let query = Game { id: "a game".to_string(), moves }.to_query();
    assert!(query.ends_with('\n'));
    assert_eq!(query.matches('\n').count(), 1);
    let value: serde_json::Value = serde_json::from_str(&query).unwrap();
    assert_eq!(value["id"].as_str(), Some("a game"));
    assert_eq!(value["moves"].as_array().unwrap().len(), 12);
    assert_eq!(value["moves"][8][0].as_str(), Some("B"));
    assert_eq!(value["moves"][8][1].as_str(), Some("J9"));
    let turns: Vec<u64> =
        value["analyzeTurns"].as_array().unwrap().iter().map(|t| t.as_u64().unwrap()).collect();
    assert_eq!(turns, (0..12).collect::<Vec<u64>>());
}

#[test]
fn a_stone_beyond_the_board_makes_a_game_invalid() {
    for action in [Action::Move(0, 1), Action::Move(1, 0), Action::Move(20, 20), Action::Move(1, 20)]
    {
        let game = Game {
            id: "x".to_string(),
            moves: vec![(Color::Black, Action::Pass), (Color::White, action)],
        };
        assert!(!game.is_valid());
        assert!(!action.is_on_board());
    }
}
