use rust_poker::betting::PlayerAction;
use rust_poker::protocol::{account_call, answer, parse_request, room_of, AccountCall, Connection, Reply, Request, RoomId};
use rust_poker::session::GameSession;

fn request(line: &str) -> Option<Request> {
    parse_request(line)
}

#[test]
fn requests_are_read_from_json_lines() {
    let q = request(r#"{"action":"join","username":"ann","variant":"razz","amount":7,"extra":1}"#).unwrap();
    assert_eq!(q.action.as_deref(), Some("join"));
    assert_eq!(q.username.as_deref(), Some("ann"));
    assert_eq!(q.variant.as_deref(), Some("razz"));
    assert_eq!(q.amount, Some(7));
    assert!(q.password.is_none());
    let q = request(r#"{"action":5,"username":null}"#).unwrap();
    assert!(q.action.is_none());
    assert!(q.username.is_none());
    assert_eq!(q.user(), "");
    assert_eq!(q.variant_name(), "texas_holdem");
    assert!(request("not json").is_none());
    assert!(request(r#"{"action":"join""#).is_none());
}

#[test]
fn account_checks_are_asked_for_register_and_login_only() {
    assert_eq!(account_call(&request(r#"{"action":"register"}"#)), Some(AccountCall::Register));
    assert_eq!(account_call(&request(r#"{"action":"login"}"#)), Some(AccountCall::Login));
    assert_eq!(account_call(&request(r#"{"action":"join"}"#)), None);
    assert_eq!(account_call(&None), None);
}

#[test]
fn answers_to_each_action() {
    let mut conn = Connection::new();
    let mut s = GameSession::new();
    match answer(&mut conn, &mut s, &request(r#"{"action":"register","username":"ann"}"#), true) {
        Reply::Registered { username } => assert_eq!(username, "ann"),
        _ => panic!("expected a registration"),
    }
    assert_eq!(s.all_players.len(), 1);
    assert_eq!(conn.known_username.as_deref(), Some("ann"));
    let taken = answer(&mut conn, &mut s, &request(r#"{"action":"register","username":"bob"}"#), false);
    assert!(matches!(taken, Reply::UsernameTaken));
    assert_eq!(taken.status(), "error");
    assert_eq!(taken.message(), Some("Username already taken".to_string()));
    assert_eq!(s.all_players.len(), 1);
    assert!(matches!(
        answer(&mut conn, &mut s, &request(r#"{"action":"login","username":"ann"}"#), false),
        Reply::LoginRefused
    ));
    let joined = answer(&mut conn, &mut s, &request(r#"{"action":"join","username":"bob","variant":"razz"}"#), false);
    assert_eq!(joined.message(), Some("Joined razz room.".to_string()));
    match joined {
        Reply::Joined { variant, players, game_started } => {
            assert_eq!(variant, "razz");
            assert_eq!(players, vec!["bob".to_string()]);
            assert!(!game_started);
        }
        _ => panic!("expected a join"),
    }
    assert_eq!(conn.known_variant, "razz");
    answer(&mut conn, &mut s, &request(r#"{"action":"join","username":"ann"}"#), false);
    match answer(&mut conn, &mut s, &request(r#"{"action":"players"}"#), false) {
        Reply::Players { players, .. } => assert_eq!(players, vec!["bob".to_string(), "ann".to_string()]),
        _ => panic!("expected the players"),
    }
    // a request without a user keeps the known one
    assert_eq!(conn.known_username.as_deref(), Some("ann"));
    assert!(matches!(
        answer(&mut conn, &mut s, &request(r#"{"action":"game_state_update"}"#), false),
        Reply::NoUpdateYet
    ));
    match answer(&mut conn, &mut s, &request(r#"{"action":"start","variant":"texas_holdem"}"#), false) {
        Reply::Started { game_players, enough, .. } => {
            assert_eq!(game_players.len(), 2);
            assert!(enough);
        }
        _ => panic!("expected a start"),
    }
    assert!(s.game_state.game_started);
    match answer(&mut conn, &mut s, &request(r#"{"action":"get_game_state"}"#), false) {
        Reply::GameState { game_started, players } => {
            assert!(game_started);
            assert_eq!(players.len(), 2);
        }
        _ => panic!("expected the game state"),
    }
    s.last_update = Some("{\"pot\":3}".to_string());
    match answer(&mut conn, &mut s, &request(r#"{"action":"game_state_update"}"#), false) {
        Reply::LastUpdate { update } => assert_eq!(update, "{\"pot\":3}"),
        _ => panic!("expected the saved update"),
    }
    match answer(&mut conn, &mut s, &request(r#"{"action":"player_action","username":"ann","player_action":"CALL"}"#), false) {
        Reply::Forward { username } => assert_eq!(username, "ann"),
        _ => panic!("expected a forwarded move"),
    }
    let invalid = answer(&mut conn, &mut s, &request(r#"{"action":"dance"}"#), false);
    assert!(matches!(invalid, Reply::Invalid));
    assert_eq!(invalid.message(), Some("Invalid action".to_string()));
    assert!(matches!(answer(&mut conn, &mut s, &None, false), Reply::Unreadable));
}

#[test]
fn moves_and_rooms() {
    let q = request(r#"{"player_action":"Raise","amount":40}"#).unwrap();
    assert_eq!(q.player_move(), PlayerAction::Bet(Some(40)));
    assert_eq!(Request::disconnect().player_move(), PlayerAction::Disconnect);
    assert_eq!(request("{}").unwrap().player_move(), PlayerAction::Unrecognized);
    assert_eq!(room_of("razz"), RoomId::TexasHoldem);
}
