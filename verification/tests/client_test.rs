use rust_poker::client::{card_face_up, check_or_call, BetEntry, BetKey, ClientState, GameVariant, ServerMessage};
use rust_poker::game_state::GameStateUpdate;

fn empty_message() -> ServerMessage {
    ServerMessage {
        has_phase: false,
        has_current_player: false,
        update: None,
        status: None,
        message: None,
        players: None,
        game_started: None,
    }
}

fn update(phase: &str) -> GameStateUpdate {
    GameStateUpdate {
        players: vec![],
        community_cards: vec![],
        current_player: "ann".to_string(),
        pot: 0,
        current_bet: 0,
        phase: phase.to_string(),
        winner: None,
    }
}

#[test]
fn variant_room_names() {
    assert_eq!(GameVariant::FiveCardDraw.as_str(), "five_card_draw");
    assert_eq!(GameVariant::SevenCardStud.as_str(), "seven_card_stud");
    assert_eq!(GameVariant::TexasHoldEm.as_str(), "texas_holdem");
}

#[test]
fn client_starts_empty() {
    let s = ClientState::new();
    assert!(s.players.is_empty());
    assert!(!s.game_started);
    assert!(s.last_game_update.is_none());
    assert!(s.last_error.is_none());
}

#[test]
fn room_messages_set_players_and_flag() {
    let mut s = ClientState::new();
    let mut m = empty_message();
    m.status = Some("success".to_string());
    m.players = Some(vec![Some("ann".to_string()), None, Some("bob".to_string())]);
    m.game_started = Some(true);
    s.dispatch(m);
    assert_eq!(s.players, vec!["ann".to_string(), "bob".to_string()]);
    assert!(s.game_started);
    let mut m = empty_message();
    m.game_started = Some(false);
    s.dispatch(m);
    assert!(!s.game_started);
    assert_eq!(s.players.len(), 2);
}

#[test]
fn errors_are_kept_until_taken() {
    let mut s = ClientState::new();
    let mut m = empty_message();
    m.status = Some("error".to_string());
    m.message = Some("Invalid move: unrecognized action.".to_string());
    m.players = Some(vec![Some("zed".to_string())]);
    s.dispatch(m);
    assert!(s.players.is_empty());
    assert_eq!(s.take_last_error(), Some("Invalid move: unrecognized action.".to_string()));
    assert_eq!(s.take_last_error(), None);
}

#[test]
fn state_updates_are_routed_by_shape() {
    let mut s = ClientState::new();
    let mut m = empty_message();
    m.has_phase = true;
    m.has_current_player = true;
    m.update = Some(update("Flop"));
    m.status = Some("error".to_string());
    s.dispatch(m);
    assert_eq!(s.last_game_update.as_ref().unwrap().phase, "Flop");
    assert!(s.last_error.is_none());
    // an update that does not read as one leaves the last one
    let mut m = empty_message();
    m.has_phase = true;
    m.has_current_player = true;
    s.dispatch(m);
    assert_eq!(s.last_game_update.as_ref().unwrap().phase, "Flop");
    // a phase alone is not an update
    let mut m = empty_message();
    m.has_phase = true;
    m.update = Some(update("River"));
    s.dispatch(m);
    assert_eq!(s.last_game_update.as_ref().unwrap().phase, "Flop");
}

#[test]
fn lines_from_the_server_are_read_and_taken_in() {
    let mut s = ClientState::new();
    s.receive_line(r#"{"status":"success","players":["ann",3,"bob"],"game_started":true}"#, None);
    assert_eq!(s.players, vec!["ann".to_string(), "bob".to_string()]);
    assert!(s.game_started);
    s.receive_line("garbage", None);
    assert_eq!(s.players.len(), 2);
    s.receive_line(r#"{"status":"error","message":"Invalid action"}"#, None);
    assert_eq!(s.take_last_error(), Some("Invalid action".to_string()));
    s.receive_line(r#"{"phase":"Flop","current_player":"ann"}"#, Some(update("Flop")));
    assert_eq!(s.last_game_update.as_ref().unwrap().phase, "Flop");
}

#[test]
fn only_own_revealed_or_face_up_cards_are_shown() {
    assert!(card_face_up(true, "flop", &[], 0));
    assert!(card_face_up(false, "showdown", &[], 1));
    assert!(card_face_up(false, "third_street", &[2, 3], 3));
    assert!(!card_face_up(false, "third_street", &[2, 3], 0));
}

#[test]
fn the_middle_button_calls_only_against_a_bet() {
    assert_eq!(check_or_call(0), "check");
    assert_eq!(check_or_call(20), "call");
}

#[test]
fn a_bet_amount_is_typed_digit_by_digit() {
    let mut entry = BetEntry::new();
    assert_eq!(entry.press(BetKey::Digit(5)), None);
    assert_eq!(entry.amount, 0);
    entry.open();
    entry.press(BetKey::Digit(1));
    entry.press(BetKey::Digit(2));
    entry.press(BetKey::Digit(5));
    assert_eq!(entry.amount, 125);
    entry.press(BetKey::Backspace);
    assert_eq!(entry.amount, 12);
    assert_eq!(entry.press(BetKey::Enter), Some(12));
    assert!(!entry.open);
    assert_eq!(entry.amount, 0);
    entry.open();
    entry.press(BetKey::Digit(9));
    assert_eq!(entry.press(BetKey::Escape), None);
    assert!(!entry.open);
    assert_eq!(entry.amount, 0);
}
