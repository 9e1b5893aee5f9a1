use rust_poker::session::{Card, GameSession};

#[test]
fn wire_card_text() {
    let c = Card { suit: "hearts".to_string(), value: "10".to_string() };
    assert_eq!(c.to_string(), "10_hearts");
    let c = Card { suit: "spades".to_string(), value: "queen".to_string() };
    assert_eq!(c.to_string(), "queen_spades");
}

#[test]
fn new_room_is_empty() {
    let s = GameSession::new();
    assert_eq!(s.game_number, 0);
    assert!(s.active_players.is_empty());
    assert!(s.all_players.is_empty());
    assert!(s.game_style.is_none());
    assert!(!s.game_state.game_started);
    assert!(s.last_update.is_none());
}

#[test]
fn joining_twice_counts_once() {
    let mut s = GameSession::new();
    assert_eq!(s.join("ann"), vec!["ann".to_string()]);
    assert_eq!(s.join("bob"), vec!["ann".to_string(), "bob".to_string()]);
    assert_eq!(s.join("ann"), vec!["ann".to_string(), "bob".to_string()]);
    assert_eq!(s.all_players.len(), 2);
    assert_eq!(s.player_list(), vec!["ann".to_string(), "bob".to_string()]);
}

#[test]
fn registering_keeps_existing_players() {
    let mut s = GameSession::new();
    s.register_player("ann");
    s.all_players[0].winnings = 7;
    s.register_player("ann");
    assert_eq!(s.all_players.len(), 1);
    assert_eq!(s.all_players[0].winnings, 7);
    assert!(s.active_players.is_empty());
    s.join("ann");
    assert_eq!(s.all_players.len(), 1);
    assert_eq!(s.find_player("ann"), Some(0));
    assert_eq!(s.find_player("zed"), None);
    assert!(s.in_room("ann"));
    assert!(!s.in_room("zed"));
}

#[test]
fn starting_hands_out_the_room_players() {
    let mut s = GameSession::new();
    s.register_player("cy");
    s.join("ann");
    s.join("bob");
    s.all_players[1].winnings = 12;
    s.last_update = Some("old".to_string());
    let players = s.start_game("texas_holdem");
    assert_eq!(players.len(), 2);
    assert_eq!(players[0].name, "ann");
    assert_eq!(players[0].winnings, 12);
    assert_eq!(players[1].name, "bob");
    assert!(s.game_state.game_started);
    assert_eq!(s.game_style, Some("texas_holdem".to_string()));
    assert!(s.last_update.is_none());
    s.end_game();
    assert!(!s.game_state.game_started);
    assert!(s.active_players.is_empty());
    assert_eq!(s.all_players.len(), 3);
}

#[test]
fn start_keeps_a_chosen_style() {
    let mut s = GameSession::new();
    s.set_game_style("razz".to_string());
    s.join("ann");
    let players = s.start_game("texas_holdem");
    assert_eq!(players.len(), 1);
    assert_eq!(s.game_style, Some("razz".to_string()));
    s.cancel_start();
    assert!(!s.game_state.game_started);
    assert_eq!(s.active_players, vec!["ann".to_string()]);
}

#[test]
fn games_are_counted() {
    let mut s = GameSession::new();
    s.next_game();
    s.next_game();
    assert_eq!(s.game_number, 2);
}

#[test]
fn a_game_needs_two_players() {
    use_players(0, false);
    use_players(1, false);
    use_players(2, true);
    use_players(5, true);
}

fn use_players(n: usize, expected: bool) {
    let players: Vec<rust_poker::player::Player> =
        (0..n).map(|k| rust_poker::player::Player::new(&format!("p{}", k))).collect();
    assert_eq!(rust_poker::session::enough_players(&players), expected);
}
