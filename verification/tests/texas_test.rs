use rust_poker::betting::{MoveOutcome, PlayerAction, Turn};
use rust_poker::card::{Card, Rank, Suit};
use rust_poker::game_variants::texas_hold_em::{Street, TexasHoldEm};
use rust_poker::player::Player;

fn card(rank: Rank, suit: Suit) -> Card {
    Card { rank, suit: Some(suit) }
}

fn two_players() -> Vec<Player> {
    vec![Player::new("Alice"), Player::new("Bob")]
}

#[test]
fn texas_new_game() {
    let game = TexasHoldEm::new(two_players());
    assert_eq!(game.players.len(), 2);
    assert_eq!(game.bet_pool, 0);
    assert_eq!(game.dealer.deck.remaining_cards(), 52);
    assert!(game.last_state.is_none());
    assert_eq!(game.starting_player_index, 0);
}

#[test]
fn texas_deals_hole_cards_then_the_board() {
    let mut game = TexasHoldEm::new(two_players());
    let top = game.dealer.deck.cards[51];
    game.deal_hole_cards();
    assert_eq!(game.players[0].hand.len(), 2);
    assert_eq!(game.players[1].hand.len(), 2);
    assert_eq!(game.players[0].hand[0], top);
    assert_eq!(game.dealer.deck.remaining_cards(), 48);
    game.deal_flop();
    assert_eq!(game.dealer.get_community_cards().len(), 3);
    game.deal_turn();
    assert_eq!(game.dealer.get_community_cards().len(), 4);
    game.deal_river();
    assert_eq!(game.dealer.get_community_cards().len(), 5);
    assert_eq!(game.dealer.deck.remaining_cards(), 43);
}

fn showdown_table() -> TexasHoldEm {
    let mut game = TexasHoldEm::new(two_players());
    game.dealer.set_community_cards(vec![
        card(Rank::Ten, Suit::Hearts),
        card(Rank::Jack, Suit::Hearts),
        card(Rank::Queen, Suit::Hearts),
        card(Rank::Two, Suit::Clubs),
        card(Rank::Three, Suit::Diamonds),
    ]);
    game
}

#[test]
fn texas_best_hand_uses_the_board() {
    let mut game = showdown_table();
    game.players[0].hand = vec![card(Rank::King, Suit::Hearts), card(Rank::Ace, Suit::Hearts)];
    game.players[1].hand = vec![card(Rank::Two, Suit::Spades), card(Rank::Two, Suit::Hearts)];
    assert_eq!(game.determine_best_hand_for_player(&game.players[0]), 1);
    assert_eq!(game.determine_best_hand_for_player(&game.players[1]), 7);
    let winners = game.determine_winner();
    assert_eq!(winners.len(), 1);
    assert_eq!(winners[0].name, "Alice");
}

#[test]
fn texas_folded_player_cannot_win() {
    let mut game = showdown_table();
    game.players[0].hand = vec![card(Rank::King, Suit::Hearts), card(Rank::Ace, Suit::Hearts)];
    game.players[1].hand = vec![card(Rank::Two, Suit::Spades), card(Rank::Four, Suit::Hearts)];
    game.players[0].fold();
    assert_eq!(game.winner_positions(), vec![1]);
}

#[test]
fn texas_tie_is_broken_by_hole_cards() {
    let mut game = showdown_table();
    // both make a pair of twos with the board; Alice's higher hole card wins
    game.players[0].hand = vec![card(Rank::Two, Suit::Spades), card(Rank::Nine, Suit::Clubs)];
    game.players[1].hand = vec![card(Rank::Two, Suit::Hearts), card(Rank::Eight, Suit::Clubs)];
    assert_eq!(game.winner_positions(), vec![0]);
}

#[test]
fn texas_split_pot_and_tie_label() {
    let mut game = showdown_table();
    game.players[0].hand = vec![card(Rank::Four, Suit::Spades), card(Rank::Five, Suit::Clubs)];
    game.players[1].hand = vec![card(Rank::Four, Suit::Hearts), card(Rank::Five, Suit::Diamonds)];
    game.bet_pool = 101;
    let label = game.award_pot();
    assert_eq!(label, Some("Tie: Alice, Bob".to_string()));
    assert_eq!(game.players[0].winnings, 50);
    assert_eq!(game.players[1].winnings, 50);
    assert_eq!(game.bet_pool, 101);
}

#[test]
fn texas_single_winner_takes_the_pot() {
    let mut game = showdown_table();
    game.players[0].start_new_game();
    game.players[0].hand = vec![card(Rank::King, Suit::Hearts), card(Rank::Ace, Suit::Hearts)];
    game.players[1].hand = vec![card(Rank::Two, Suit::Spades), card(Rank::Four, Suit::Hearts)];
    game.bet_pool = 80;
    assert_eq!(game.award_pot(), Some("Alice".to_string()));
    assert_eq!(game.players[0].winnings, 80);
    assert_eq!(game.players[0].game_statistics[0].total_winnings, 80);
    assert_eq!(game.players[1].winnings, 0);
}

#[test]
fn texas_no_winner_when_everyone_folded() {
    let mut game = showdown_table();
    game.players[0].fold();
    game.players[1].fold();
    game.bet_pool = 30;
    assert_eq!(game.award_pot(), None);
    assert_eq!(game.bet_pool, 0);
}

#[test]
fn texas_state_update_shows_the_table() {
    let mut game = showdown_table();
    game.players[0].hand = vec![card(Rank::Ace, Suit::Spades), card(Rank::Ten, Suit::Clubs)];
    game.players[1].current_bet = 40;
    game.players[1].fold();
    game.bet_pool = 40;
    let u = game.record_game_state_update("Flop", "Alice", None);
    assert_eq!(u.phase, "Flop");
    assert_eq!(u.current_player, "Alice");
    assert_eq!(u.pot, 40);
    assert_eq!(u.current_bet, 40);
    assert_eq!(u.community_cards[0], "10_of_hearts");
    assert_eq!(u.community_cards[2], "queen_of_hearts");
    assert_eq!(u.players[0].cards, vec!["ace_of_spades".to_string(), "10_of_clubs".to_string()]);
    assert!(u.players[1].folded);
    assert!(!u.players[1].is_active);
    assert!(u.players[0].face_up_index.is_empty());
    assert!(u.winner.is_none());
    let kept = game.last_state.as_ref().unwrap();
    assert_eq!(kept.phase, "Flop");
    assert_eq!(kept.pot, 40);
}

#[test]
fn texas_betting_and_rotation() {
    let mut game = TexasHoldEm::new(two_players());
    let mut round = game.begin_betting_round();
    assert_eq!(game.next_turn(&mut round), Turn::Ask(0));
    assert_eq!(game.apply_action(&mut round, 0, PlayerAction::Bet(Some(10))), MoveOutcome::Accepted);
    assert_eq!(game.next_turn(&mut round), Turn::Ask(1));
    assert_eq!(game.apply_action(&mut round, 1, PlayerAction::Call), MoveOutcome::Accepted);
    assert_eq!(game.next_turn(&mut round), Turn::Over);
    assert_eq!(game.bet_pool, 20);
    game.end_betting_round();
    assert_eq!(game.starting_player_index, 1);
    let mut round = game.begin_betting_round();
    assert_eq!(game.next_turn(&mut round), Turn::Ask(1));
}

#[test]
fn texas_no_card_is_dealt_twice() {
    let mut game = TexasHoldEm::new(vec![Player::new("A"), Player::new("B"), Player::new("C")]);
    game.dealer.shuffle_deck();
    game.deal_hole_cards();
    game.deal_flop();
    game.deal_turn();
    game.deal_river();
    let mut all: Vec<Card> = game.dealer.deck.cards.clone();
    all.extend(game.dealer.get_community_cards().iter().cloned());
    for p in &game.players {
        all.extend(p.hand.iter().cloned());
    }
    assert_eq!(all.len(), 52);
    for i in 0..all.len() {
        for j in (i + 1)..all.len() {
            assert_ne!(all[i], all[j]);
        }
    }
}

#[test]
fn texas_hand_goes_on_with_two_players_left() {
    let mut game = TexasHoldEm::new(vec![Player::new("A"), Player::new("B"), Player::new("C")]);
    assert!(rust_poker::game_state::hand_continues(&game.players));
    game.players[0].fold();
    assert!(rust_poker::game_state::hand_continues(&game.players));
    game.players[2].fold();
    assert!(!rust_poker::game_state::hand_continues(&game.players));
}

#[test]
fn texas_streets_in_order() {
    let mut game = TexasHoldEm::new(vec![Player::new("A"), Player::new("B")]);
    let mut street = Street::Ante;
    let mut names = Vec::new();
    loop {
        game.open_street(street);
        if street == Street::Showdown {
            break;
        }
        names.push(street.name());
        street = game.next_street(street);
    }
    assert_eq!(names, vec!["Ante", "Pre-Flop", "Flop", "Turn", "River"]);
    assert_eq!(game.players[0].hand.len(), 2);
    assert_eq!(game.dealer.get_community_cards().len(), 5);
    game.players[1].fold();
    assert_eq!(game.next_street(Street::PreFlop), Street::Showdown);
    assert_eq!(game.next_street(Street::River), Street::Showdown);
    game.bet_pool = 40;
    game.clear_pot();
    assert_eq!(game.bet_pool, 0);
}

#[test]
fn texas_checked_winners() {
    let mut game = showdown_table();
    game.players[0].hand = vec![card(Rank::King, Suit::Hearts), card(Rank::Ace, Suit::Hearts)];
    game.players[1].hand = vec![card(Rank::Two, Suit::Spades), card(Rank::Four, Suit::Hearts)];
    assert_eq!(game.checked_winner_positions(), Some(vec![0]));
    // a tie that reaches a missing hole card cannot be decided
    game.players[0].hand = vec![card(Rank::Four, Suit::Spades)];
    game.players[1].hand = vec![card(Rank::Four, Suit::Hearts)];
    assert_eq!(game.checked_winner_positions(), None);
}
