use rust_poker::card::{Card, Rank, Suit};
use rust_poker::game_variants::standard_five::{DrawOutcome, DrawRequest, DrawStage, FiveCardDraw};

fn card(rank: Rank, suit: Suit) -> Card {
    Card { rank, suit: Some(suit) }
}

#[test]
fn five_card_new_game() {
    let game = FiveCardDraw::new(vec!["Ann", "Ben", "Cy"]);
    assert_eq!(game.players.len(), 3);
    assert_eq!(game.players[2].name, "Cy");
    assert!(game.players[0].is_active);
    assert_eq!(game.bet_pool, 0);
}

#[test]
fn five_card_deals_five_each() {
    let mut game = FiveCardDraw::new(vec!["Ann", "Ben"]);
    game.deal_initial_hands();
    assert_eq!(game.players[0].hand.len(), 5);
    assert_eq!(game.players[1].hand.len(), 5);
    assert_eq!(game.dealer.deck.remaining_cards(), 42);
}

#[test]
fn draw_requests_are_parsed() {
    assert!(matches!(DrawRequest::from_typed("  NONE "), DrawRequest::KeepAll));
    match DrawRequest::from_typed("0 2\t4") {
        DrawRequest::Discard(p) => assert_eq!(p, vec![0, 2, 4]),
        DrawRequest::KeepAll => panic!("expected positions"),
    }
    match DrawRequest::from_typed("1 x 3") {
        DrawRequest::Discard(p) => assert_eq!(p, vec![1, 3]),
        DrawRequest::KeepAll => panic!("expected positions"),
    }
    match DrawRequest::from_typed("") {
        DrawRequest::Discard(p) => assert!(p.is_empty()),
        DrawRequest::KeepAll => panic!("expected positions"),
    }
}

#[test]
fn discard_replaces_chosen_cards() {
    let mut game = FiveCardDraw::new(vec!["Ann", "Ben"]);
    game.deal_initial_hands();
    let before = game.players[0].hand.clone();
    let top = game.dealer.deck.cards[game.dealer.deck.cards.len() - 1];
    let second = game.dealer.deck.cards[game.dealer.deck.cards.len() - 2];
    assert_eq!(game.discard_and_draw(0, &vec![1, 3]), DrawOutcome::Replaced);
    let after = &game.players[0].hand;
    assert_eq!(after[0], before[0]);
    assert_eq!(after[2], before[2]);
    assert_eq!(after[4], before[4]);
    // the cards come off the deck in order; the last position gets the last card
    assert_eq!(after[3], second);
    assert_eq!(after[1], top);
    assert_eq!(game.dealer.deck.remaining_cards(), 40);
}

#[test]
fn discard_refusals() {
    let mut game = FiveCardDraw::new(vec!["Ann", "Ben"]);
    game.deal_initial_hands();
    let before = game.players[0].hand.clone();
    assert_eq!(game.discard_and_draw(0, &vec![0, 1, 2, 3]), DrawOutcome::TooMany);
    assert_eq!(game.discard_and_draw(0, &vec![5]), DrawOutcome::BadPosition);
    assert_eq!(game.players[0].hand, before);
    assert_eq!(game.dealer.deck.remaining_cards(), 42);
}

#[test]
fn five_card_single_winner_is_named_only() {
    let mut game = FiveCardDraw::new(vec!["Ann", "Ben"]);
    game.players[0].hand = vec![
        card(Rank::Ace, Suit::Clubs),
        card(Rank::Ace, Suit::Diamonds),
        card(Rank::Ace, Suit::Hearts),
        card(Rank::Two, Suit::Clubs),
        card(Rank::Five, Suit::Spades),
    ];
    game.players[1].hand = vec![
        card(Rank::Three, Suit::Clubs),
        card(Rank::Three, Suit::Diamonds),
        card(Rank::Nine, Suit::Hearts),
        card(Rank::Jack, Suit::Clubs),
        card(Rank::King, Suit::Spades),
    ];
    game.bet_pool = 60;
    assert_eq!(game.award_pot(), Some("Ann".to_string()));
    assert_eq!(game.players[0].winnings, 0);
    assert_eq!(game.bet_pool, 60);
}

#[test]
fn five_card_tie_splits_the_pot() {
    let mut game = FiveCardDraw::new(vec!["Ann", "Ben"]);
    let hand = vec![
        card(Rank::Ace, Suit::Clubs),
        card(Rank::King, Suit::Diamonds),
        card(Rank::Nine, Suit::Hearts),
        card(Rank::Seven, Suit::Clubs),
        card(Rank::Two, Suit::Spades),
    ];
    game.players[0].hand = hand.clone();
    game.players[1].hand = hand;
    game.bet_pool = 60;
    assert_eq!(game.award_pot(), None);
    assert_eq!(game.players[0].winnings, 30);
    assert_eq!(game.players[1].winnings, 30);
}

#[test]
fn draw_stages_in_order() {
    let mut game = FiveCardDraw::new(vec!["Ann", "Ben"]);
    let mut stage = DrawStage::Ante;
    let mut names = Vec::new();
    loop {
        game.open_stage(stage);
        if stage == DrawStage::Showdown {
            break;
        }
        names.push(stage.name());
        stage = game.next_stage(stage);
    }
    assert_eq!(names, vec!["Ante", "Pre-draw", "Draw", "Post-draw"]);
    assert_eq!(game.players[1].hand.len(), 5);
    game.players[0].fold();
    assert_eq!(game.next_stage(DrawStage::PreDraw), DrawStage::Showdown);
}
