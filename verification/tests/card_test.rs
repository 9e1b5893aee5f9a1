use rust_poker::card::{Rank, Suit, Deck};


#[test]
fn test_new_standard_deck() {
    let deck = Deck::new_standard();
    // A standard deck should have 52 cards
    assert_eq!(deck.remaining_cards(), 52);

    // The deck should contain all four suits, each with 13 cards
    let mut clubs = 0;
    let mut diamonds = 0;
    let mut hearts = 0;
    let mut spades = 0;

    for card in &deck.cards {
        match card.suit {
            Some(Suit::Clubs) => clubs += 1,
            Some(Suit::Diamonds) => diamonds += 1,
            Some(Suit::Hearts) => hearts += 1,
            Some(Suit::Spades) => spades += 1,
            None => panic!("Joker should not be in a standard deck"),
        }
    }

    assert_eq!(clubs, 13);
    assert_eq!(diamonds, 13);
    assert_eq!(hearts, 13);
    assert_eq!(spades, 13);
}

#[test]
fn test_new_with_jokers_deck() {
    let deck = Deck::new_with_jokers();
    // A deck with jokers should have 54 cards
    assert_eq!(deck.remaining_cards(), 54);

    // There should be exactly 2 jokers in the deck
    let joker_count = deck.cards.iter().filter(|card| card.rank == Rank::Joker).count();
    assert_eq!(joker_count, 2);

    // The rest of the deck should be a standard deck of 52 cards
    let standard_deck_count = deck.remaining_cards() - joker_count;
    assert_eq!(standard_deck_count, 52);
}

#[test]
fn card_test_test_shuffle_deck() {
    let mut deck = Deck::new_standard();
    let unshuffled = deck.cards.clone();

    deck.shuffle();
    let shuffled_deck = deck.cards.clone();

    // After shuffling, the deck should not be in the same order
    assert_ne!(unshuffled, shuffled_deck);
}

#[test]
fn test_pop_one_card() {
    let mut deck = Deck::new_standard();
    
    // Pop a card from the deck
    let card = deck.pop_one_card();
    assert!(card.is_some());
    assert_eq!(deck.remaining_cards(), 51);

    // The deck should be empty when all cards are popped
    while let Some(_) = deck.pop_one_card() {}
    assert_eq!(deck.remaining_cards(), 0);

    // Popping from an empty deck should return None
    let card = deck.pop_one_card();
    assert!(card.is_none());
}

#[test]
fn standard_deck_order_and_top_card() {
    let deck = Deck::new_standard();
    assert_eq!(deck.cards[0].rank, Rank::Two);
    assert_eq!(deck.cards[0].suit, Some(Suit::Clubs));
    assert_eq!(deck.cards[12].rank, Rank::Ace);
    assert_eq!(deck.cards[13].suit, Some(Suit::Diamonds));
    assert_eq!(deck.cards[51].rank, Rank::Ace);
    assert_eq!(deck.cards[51].suit, Some(Suit::Spades));
    for i in 0..52 {
        for j in (i + 1)..52 {
            assert_ne!(deck.cards[i], deck.cards[j]);
        }
    }
}

#[test]
fn jokers_are_on_top() {
    let mut deck = Deck::new_with_jokers();
    let top = deck.pop_one_card().unwrap();
    assert_eq!(top.rank, Rank::Joker);
    assert!(top.suit.is_none());
}

#[test]
fn shuffle_keeps_the_cards() {
    let mut deck = Deck::new_with_jokers();
    let mut before = deck.cards.clone();
    deck.shuffle();
    let mut after = deck.cards.clone();
    assert_eq!(after.len(), 54);
    let key = |c: &rust_poker::card::Card| (c.rank.value(), c.suit.map(|s| s as u8));
    before.sort_by_key(key);
    after.sort_by_key(key);
    assert_eq!(before, after);
}

#[test]
fn card_texts() {
    let c = rust_poker::card::Card { rank: Rank::Queen, suit: Some(Suit::Spades) };
    assert_eq!(c.display_text(), "Queen_of_Spades");
    assert_eq!(c.display_text_lower(), "queen_of_spades");
    let c = rust_poker::card::Card { rank: Rank::Ten, suit: Some(Suit::Hearts) };
    assert_eq!(c.display_text(), "10_of_Hearts");
    let j = rust_poker::card::Card { rank: Rank::Joker, suit: None };
    assert_eq!(j.display_text(), "Joker");
    assert_eq!(Rank::Ace.value(), 14);
    assert_eq!(Rank::from_value(11), Rank::Jack);
}
