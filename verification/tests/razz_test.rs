use rust_poker::card::{Card, Rank, Suit};
use rust_poker::game_variants::razz::{apply_razz_move, seats_by_key, Razz, RazzMove, RazzReply};
use rust_poker::player::Player;

fn card(rank: Rank, suit: Suit) -> Card {
    Card { rank, suit: Some(suit) }
}

fn players() -> Vec<Player> {
    vec![Player::new("Ann"), Player::new("Ben"), Player::new("Cy")]
}

#[test]
fn razz_hand_value_is_the_sum_of_ranks() {
    let game = Razz::new(players());
    let hand = vec![
        card(Rank::Ace, Suit::Clubs),
        card(Rank::Two, Suit::Clubs),
        card(Rank::Three, Suit::Hearts),
        card(Rank::Four, Suit::Spades),
        card(Rank::Five, Suit::Diamonds),
    ];
    assert_eq!(game.evaluate_razz_hand(&hand), 28);
    assert_eq!(game.evaluate_razz_hand(&[]), 0);
}

#[test]
fn razz_streets_deal_cards() {
    let mut game = Razz::new(players());
    game.deal_third_street();
    for p in &game.players {
        assert_eq!(p.hand.len(), 3);
    }
    assert_eq!(game.dealer.deck.remaining_cards(), 43);
    game.players[2].fold();
    assert_eq!(game.deal_street(), "Fourth Street");
    assert_eq!(game.players[0].hand.len(), 4);
    assert_eq!(game.players[2].hand.len(), 3);
    assert_eq!(game.dealer.deck.remaining_cards(), 41);
    assert_eq!(game.deal_street(), "Fifth Street");
    assert_eq!(game.deal_street(), "Sixth Street");
    assert_eq!(game.deal_street(), "Seventh Street");
    assert_eq!(game.deal_street(), "Unknown Street");
}

#[test]
fn razz_folded_players_leave() {
    let mut game = Razz::new(players());
    game.players[1].fold();
    game.remove_folded_players();
    assert_eq!(game.players.len(), 2);
    assert_eq!(game.players[0].name, "Ann");
    assert_eq!(game.players[1].name, "Cy");
}

#[test]
fn razz_lowest_hand_wins() {
    let mut game = Razz::new(players());
    game.players[0].hand = vec![card(Rank::King, Suit::Clubs), card(Rank::Two, Suit::Clubs)];
    game.players[1].hand = vec![card(Rank::Three, Suit::Clubs), card(Rank::Four, Suit::Clubs)];
    game.players[2].hand = vec![card(Rank::Two, Suit::Hearts), card(Rank::Three, Suit::Hearts)];
    game.players[1].start_new_game();
    game.players[2].fold();
    let winner = game.determine_winner();
    assert_eq!(winner, "Ben");
    assert_eq!(game.players[1].winnings, 1);
    assert_eq!(game.players[1].game_statistics[0].total_winnings, 1);
    assert_eq!(game.players[0].winnings, 0);
    assert_eq!(game.players[2].winnings, 0);
}

#[test]
fn razz_tie_goes_to_the_first_seat() {
    let mut game = Razz::new(players());
    game.players[0].hand = vec![card(Rank::Nine, Suit::Clubs)];
    game.players[1].hand = vec![card(Rank::Four, Suit::Clubs), card(Rank::Five, Suit::Clubs)];
    game.players[2].hand = vec![card(Rank::Nine, Suit::Hearts)];
    let winner = game.determine_winner();
    assert_eq!(winner, "Ann");
    assert_eq!(game.players[0].winnings, 1);
    assert_eq!(game.players[0].game_statistics.len(), 1);
    assert_eq!(game.players[0].game_statistics[0].total_winnings, 1);
    assert_eq!(game.players[0].game_statistics[0].total_bets, 0);
}

#[test]
fn razz_typed_moves() {
    assert_eq!(RazzMove::from_typed(" fold\n"), RazzMove::Fold);
    assert_eq!(RazzMove::from_typed("check"), RazzMove::Check);
    assert_eq!(RazzMove::from_typed("call"), RazzMove::Call);
    assert_eq!(RazzMove::from_typed("bet 40"), RazzMove::Bet(40));
    assert_eq!(RazzMove::from_typed("bet  7 "), RazzMove::Bet(7));
    assert_eq!(RazzMove::from_typed("bet lots"), RazzMove::Bet(0));
    assert_eq!(RazzMove::from_typed("FOLD"), RazzMove::Invalid);
    assert_eq!(RazzMove::from_typed("bet"), RazzMove::Invalid);
}

#[test]
fn razz_moves_on_a_player() {
    let mut p = Player::new("Ann");
    let mut highest: u32 = 0;
    assert_eq!(apply_razz_move(&mut p, &mut highest, RazzMove::Check), RazzReply::Checked);
    assert_eq!(apply_razz_move(&mut p, &mut highest, RazzMove::Call), RazzReply::CheckedInstead);
    assert_eq!(apply_razz_move(&mut p, &mut highest, RazzMove::Bet(30)), RazzReply::BetPlaced);
    assert_eq!(highest, 30);
    assert_eq!(p.current_bet, 30);
    assert_eq!(apply_razz_move(&mut p, &mut highest, RazzMove::Bet(30)), RazzReply::BetTooLow);
    assert_eq!(apply_razz_move(&mut p, &mut highest, RazzMove::Call), RazzReply::AlreadyMatched);
    let mut q = Player::new("Ben");
    q.current_bet = 10;
    assert_eq!(apply_razz_move(&mut q, &mut highest, RazzMove::Call), RazzReply::Called);
    // the call places the difference as the bet
    assert_eq!(q.current_bet, 20);
    let mut r = Player::new("Cy");
    assert_eq!(apply_razz_move(&mut r, &mut highest, RazzMove::Check), RazzReply::AutoCalled);
    assert_eq!(r.current_bet, 30);
    assert_eq!(apply_razz_move(&mut r, &mut highest, RazzMove::Invalid), RazzReply::Invalid);
    assert_eq!(apply_razz_move(&mut r, &mut highest, RazzMove::Fold), RazzReply::Folded);
    assert!(!r.is_active);
}

#[test]
fn razz_betting_order() {
    let mut game = Razz::new(vec![
        Player::new("Ann"),
        Player::new("Ben"),
        Player::new("Cy"),
        Player::new("Dee"),
    ]);
    game.players[0].hand = vec![card(Rank::Two, Suit::Clubs), card(Rank::Five, Suit::Clubs)];
    game.players[1].hand = vec![card(Rank::Ace, Suit::Clubs), card(Rank::King, Suit::Clubs)];
    game.players[2].hand = vec![card(Rank::Three, Suit::Clubs), card(Rank::Five, Suit::Hearts)];
    game.players[3].hand = vec![card(Rank::Four, Suit::Clubs), card(Rank::Two, Suit::Hearts)];
    // highest shown card first; equal cards in reverse seat order
    assert_eq!(game.betting_order("Third Street"), vec![1, 2, 0, 3]);
    // lowest hand first; equal hands in seat order
    assert_eq!(game.betting_order("Fourth Street"), vec![3, 0, 2, 1]);
}

#[test]
fn seats_by_key_is_stable() {
    assert_eq!(seats_by_key(&vec![5, 1, 5, 0, 1]), vec![3, 1, 4, 0, 2]);
    assert_eq!(seats_by_key(&vec![]), Vec::<usize>::new());
}
