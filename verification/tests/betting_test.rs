use rust_poker::betting::{
    apply_move, begin_round, next_turn, BettingRound, MoveOutcome, PlayerAction, RejectReason,
    RoundRules, Turn,
};
use rust_poker::player::Player;

fn table(bets: &[u32]) -> Vec<Player> {
    let mut players = Vec::new();
    for (k, b) in bets.iter().enumerate() {
        let mut p = Player::new(&format!("P{}", k));
        p.current_bet = *b;
        players.push(p);
    }
    players
}

#[test]
fn message_words_are_taken_in_lower_case() {
    assert_eq!(PlayerAction::from_message("FOLD", None), PlayerAction::Fold);
    assert_eq!(PlayerAction::from_message("Check", None), PlayerAction::Check);
    assert_eq!(PlayerAction::from_message("cAlL", Some(5)), PlayerAction::Call);
    assert_eq!(PlayerAction::from_message("Raise", Some(30)), PlayerAction::Bet(Some(30)));
    assert_eq!(PlayerAction::from_message("bet", None), PlayerAction::Bet(None));
    assert_eq!(PlayerAction::from_message("__disconnect__", None), PlayerAction::Disconnect);
    assert_eq!(PlayerAction::from_message("dance", Some(3)), PlayerAction::Unrecognized);
}

#[test]
fn message_amount_is_taken_modulo_two_to_the_32() {
    assert_eq!(PlayerAction::from_message("bet", Some(4294967296 + 7)), PlayerAction::Bet(Some(7)));
    assert_eq!(PlayerAction::from_message("bet", Some(-1)), PlayerAction::Bet(Some(u32::MAX)));
}

#[test]
fn typed_moves_are_trimmed_and_parsed() {
    assert_eq!(PlayerAction::from_typed("  Call \n"), PlayerAction::Call);
    assert_eq!(PlayerAction::from_typed("fold\n"), PlayerAction::Fold);
    assert_eq!(PlayerAction::from_typed("CHECK"), PlayerAction::Check);
    assert_eq!(PlayerAction::from_typed("25"), PlayerAction::Bet(Some(25)));
    assert_eq!(PlayerAction::from_typed(" +7 "), PlayerAction::Bet(Some(7)));
    assert_eq!(PlayerAction::from_typed("-3"), PlayerAction::Unrecognized);
    assert_eq!(PlayerAction::from_typed("4294967296"), PlayerAction::Unrecognized);
    assert_eq!(PlayerAction::from_typed(""), PlayerAction::Unrecognized);
    assert_eq!(PlayerAction::from_typed("bet 5"), PlayerAction::Unrecognized);
}

#[test]
fn refusal_messages() {
    assert_eq!(RejectReason::CannotCheck.texas_message(), "Invalid move: you must call or fold, not check.");
    assert_eq!(RejectReason::NothingToCall.texas_message(), "Invalid move: there's nothing to call.");
    assert_eq!(
        RejectReason::BetTooLow.texas_message(),
        "Invalid move: bet must be higher than the current highest bet."
    );
    assert_eq!(RejectReason::Unrecognized.texas_message(), "Invalid move: unrecognized action.");
}

#[test]
fn each_refusal_has_its_move() {
    let mut players = table(&[0, 20]);
    let mut round = BettingRound { offset: 0, highest_bet: 20 };
    assert_eq!(
        apply_move(&mut players, &mut round, 0, PlayerAction::Check),
        MoveOutcome::Rejected(RejectReason::CannotCheck)
    );
    assert_eq!(
        apply_move(&mut players, &mut round, 1, PlayerAction::Call),
        MoveOutcome::Rejected(RejectReason::NothingToCall)
    );
    assert_eq!(
        apply_move(&mut players, &mut round, 0, PlayerAction::Bet(Some(10))),
        MoveOutcome::Rejected(RejectReason::BetTooLow)
    );
    assert_eq!(
        apply_move(&mut players, &mut round, 0, PlayerAction::Unrecognized),
        MoveOutcome::Rejected(RejectReason::Unrecognized)
    );
    assert_eq!(apply_move(&mut players, &mut round, 0, PlayerAction::Bet(None)), MoveOutcome::Ignored);
    assert_eq!(players[0].current_bet, 0);
    assert_eq!(round.highest_bet, 20);
}

#[test]
fn accepted_moves_change_the_table() {
    let mut players = table(&[0, 20, 0]);
    let mut round = BettingRound { offset: 0, highest_bet: 20 };
    assert_eq!(apply_move(&mut players, &mut round, 0, PlayerAction::Call), MoveOutcome::Accepted);
    assert_eq!(players[0].current_bet, 20);
    assert_eq!(apply_move(&mut players, &mut round, 1, PlayerAction::Bet(Some(50))), MoveOutcome::Accepted);
    assert_eq!(players[1].current_bet, 50);
    assert_eq!(round.highest_bet, 50);
    assert_eq!(apply_move(&mut players, &mut round, 2, PlayerAction::TimedOut), MoveOutcome::Accepted);
    assert!(!players[2].is_active);
    assert_eq!(apply_move(&mut players, &mut round, 0, PlayerAction::Bet(Some(50))), MoveOutcome::Accepted);
    assert_eq!(round.highest_bet, 50);
}

#[test]
fn hold_em_round_repeats_until_bets_match() {
    let mut players = table(&[0, 0]);
    let mut pot: u32 = 0;
    let mut round = begin_round(&players);
    let rules = RoundRules::texas();
    assert_eq!(next_turn(&players, 0, &mut pot, &mut round, rules), Turn::Ask(0));
    assert_eq!(apply_move(&mut players, &mut round, 0, PlayerAction::Bet(Some(10))), MoveOutcome::Accepted);
    assert_eq!(next_turn(&players, 0, &mut pot, &mut round, rules), Turn::Ask(1));
    assert_eq!(apply_move(&mut players, &mut round, 1, PlayerAction::Bet(Some(30))), MoveOutcome::Accepted);
    // end of the first pass: bets differ, so a second pass starts at seat 0
    assert_eq!(next_turn(&players, 0, &mut pot, &mut round, rules), Turn::Ask(0));
    assert_eq!(pot, 40);
    assert_eq!(round.highest_bet, 30);
    assert_eq!(apply_move(&mut players, &mut round, 0, PlayerAction::Call), MoveOutcome::Accepted);
    assert_eq!(next_turn(&players, 0, &mut pot, &mut round, rules), Turn::Ask(1));
    assert_eq!(apply_move(&mut players, &mut round, 1, PlayerAction::Check), MoveOutcome::Accepted);
    assert_eq!(next_turn(&players, 0, &mut pot, &mut round, rules), Turn::Over);
    assert_eq!(pot, 60);
}

#[test]
fn hold_em_round_stops_when_one_player_is_left() {
    let mut players = table(&[0, 0, 0]);
    let mut pot: u32 = 0;
    let mut round = begin_round(&players);
    let rules = RoundRules::texas();
    assert_eq!(next_turn(&players, 1, &mut pot, &mut round, rules), Turn::Ask(1));
    apply_move(&mut players, &mut round, 1, PlayerAction::Fold);
    assert_eq!(next_turn(&players, 1, &mut pot, &mut round, rules), Turn::Ask(2));
    apply_move(&mut players, &mut round, 2, PlayerAction::Disconnect);
    assert_eq!(next_turn(&players, 1, &mut pot, &mut round, rules), Turn::Over);
}

#[test]
fn draw_round_is_one_pass() {
    let mut players = table(&[0, 0]);
    let mut pot: u32 = 0;
    let mut round = begin_round(&players);
    let rules = RoundRules::draw();
    assert_eq!(next_turn(&players, 0, &mut pot, &mut round, rules), Turn::Ask(0));
    apply_move(&mut players, &mut round, 0, PlayerAction::Bet(Some(10)));
    assert_eq!(next_turn(&players, 0, &mut pot, &mut round, rules), Turn::Ask(1));
    apply_move(&mut players, &mut round, 1, PlayerAction::Check);
    assert_eq!(next_turn(&players, 0, &mut pot, &mut round, rules), Turn::Over);
    assert_eq!(pot, 10);
}

#[test]
fn stud_pot_counts_active_bets_only() {
    let mut players = table(&[5, 5]);
    let mut pot: u32 = 0;
    let mut round = begin_round(&players);
    let rules = RoundRules::stud();
    assert_eq!(next_turn(&players, 0, &mut pot, &mut round, rules), Turn::Ask(0));
    apply_move(&mut players, &mut round, 0, PlayerAction::Fold);
    assert_eq!(next_turn(&players, 0, &mut pot, &mut round, rules), Turn::Ask(1));
    apply_move(&mut players, &mut round, 1, PlayerAction::Check);
    assert_eq!(next_turn(&players, 0, &mut pot, &mut round, rules), Turn::Over);
    assert_eq!(pot, 5);
}
