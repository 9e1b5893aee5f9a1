use vstd::prelude::*;
use vstd::string::StrSliceExecFns;
use crate::card::{Card, standard_deck};
use crate::betting::{
    PlayerAction, MoveOutcome, BettingRound, Turn, RoundRules, stud_rules, next_turn_result,
    first_active_offset, move_outcome, move_effect, begin_round, next_turn, apply_move, trimmed,
    trim_str, pass_pot,
};
use crate::dealer::{Dealer, dealt_cards, deck_after_deal, lemma_deal_splits, lemma_deal_one};
use crate::player::{Player, same_but_cards};
use crate::hand_evaluator::{HandEvaluator, hand_strength};
use crate::showdown::{
    showdown_winners, showdown_ok, lowest_scorers_exec, narrow_by_high_cards, try_narrow_by_high_cards, card_views,
    lemma_showdown_winners, decided_by_high_cards, lemma_two_card_showdown,
};
use crate::game_state::{
    GameStateUpdate, PlayerState, active_flags, active_flags_exec, all_card_views, joined_cards,
    card_texts, names_cards, highest_bet, max_bet, max_active_bet, active_count, string_views,
    payout_fits, paid_out, pay_winners, opt_view, share, names_at, names_of, hand_goes_on,
    hand_continues,
};

verus! {

/// A game of seven-card stud: the players, the dealer, the pot, whether
/// betting is skipped, and whose turn opens the next betting round.
pub struct SevenCardStud {
    pub players: Vec<Player>,
    pub dealer: Dealer,
    pub bet_pool: u32,
    pub skip: bool,
    pub starting_player_index: usize,
}

/// Each player's hand strength over all their cards, face-down and face-up.
pub open spec fn stud_scores(players: Seq<Player>) -> Seq<u32> {
    Seq::new(players.len(), |i: int| hand_strength(players[i].hand@ + players[i].face_up_cards@))
}

/// The positions of the winners: the active players with the best hand,
/// ties broken by the highest and then the second-highest of all their
/// cards.
pub open spec fn stud_winners(players: Seq<Player>) -> Seq<usize> {
    showdown_winners(stud_scores(players), active_flags(players), all_card_views(players), 2)
}

/// Every tied player whose cards are compared has them.
pub open spec fn stud_showdown_ok(players: Seq<Player>) -> bool {
    showdown_ok(stud_scores(players), active_flags(players), all_card_views(players), 2)
}

/// Each active player got one more card, in seat order, from the top of the
/// deck, face-up (or face-down when `face_up` is false); inactive players
/// got nothing.
pub open spec fn dealt_to_active(before: Seq<Player>, after: Seq<Player>, deck: Seq<Card>, face_up: bool) -> bool {
    &&& after.len() == before.len()
    &&& forall|i: int| #![trigger after[i]] 0 <= i < before.len() ==> {
        let card = dealt_cards(deck_after_deal(deck, active_count(before, i)), 1)[0];
        &&& same_but_cards(after[i], before[i])
        &&& before[i].is_active && face_up ==> after[i].face_up_cards@ == before[i].face_up_cards@.push(card)
            && after[i].hand@ == before[i].hand@
        &&& before[i].is_active && !face_up ==> after[i].hand@ == before[i].hand@.push(card)
            && after[i].face_up_cards@ == before[i].face_up_cards@
        &&& !before[i].is_active ==> after[i].hand@ == before[i].hand@ && after[i].face_up_cards@
            == before[i].face_up_cards@
    }
}

/// Third street: each player, in seat order, got three cards off the top
/// of the deck, the first two face-down and the third face-up.
pub open spec fn initial_dealt(before: Seq<Player>, after: Seq<Player>, deck: Seq<Card>) -> bool {
    &&& after.len() == before.len()
    &&& forall|i: int| #![trigger after[i]] 0 <= i < before.len() ==> {
        let d = dealt_cards(deck_after_deal(deck, 3 * i as nat), 3);
        &&& after[i].hand@ == before[i].hand@ + d.take(2)
        &&& after[i].face_up_cards@ == before[i].face_up_cards@.push(d[2])
        &&& same_but_cards(after[i], before[i])
    }
}

/// Whether the console input asks to skip betting: trimmed, it is `skip` in
/// any mix of ASCII upper and lower case.
pub open spec fn is_skip_word(input: Seq<char>) -> bool {
    let t = trimmed(input);
    &&& t.len() == 4
    &&& (t[0] == 's' || t[0] == 'S')
    &&& (t[1] == 'k' || t[1] == 'K')
    &&& (t[2] == 'i' || t[2] == 'I')
    &&& (t[3] == 'p' || t[3] == 'P')
}

proof fn lemma_active_count_step(players: Seq<Player>, i: int)
    requires
        0 <= i < players.len(),
    ensures
        active_count(players, i + 1) == active_count(players, i) + if players[i].is_active {
            1nat
        } else {
            0nat
        },
        active_count(players, i) <= active_count(players, players.len() as int),
{
    lemma_active_count_mono(players, i, players.len() as int);
}

proof fn lemma_active_count_mono(players: Seq<Player>, a: int, b: int)
    requires
        0 <= a <= b <= players.len(),
    ensures
        active_count(players, a) <= active_count(players, b),
    decreases b - a,
{
    if a < b {
        lemma_active_count_mono(players, a, b - 1);
    }
}

/// The stud showdown: the winners are the active players whose best hand
/// of all their cards, face-down and face-up, is the strongest, ties broken
/// by the highest and then the second-highest of those cards (see
/// `decided_by_high_cards`).
pub proof fn lemma_stud_showdown(players: Seq<Player>)
    requires
        players.len() <= usize::MAX,
        stud_showdown_ok(players),
    ensures
        decided_by_high_cards(
            Seq::new(players.len(), |i: int| hand_strength(players[i].hand@ + players[i].face_up_cards@)),
            Seq::new(players.len(), |i: int| players[i].is_active),
            Seq::new(players.len(), |i: int| players[i].hand@ + players[i].face_up_cards@),
            stud_winners(players),
        ),
{
    lemma_two_card_showdown(stud_scores(players), active_flags(players), all_card_views(players));
    assert(stud_scores(players) =~= Seq::new(
        players.len(),
        |i: int| hand_strength(players[i].hand@ + players[i].face_up_cards@),
    ));
    assert(active_flags(players) =~= Seq::new(players.len(), |i: int| players[i].is_active));
    assert(all_card_views(players) =~= Seq::new(
        players.len(),
        |i: int| players[i].hand@ + players[i].face_up_cards@,
    ));
}

impl SevenCardStud {
    /// A new game with the given players, a fresh dealer, and an empty pot.
    pub fn new(players: Vec<Player>) -> (g: Self)
        ensures
            g.players@ == players@,
            g.dealer.deck.cards@ == standard_deck(),
            g.dealer.community_cards@.len() == 0,
            g.bet_pool == 0,
            !g.skip,
            g.starting_player_index == 0,
    {
        Self { players, dealer: Dealer::new(), bet_pool: 0, skip: false, starting_player_index: 0 }
    }

    /// Third street: each player in turn gets three cards, the first two
    /// face-down and the third face-up.
    pub fn deal_initial_cards(&mut self)
        requires
            old(self).dealer.deck.cards@.len() >= 3 * old(self).players@.len(),
        ensures
            initial_dealt(old(self).players@, final(self).players@, old(self).dealer.deck.cards@),
            final(self).dealer.deck.cards@ == deck_after_deal(
                old(self).dealer.deck.cards@,
                3 * old(self).players@.len(),
            ),
            final(self).dealer.community_cards@ == old(self).dealer.community_cards@,
            final(self).bet_pool == old(self).bet_pool,
            final(self).starting_player_index == old(self).starting_player_index,
            final(self).skip == old(self).skip,
    {
        let ghost deck0 = self.dealer.deck.cards@;
        let ghost players0 = self.players@;
        let mut i: usize = 0;
        while i < self.players.len()
            invariant
                self.skip == old(self).skip,
                0 <= i <= self.players@.len(),
                self.players@.len() == players0.len(),
                deck0.len() >= 3 * players0.len(),
                self.dealer.deck.cards@ == deck_after_deal(deck0, 3 * i as nat),
                self.dealer.community_cards@ == old(self).dealer.community_cards@,
                self.bet_pool == old(self).bet_pool,
                self.starting_player_index == old(self).starting_player_index,
                deck0 == old(self).dealer.deck.cards@,
                players0 == old(self).players@,
                forall|m: int| #![trigger self.players@[m]] i <= m < players0.len() ==> self.players@[m] == players0[m],
                forall|m: int| #![trigger self.players@[m]] 0 <= m < i ==> {
                    let d = dealt_cards(deck_after_deal(deck0, 3 * m as nat), 3);
                    &&& self.players@[m].hand@ == players0[m].hand@ + d.take(2)
                    &&& self.players@[m].face_up_cards@ == players0[m].face_up_cards@.push(d[2])
                    &&& same_but_cards(self.players@[m], players0[m])
                },
            decreases self.players@.len() - i,
        {
            let cards = self.dealer.deal_cards(3);
            proof {
                lemma_deal_splits(deck0, 3 * i as nat, 3);
                assert(3 * i as nat + 3 == 3 * (i + 1) as nat);
                assert(cards@.len() == 3);
            }
            let mut face_down: Vec<Card> = Vec::new();
            face_down.push(cards[0]);
            face_down.push(cards[1]);
            assert(face_down@ =~= cards@.take(2));
            self.players[i].add_cards(face_down);
            self.players[i].add_face_up_card(cards[2]);
            i = i + 1;
        }
    }

    /// Deals each active player one more face-up card, in seat order.
    pub fn deal_face_up_card(&mut self)
        requires
            old(self).dealer.deck.cards@.len() >= active_count(old(self).players@, old(self).players@.len() as int),
        ensures
            dealt_to_active(old(self).players@, final(self).players@, old(self).dealer.deck.cards@, true),
            final(self).dealer.deck.cards@ == deck_after_deal(
                old(self).dealer.deck.cards@,
                active_count(old(self).players@, old(self).players@.len() as int),
            ),
            final(self).dealer.community_cards@ == old(self).dealer.community_cards@,
            final(self).bet_pool == old(self).bet_pool,
            final(self).starting_player_index == old(self).starting_player_index,
            final(self).skip == old(self).skip,
    {
        self.deal_one_each(true);
    }

    /// Seventh street: deals each active player one more face-down card, in
    /// seat order.
    pub fn deal_river(&mut self)
        requires
            old(self).dealer.deck.cards@.len() >= active_count(old(self).players@, old(self).players@.len() as int),
        ensures
            dealt_to_active(old(self).players@, final(self).players@, old(self).dealer.deck.cards@, false),
            final(self).dealer.deck.cards@ == deck_after_deal(
                old(self).dealer.deck.cards@,
                active_count(old(self).players@, old(self).players@.len() as int),
            ),
            final(self).dealer.community_cards@ == old(self).dealer.community_cards@,
            final(self).bet_pool == old(self).bet_pool,
            final(self).starting_player_index == old(self).starting_player_index,
            final(self).skip == old(self).skip,
    {
        self.deal_one_each(false);
    }

    fn deal_one_each(&mut self, face_up: bool)
        requires
            old(self).dealer.deck.cards@.len() >= active_count(old(self).players@, old(self).players@.len() as int),
        ensures
            dealt_to_active(old(self).players@, final(self).players@, old(self).dealer.deck.cards@, face_up),
            final(self).dealer.deck.cards@ == deck_after_deal(
                old(self).dealer.deck.cards@,
                active_count(old(self).players@, old(self).players@.len() as int),
            ),
            final(self).dealer.community_cards@ == old(self).dealer.community_cards@,
            final(self).bet_pool == old(self).bet_pool,
            final(self).starting_player_index == old(self).starting_player_index,
            final(self).skip == old(self).skip,
    {
        let ghost deck0 = self.dealer.deck.cards@;
        let ghost players0 = self.players@;
        let mut i: usize = 0;
        while i < self.players.len()
            invariant
                self.skip == old(self).skip,
                0 <= i <= self.players@.len(),
                self.players@.len() == players0.len(),
                deck0.len() >= active_count(players0, players0.len() as int),
                self.dealer.deck.cards@ == deck_after_deal(deck0, active_count(players0, i as int)),
                self.dealer.community_cards@ == old(self).dealer.community_cards@,
                self.bet_pool == old(self).bet_pool,
                self.starting_player_index == old(self).starting_player_index,
                deck0 == old(self).dealer.deck.cards@,
                players0 == old(self).players@,
                forall|m: int| #![trigger self.players@[m]] i <= m < players0.len() ==> self.players@[m] == players0[m],
                forall|m: int| #![trigger self.players@[m]] 0 <= m < i ==> {
                    let card = dealt_cards(deck_after_deal(deck0, active_count(players0, m)), 1)[0];
                    &&& same_but_cards(self.players@[m], players0[m])
                    &&& players0[m].is_active && face_up ==> self.players@[m].face_up_cards@
                        == players0[m].face_up_cards@.push(card) && self.players@[m].hand@ == players0[m].hand@
                    &&& players0[m].is_active && !face_up ==> self.players@[m].hand@ == players0[m].hand@.push(card)
                        && self.players@[m].face_up_cards@ == players0[m].face_up_cards@
                    &&& !players0[m].is_active ==> self.players@[m].hand@ == players0[m].hand@
                        && self.players@[m].face_up_cards@ == players0[m].face_up_cards@
                },
            decreases self.players@.len() - i,
        {
            proof {
                lemma_active_count_step(players0, i as int);
            }
            if self.players[i].is_active() {
                let ghost before = self.dealer.deck.cards@;
                proof {
                    lemma_deal_one(before);
                    lemma_active_count_mono(players0, i + 1 as int, players0.len() as int);
                    assert(before.len() >= 1);
                    lemma_deal_splits(deck0, active_count(players0, i as int), 1);
                    crate::dealer::lemma_deal_conserves_cards(deck0, active_count(players0, i as int));
                }
                let cards = self.dealer.deal_cards(1);
                let card = cards[0];
                if face_up {
                    self.players[i].add_face_up_card(card);
                } else {
                    let mut one: Vec<Card> = Vec::new();
                    one.push(card);
                    self.players[i].add_cards(one);
                }
            }
            i = i + 1;
        }
    }

    /// The seats of the winners of the showdown (see `stud_winners`).
    pub fn winner_positions(&self) -> (idx: Vec<usize>)
        requires
            stud_showdown_ok(self.players@),
        ensures
            idx@ == stud_winners(self.players@),
            forall|m: int| 0 <= m < idx@.len() ==> idx@[m] < self.players@.len(),
            idx@.len() <= self.players@.len(),
            decided_by_high_cards(
                Seq::new(
                    self.players@.len(),
                    |i: int| hand_strength(self.players@[i].hand@ + self.players@[i].face_up_cards@),
                ),
                Seq::new(self.players@.len(), |i: int| self.players@[i].is_active),
                Seq::new(self.players@.len(), |i: int| self.players@[i].hand@ + self.players@[i].face_up_cards@),
                idx@,
            ),
    {
        proof {
            assert(self.players@.len() == self.players.len());
            lemma_stud_showdown(self.players@);
        }
        let mut scores: Vec<u32> = Vec::new();
        let mut key_cards: Vec<Vec<Card>> = Vec::new();
        let mut i: usize = 0;
        while i < self.players.len()
            invariant
                0 <= i <= self.players@.len(),
                scores@ == stud_scores(self.players@).take(i as int),
                card_views(key_cards@) == all_card_views(self.players@).take(i as int),
                key_cards@.len() == i,
            decreases self.players@.len() - i,
        {
            let all_cards = joined_cards(&self.players[i].hand, &self.players[i].face_up_cards);
            scores.push(HandEvaluator::evaluate_hand_strength(all_cards.as_slice()));
            key_cards.push(all_cards);
            assert(scores@ =~= stud_scores(self.players@).take(i + 1 as int));
            assert(card_views(key_cards@) =~= all_card_views(self.players@).take(i + 1 as int));
            i = i + 1;
        }
        assert(scores@ =~= stud_scores(self.players@));
        assert(card_views(key_cards@) =~= all_card_views(self.players@));
        let active = active_flags_exec(&self.players);
        let best = lowest_scorers_exec(&scores, &active);
        let idx = narrow_by_high_cards(&key_cards, best, 2);
        proof {
            lemma_showdown_winners(scores@, active@, card_views(key_cards@), 2);
            assert forall|m: int| 0 <= m < idx@.len() implies idx@[m] < self.players@.len() by {
                assert(idx@.contains(idx@[m]));
            }
        }
        idx
    }

    /// The seats of the winners (see `winner_positions`), when the showdown
    /// can be decided without looking at a card that is not there;
    /// otherwise `None`.
    pub fn checked_winner_positions(&self) -> (r: Option<Vec<usize>>)
        ensures
            r is Some <==> stud_showdown_ok(self.players@),
            r matches Some(idx) ==> idx@ == stud_winners(self.players@),
            r matches Some(idx) ==> decided_by_high_cards(
                Seq::new(
                    self.players@.len(),
                    |i: int| hand_strength(self.players@[i].hand@ + self.players@[i].face_up_cards@),
                ),
                Seq::new(self.players@.len(), |i: int| self.players@[i].is_active),
                Seq::new(self.players@.len(), |i: int| self.players@[i].hand@ + self.players@[i].face_up_cards@),
                idx@,
            ),
    {
        let mut scores: Vec<u32> = Vec::new();
        let mut key_cards: Vec<Vec<Card>> = Vec::new();
        let mut i: usize = 0;
        while i < self.players.len()
            invariant
                0 <= i <= self.players@.len(),
                scores@ == stud_scores(self.players@).take(i as int),
                card_views(key_cards@) == all_card_views(self.players@).take(i as int),
                key_cards@.len() == i,
            decreases self.players@.len() - i,
        {
            let all_cards = joined_cards(&self.players[i].hand, &self.players[i].face_up_cards);
            scores.push(HandEvaluator::evaluate_hand_strength(all_cards.as_slice()));
            key_cards.push(all_cards);
            assert(scores@ =~= stud_scores(self.players@).take(i + 1 as int));
            assert(card_views(key_cards@) =~= all_card_views(self.players@).take(i + 1 as int));
            i = i + 1;
        }
        assert(scores@ =~= stud_scores(self.players@));
        assert(card_views(key_cards@) =~= all_card_views(self.players@));
        let active = active_flags_exec(&self.players);
        let best = lowest_scorers_exec(&scores, &active);
        let r = try_narrow_by_high_cards(&key_cards, best, 2);
        proof {
            if r is Some {
                assert(self.players@.len() == self.players.len());
                lemma_stud_showdown(self.players@);
            }
        }
        r
    }

    /// The winners of the showdown (see `stud_winners`), in seat order.
    pub fn determine_winner(&self) -> (w: Vec<&Player>)
        requires
            stud_showdown_ok(self.players@),
        ensures
            w@.len() == stud_winners(self.players@).len(),
            forall|k: int| 0 <= k < w@.len() ==> *#[trigger] w@[k] == self.players@[stud_winners(self.players@)[k] as int],
    {
        let idx = self.winner_positions();
        let mut w: Vec<&Player> = Vec::new();
        let mut k: usize = 0;
        while k < idx.len()
            invariant
                0 <= k <= idx@.len(),
                idx@ == stud_winners(self.players@),
                forall|m: int| 0 <= m < idx@.len() ==> idx@[m] < self.players@.len(),
                w@.len() == k,
                forall|m: int| 0 <= m < k ==> *#[trigger] w@[m] == self.players@[idx@[m] as int],
            decreases idx@.len() - k,
        {
            w.push(&self.players[idx[k]]);
            k = k + 1;
        }
        w
    }

    /// Settles the showdown: the pot is split evenly among the winners (each
    /// player is paid once per winner bearing their name), and is left as it
    /// is, to be shown with the result. Gives the winner's name when there is
    /// exactly one winner.
    pub fn award_pot(&mut self) -> (winner: Option<String>)
        requires
            old(self).players@.len() <= u32::MAX,
            stud_showdown_ok(old(self).players@),
            stud_winners(old(self).players@).len() > 0,
            payout_fits(
                old(self).players@,
                names_at(old(self).players@, stud_winners(old(self).players@)),
                share(old(self).bet_pool, stud_winners(old(self).players@).len()),
            ),
        ensures
            final(self).bet_pool == old(self).bet_pool,
            final(self).dealer.community_cards@ == old(self).dealer.community_cards@,
            final(self).dealer.deck.cards@ == old(self).dealer.deck.cards@,
            final(self).starting_player_index == old(self).starting_player_index,
            ({
                let w = stud_winners(old(self).players@);
                let names = names_at(old(self).players@, w);
                &&& paid_out(old(self).players@, final(self).players@, names, share(old(self).bet_pool, w.len()))
                &&& w.len() == 1 ==> opt_view(winner) == Some(names[0])
                &&& w.len() > 1 ==> winner is None
            }),
    {
        let idx = self.winner_positions();
        let num_winners = idx.len();
        let names = names_of(&self.players, &idx);
        let winnings_per_player = self.bet_pool / (num_winners as u32);
        pay_winners(&mut self.players, &names, winnings_per_player);
        if num_winners == 1 {
            Some(names[0].clone())
        } else {
            None
        }
    }

    /// Whether the console input asks to skip betting (see `is_skip_word`).
    pub fn wants_to_skip(input: &str) -> (b: bool)
        ensures
            b == is_skip_word(input@),
    {
        let t = trim_str(input);
        if t.unicode_len() != 4 {
            return false;
        }
        let c0 = t.get_char(0);
        let c1 = t.get_char(1);
        let c2 = t.get_char(2);
        let c3 = t.get_char(3);
        (c0 == 's' || c0 == 'S') && (c1 == 'k' || c1 == 'K') && (c2 == 'i' || c2 == 'I') && (c3 == 'p'
            || c3 == 'P')
    }

    /// Starts a betting round (see `begin_round`).
    pub fn begin_betting_round(&self) -> (r: BettingRound)
        ensures
            r.offset == 0,
            r.highest_bet == max_active_bet(self.players@, self.players@.len() as int),
    {
        begin_round(&self.players)
    }

    /// The next step of the betting round under the stud rules (see
    /// `next_turn_result`); at the end of a pass the pot becomes the sum of
    /// the active players' bets.
    pub fn next_turn(&mut self, round: &mut BettingRound) -> (t: Turn)
        requires
            old(round).offset <= old(self).players@.len(),
            old(self).starting_player_index + old(self).players@.len() <= usize::MAX + 1,
            first_active_offset(
                old(self).players@,
                old(self).starting_player_index as int,
                old(round).offset as int,
            ) >= old(self).players@.len() ==> pass_pot(old(self).players@, stud_rules()) <= u32::MAX,
        ensures
            t == next_turn_result(
                old(self).players@,
                old(self).starting_player_index as int,
                old(round).offset as int,
                stud_rules(),
            ),
            t matches Turn::Ask(i) ==> i < old(self).players@.len() && old(self).players@[i as int].is_active,
            final(round).offset <= old(self).players@.len(),
            final(self).players@ == old(self).players@,
            final(self).starting_player_index == old(self).starting_player_index,
            final(self).dealer.community_cards@ == old(self).dealer.community_cards@,
            final(self).dealer.deck.cards@ == old(self).dealer.deck.cards@,
            ({
                let o = first_active_offset(
                    old(self).players@,
                    old(self).starting_player_index as int,
                    old(round).offset as int,
                );
                let n = old(self).players@.len() as int;
                &&& o < n ==> final(round).offset == o + 1 && final(round).highest_bet == old(round).highest_bet
                    && final(self).bet_pool == old(self).bet_pool
                &&& o >= n ==> final(self).bet_pool == pass_pot(old(self).players@, stud_rules())
                &&& (o >= n && t is Ask) ==> final(round).highest_bet == max_active_bet(old(self).players@, n)
                    && final(round).offset == first_active_offset(
                    old(self).players@,
                    old(self).starting_player_index as int,
                    0,
                ) + 1
            }),
    {
        let rules = RoundRules::stud();
        next_turn(&self.players, self.starting_player_index, &mut self.bet_pool, round, rules)
    }

    /// Applies a player's move (see `apply_move`).
    pub fn apply_action(&mut self, round: &mut BettingRound, seat: usize, action: PlayerAction) -> (out:
        MoveOutcome)
        requires
            seat < old(self).players@.len(),
        ensures
            out == move_outcome(old(self).players@[seat as int].current_bet, old(round).highest_bet, action),
            final(round).offset == old(round).offset,
            final(self).players@.len() == old(self).players@.len(),
            forall|j: int| 0 <= j < old(self).players@.len() && j != seat ==> final(self).players@[j] == old(self).players@[j],
            final(self).bet_pool == old(self).bet_pool,
            final(self).starting_player_index == old(self).starting_player_index,
            move_effect(
                old(self).players@[seat as int],
                final(self).players@[seat as int],
                old(round).highest_bet,
                final(round).highest_bet,
                action,
            ),
    {
        apply_move(&mut self.players, round, seat, action)
    }

    /// Ends the betting round: the next round opens one seat further round
    /// the table.
    pub fn end_betting_round(&mut self)
        requires
            old(self).players@.len() > 0,
            old(self).starting_player_index < usize::MAX,
        ensures
            final(self).starting_player_index == (old(self).starting_player_index + 1) % (old(
                self,
            ).players@.len() as int),
            final(self).players@ == old(self).players@,
            final(self).bet_pool == old(self).bet_pool,
    {
        self.starting_player_index = (self.starting_player_index + 1) % self.players.len();
    }

    /// The table as the clients see it, with the given phase, the player
    /// whose turn it is, and the winner's name.
    pub fn game_state_update(&self, phase: &str, current_player: &str, winner_name: Option<String>) -> (u:
        GameStateUpdate)
        requires
            forall|i: int| #![trigger self.players@[i]]
                0 <= i < self.players@.len() ==> self.players@[i].hand@.len() + self.players@[i].face_up_cards@.len()
                    <= usize::MAX,
        ensures
            stud_state_update(u, self.players@, self.dealer.community_cards@, self.bet_pool),
            u.phase@ == phase@,
            u.current_player@ == current_player@,
            opt_view(u.winner) == opt_view(winner_name),
    {
        let community_cards = card_texts(self.dealer.get_community_cards());
        let highest = highest_bet(&self.players);
        let mut player_states: Vec<PlayerState> = Vec::new();
        let mut i: usize = 0;
        while i < self.players.len()
            invariant
                0 <= i <= self.players@.len(),
                player_states@.len() == i,
                forall|m: int| #![trigger self.players@[m]]
                    0 <= m < self.players@.len() ==> self.players@[m].hand@.len() + self.players@[m].face_up_cards@.len()
                        <= usize::MAX,
                forall|m: int| 0 <= m < i ==> shows_stud_player(#[trigger] player_states@[m], self.players@[m]),
            decreases self.players@.len() - i,
        {
            let player = &self.players[i];
            assert(player.hand@.len() + player.face_up_cards@.len() <= usize::MAX);
            let all_cards = joined_cards(&player.hand, &player.face_up_cards);
            let mut face_up_index: Vec<usize> = Vec::new();
            let mut k: usize = 0;
            while k < player.face_up_cards.len()
                invariant
                    0 <= k <= player.face_up_cards@.len(),
                    player.hand@.len() + player.face_up_cards@.len() <= usize::MAX,
                    face_up_index@ == Seq::new(k as nat, |j: int| (player.hand@.len() + j) as usize),
                decreases player.face_up_cards@.len() - k,
            {
                face_up_index.push(player.hand.len() + k);
                assert(face_up_index@ =~= Seq::new((k + 1) as nat, |j: int| (player.hand@.len() + j) as usize));
                k = k + 1;
            }
            player_states.push(
                PlayerState {
                    name: player.name.clone(),
                    cards: card_texts(&all_cards),
                    chips: player.get_winnings() as i32,
                    current_bet: player.current_bet as i32,
                    folded: !player.is_active(),
                    is_active: player.is_active(),
                    face_up_index,
                },
            );
            i = i + 1;
        }
        GameStateUpdate {
            players: player_states,
            community_cards,
            current_player: String::from_str(current_player),
            pot: self.bet_pool as i32,
            current_bet: highest as i32,
            phase: String::from_str(phase),
            winner: winner_name,
        }
    }
}

/// How a player is shown in a stud state update: name, face-down cards then
/// face-up cards, the positions of the face-up ones, total winnings as
/// chips, current bet, and whether they folded.
pub open spec fn shows_stud_player(s: PlayerState, p: Player) -> bool {
    &&& s.name@ == p.name@
    &&& names_cards(s.cards@, p.hand@ + p.face_up_cards@)
    &&& s.face_up_index@ == Seq::new(p.face_up_cards@.len(), |j: int| (p.hand@.len() + j) as usize)
    &&& s.chips == p.winnings as i32
    &&& s.current_bet == p.current_bet as i32
    &&& s.folded == !p.is_active
    &&& s.is_active == p.is_active
}

/// A stud state update shows every player, the community cards, the pot and
/// the highest bet of all players.
pub open spec fn stud_state_update(u: GameStateUpdate, players: Seq<Player>, community: Seq<Card>, pot: u32) -> bool {
    &&& u.players@.len() == players.len()
    &&& forall|m: int| 0 <= m < players.len() ==> shows_stud_player(#[trigger] u.players@[m], players[m])
    &&& names_cards(u.community_cards@, community)
    &&& u.pot == pot as i32
    &&& u.current_bet == max_bet(players, players.len() as int) as i32
}

/// The stages of a hand of seven-card stud, each but the last ending in a
/// betting round.
#[derive(Debug, Clone, Copy, PartialEq, Eq, Structural)]
pub enum StudStreet {
    Ante,
    Third,
    Fourth,
    Fifth,
    Sixth,
    Seventh,
    Showdown,
}

/// The stage that follows `s`: after the ante comes third street; fourth to
/// seventh street follow only while the hand goes on (at least two players
/// in it); otherwise, and after seventh street, the showdown.
pub open spec fn stud_street_after(s: StudStreet, goes_on: bool) -> StudStreet {
    match s {
        StudStreet::Ante => StudStreet::Third,
        StudStreet::Third => if goes_on {
            StudStreet::Fourth
        } else {
            StudStreet::Showdown
        },
        StudStreet::Fourth => if goes_on {
            StudStreet::Fifth
        } else {
            StudStreet::Showdown
        },
        StudStreet::Fifth => if goes_on {
            StudStreet::Sixth
        } else {
            StudStreet::Showdown
        },
        StudStreet::Sixth => if goes_on {
            StudStreet::Seventh
        } else {
            StudStreet::Showdown
        },
        StudStreet::Seventh => StudStreet::Showdown,
        StudStreet::Showdown => StudStreet::Showdown,
    }
}

/// The name of a stage, as phases are named to the clients.
pub open spec fn stud_street_label(s: StudStreet) -> Seq<char> {
    match s {
        StudStreet::Ante => "Ante"@,
        StudStreet::Third => "Third Street"@,
        StudStreet::Fourth => "Fourth Street"@,
        StudStreet::Fifth => "Fifth Street"@,
        StudStreet::Sixth => "Sixth Street"@,
        StudStreet::Seventh => "Seventh Street"@,
        StudStreet::Showdown => "showdown"@,
    }
}

impl StudStreet {
    /// The name of the stage (see `stud_street_label`).
    pub fn name(&self) -> (n: &'static str)
        ensures
            n@ == stud_street_label(*self),
    {
        match self {
            StudStreet::Ante => "Ante",
            StudStreet::Third => "Third Street",
            StudStreet::Fourth => "Fourth Street",
            StudStreet::Fifth => "Fifth Street",
            StudStreet::Sixth => "Sixth Street",
            StudStreet::Seventh => "Seventh Street",
            StudStreet::Showdown => "showdown",
        }
    }
}

impl SevenCardStud {
    /// The stage that follows `s` at this table (see `stud_street_after`).
    pub fn next_street(&self, s: StudStreet) -> (n: StudStreet)
        ensures
            n == stud_street_after(s, hand_goes_on(self.players@)),
    {
        let goes_on = hand_continues(&self.players);
        match s {
            StudStreet::Ante => StudStreet::Third,
            StudStreet::Third => if goes_on {
                StudStreet::Fourth
            } else {
                StudStreet::Showdown
            },
            StudStreet::Fourth => if goes_on {
                StudStreet::Fifth
            } else {
                StudStreet::Showdown
            },
            StudStreet::Fifth => if goes_on {
                StudStreet::Sixth
            } else {
                StudStreet::Showdown
            },
            StudStreet::Sixth => if goes_on {
                StudStreet::Seventh
            } else {
                StudStreet::Showdown
            },
            StudStreet::Seventh => StudStreet::Showdown,
            StudStreet::Showdown => StudStreet::Showdown,
        }
    }

    /// Deals what a stage brings: three cards to each player on third
    /// street, one face-up card to each active player on fourth to sixth
    /// street, and one face-down card on seventh street; nothing at the ante
    /// or the showdown.
    pub fn open_street(&mut self, s: StudStreet)
        requires
            s == StudStreet::Third ==> old(self).dealer.deck.cards@.len() >= 3 * old(self).players@.len(),
            (s == StudStreet::Fourth || s == StudStreet::Fifth || s == StudStreet::Sixth || s
                == StudStreet::Seventh) ==> old(self).dealer.deck.cards@.len() >= active_count(
                old(self).players@,
                old(self).players@.len() as int,
            ),
        ensures
            final(self).bet_pool == old(self).bet_pool,
            final(self).starting_player_index == old(self).starting_player_index,
            final(self).skip == old(self).skip,
            final(self).dealer.community_cards@ == old(self).dealer.community_cards@,
            s == StudStreet::Third ==> initial_dealt(
                old(self).players@,
                final(self).players@,
                old(self).dealer.deck.cards@,
            ) && final(self).dealer.deck.cards@ == deck_after_deal(
                old(self).dealer.deck.cards@,
                3 * old(self).players@.len(),
            ),
            (s == StudStreet::Fourth || s == StudStreet::Fifth || s == StudStreet::Sixth) ==> dealt_to_active(
                old(self).players@,
                final(self).players@,
                old(self).dealer.deck.cards@,
                true,
            ) && final(self).dealer.deck.cards@ == deck_after_deal(
                old(self).dealer.deck.cards@,
                active_count(old(self).players@, old(self).players@.len() as int),
            ),
            s == StudStreet::Seventh ==> dealt_to_active(
                old(self).players@,
                final(self).players@,
                old(self).dealer.deck.cards@,
                false,
            ) && final(self).dealer.deck.cards@ == deck_after_deal(
                old(self).dealer.deck.cards@,
                active_count(old(self).players@, old(self).players@.len() as int),
            ),
            (s == StudStreet::Ante || s == StudStreet::Showdown) ==> final(self).players@ == old(self).players@
                && final(self).dealer.deck.cards@ == old(self).dealer.deck.cards@,
    {
        match s {
            StudStreet::Third => self.deal_initial_cards(),
            StudStreet::Fourth | StudStreet::Fifth | StudStreet::Sixth => self.deal_face_up_card(),
            StudStreet::Seventh => self.deal_river(),
            _ => {},
        }
    }

    /// Empties the pot once the result has been shown; nothing else changes.
    pub fn clear_pot(&mut self)
        ensures
            final(self).bet_pool == 0,
            final(self).players@ == old(self).players@,
            final(self).dealer.deck.cards@ == old(self).dealer.deck.cards@,
            final(self).dealer.community_cards@ == old(self).dealer.community_cards@,
            final(self).starting_player_index == old(self).starting_player_index,
            final(self).skip == old(self).skip,
    {
        self.bet_pool = 0;
    }
}

} // verus!
