use vstd::prelude::*;
use crate::card::{Card, standard_deck};
use crate::betting::{
    PlayerAction, MoveOutcome, BettingRound, Turn, RoundRules, texas_rules, next_turn_result,
    first_active_offset, move_outcome, move_effect, begin_round, next_turn, apply_move,
};
use crate::dealer::{Dealer, dealt_cards, deck_after_deal, lemma_deal_splits, lemma_deal_one};
use crate::player::{Player, same_but_cards};
use crate::hand_evaluator::{HandEvaluator, hand_strength};
use crate::showdown::{
    showdown_winners, showdown_ok, lowest_scorers_exec, narrow_by_high_cards, try_narrow_by_high_cards, card_views,
    lemma_showdown_winners, decided_by_high_cards, lemma_two_card_showdown,
};
use crate::game_state::{
    GameStateUpdate, PlayerState, active_flags, active_flags_exec, hand_views, joined_cards,
    card_texts, names_cards, highest_bet, max_bet, max_active_bet, sum_bets, string_views, payout_fits, paid_out,
    pay_winners, winner_label, winner_label_exec, plain_state_update, table_state_update, dealt_round, deal_to_each, opt_view, same_update, share, names_at, names_of,
    hand_goes_on, hand_continues,
};

verus! {

/// A game of Texas hold 'em: the players, the dealer, the pot, and whose
/// turn opens the next betting round.
pub struct TexasHoldEm {
    pub players: Vec<Player>,
    pub dealer: Dealer,
    pub bet_pool: u32,
    pub skip: bool,
    pub starting_player_index: usize,
    pub last_state: Option<GameStateUpdate>,
}

/// Each player's hand strength with the community cards.
pub open spec fn texas_scores(players: Seq<Player>, community: Seq<Card>) -> Seq<u32> {
    Seq::new(players.len(), |i: int| hand_strength(players[i].hand@ + community))
}

/// The positions of the winners: the active players with the best hand
/// (with the community cards), ties broken by the highest and then the
/// second-highest hole card.
pub open spec fn texas_winners(players: Seq<Player>, community: Seq<Card>) -> Seq<usize> {
    showdown_winners(texas_scores(players, community), active_flags(players), hand_views(players), 2)
}

/// Every tied player whose hole cards are compared has them.
pub open spec fn texas_showdown_ok(players: Seq<Player>, community: Seq<Card>) -> bool {
    showdown_ok(texas_scores(players, community), active_flags(players), hand_views(players), 2)
}

/// The hold 'em showdown: the winners are the active players whose best
/// hand of their hole cards and the community cards is the strongest, ties
/// broken by the highest and then the second-highest hole card (see
/// `decided_by_high_cards`).
pub proof fn lemma_texas_showdown(players: Seq<Player>, community: Seq<Card>)
    requires
        players.len() <= usize::MAX,
        texas_showdown_ok(players, community),
    ensures
        decided_by_high_cards(
            Seq::new(players.len(), |i: int| hand_strength(players[i].hand@ + community)),
            Seq::new(players.len(), |i: int| players[i].is_active),
            Seq::new(players.len(), |i: int| players[i].hand@),
            texas_winners(players, community),
        ),
{
    lemma_two_card_showdown(texas_scores(players, community), active_flags(players), hand_views(players));
    assert(texas_scores(players, community) =~= Seq::new(
        players.len(),
        |i: int| hand_strength(players[i].hand@ + community),
    ));
    assert(active_flags(players) =~= Seq::new(players.len(), |i: int| players[i].is_active));
    assert(hand_views(players) =~= Seq::new(players.len(), |i: int| players[i].hand@));
}

impl TexasHoldEm {
    /// A new game with the given players, a fresh dealer, and an empty pot.
    pub fn new(players: Vec<Player>) -> (g: Self)
        ensures
            g.players@ == players@,
            g.dealer.deck.cards@ == standard_deck(),
            g.dealer.community_cards@.len() == 0,
            g.bet_pool == 0,
            !g.skip,
            g.starting_player_index == 0,
            g.last_state is None,
    {
        Self {
            players,
            dealer: Dealer::new(),
            bet_pool: 0,
            skip: false,
            starting_player_index: 0,
            last_state: None,
        }
    }

    /// Deals two hole cards to each player in turn.
    pub fn deal_hole_cards(&mut self)
        ensures
            dealt_round(old(self).players@, final(self).players@, old(self).dealer.deck.cards@, 2),
            final(self).dealer.deck.cards@ == deck_after_deal(
                old(self).dealer.deck.cards@,
                2 * old(self).players@.len(),
            ),
            final(self).dealer.community_cards@ == old(self).dealer.community_cards@,
            final(self).bet_pool == old(self).bet_pool,
            final(self).starting_player_index == old(self).starting_player_index,
    {
        deal_to_each(&mut self.players, &mut self.dealer, 2);
    }

    /// Deals three community cards.
    pub fn deal_flop(&mut self)
        ensures
            final(self).dealer.community_cards@ == old(self).dealer.community_cards@ + dealt_cards(
                old(self).dealer.deck.cards@,
                3,
            ),
            final(self).dealer.deck.cards@ == deck_after_deal(old(self).dealer.deck.cards@, 3),
            final(self).players@ == old(self).players@,
            final(self).bet_pool == old(self).bet_pool,
            final(self).starting_player_index == old(self).starting_player_index,
    {
        let ghost d0 = self.dealer.deck.cards@;
        let ghost c0 = self.dealer.community_cards@;
        self.deal_one_community_card();
        self.deal_one_community_card();
        proof {
            lemma_deal_splits(d0, 1, 1);
        }
        self.deal_one_community_card();
        proof {
            lemma_deal_splits(d0, 2, 1);
            assert(c0 + dealt_cards(d0, 1) + dealt_cards(deck_after_deal(d0, 1), 1) + dealt_cards(
                deck_after_deal(d0, 2),
                1,
            ) =~= c0 + dealt_cards(d0, 3));
        }
    }

    /// Deals the fourth community card.
    pub fn deal_turn(&mut self)
        ensures
            final(self).dealer.community_cards@ == old(self).dealer.community_cards@ + dealt_cards(
                old(self).dealer.deck.cards@,
                1,
            ),
            final(self).dealer.deck.cards@ == deck_after_deal(old(self).dealer.deck.cards@, 1),
            final(self).players@ == old(self).players@,
            final(self).bet_pool == old(self).bet_pool,
            final(self).starting_player_index == old(self).starting_player_index,
    {
        self.deal_one_community_card();
    }

    /// Deals the fifth community card.
    pub fn deal_river(&mut self)
        ensures
            final(self).dealer.community_cards@ == old(self).dealer.community_cards@ + dealt_cards(
                old(self).dealer.deck.cards@,
                1,
            ),
            final(self).dealer.deck.cards@ == deck_after_deal(old(self).dealer.deck.cards@, 1),
            final(self).players@ == old(self).players@,
            final(self).bet_pool == old(self).bet_pool,
            final(self).starting_player_index == old(self).starting_player_index,
    {
        self.deal_one_community_card();
    }

    fn deal_one_community_card(&mut self)
        ensures
            final(self).dealer.community_cards@ == old(self).dealer.community_cards@ + dealt_cards(
                old(self).dealer.deck.cards@,
                1,
            ),
            final(self).dealer.deck.cards@ == deck_after_deal(old(self).dealer.deck.cards@, 1),
            final(self).players@ == old(self).players@,
            final(self).bet_pool == old(self).bet_pool,
            final(self).starting_player_index == old(self).starting_player_index,
    {
        proof {
            lemma_deal_one(self.dealer.deck.cards@);
        }
        self.dealer.deal_community_card();
        assert(self.dealer.community_cards@ =~= old(self).dealer.community_cards@ + dealt_cards(
            old(self).dealer.deck.cards@,
            1,
        ));
    }

    /// The strength of a player's best hand made of their hole cards and the
    /// community cards.
    pub fn determine_best_hand_for_player(&self, player: &Player) -> (s: u32)
        ensures
            s == hand_strength(player.hand@ + self.dealer.community_cards@),
    {
        let all_cards = joined_cards(&player.hand, self.dealer.get_community_cards());
        HandEvaluator::evaluate_hand_strength(all_cards.as_slice())
    }

    /// The winners of the showdown (see `texas_winners`), in seat order.
    pub fn determine_winner(&self) -> (w: Vec<&Player>)
        requires
            texas_showdown_ok(self.players@, self.dealer.community_cards@),
        ensures
            w@.len() == texas_winners(self.players@, self.dealer.community_cards@).len(),
            forall|k: int| 0 <= k < w@.len() ==> *#[trigger] w@[k] == self.players@[texas_winners(
                self.players@,
                self.dealer.community_cards@,
            )[k] as int],
    {
        let idx = self.winner_positions();
        let mut w: Vec<&Player> = Vec::new();
        let mut k: usize = 0;
        while k < idx.len()
            invariant
                0 <= k <= idx@.len(),
                idx@ == texas_winners(self.players@, self.dealer.community_cards@),
                forall|m: int| 0 <= m < idx@.len() ==> idx@[m] < self.players@.len(),
                w@.len() == k,
                forall|m: int| 0 <= m < k ==> *#[trigger] w@[m] == self.players@[idx@[m] as int],
            decreases idx@.len() - k,
        {
            w.push(&self.players[idx[k]]);
            k = k + 1;
        }
        w
    }

    /// The seats of the winners of the showdown (see `texas_winners`).
    pub fn winner_positions(&self) -> (idx: Vec<usize>)
        requires
            texas_showdown_ok(self.players@, self.dealer.community_cards@),
        ensures
            idx@ == texas_winners(self.players@, self.dealer.community_cards@),
            forall|m: int| 0 <= m < idx@.len() ==> idx@[m] < self.players@.len(),
            decided_by_high_cards(
                Seq::new(
                    self.players@.len(),
                    |i: int| hand_strength(self.players@[i].hand@ + self.dealer.community_cards@),
                ),
                Seq::new(self.players@.len(), |i: int| self.players@[i].is_active),
                Seq::new(self.players@.len(), |i: int| self.players@[i].hand@),
                idx@,
            ),
    {
        proof {
            assert(self.players@.len() == self.players.len());
            lemma_texas_showdown(self.players@, self.dealer.community_cards@);
        }
        let ghost community = self.dealer.community_cards@;
        let mut scores: Vec<u32> = Vec::new();
        let mut key_cards: Vec<Vec<Card>> = Vec::new();
        let mut i: usize = 0;
        while i < self.players.len()
            invariant
                0 <= i <= self.players@.len(),
                community == self.dealer.community_cards@,
                scores@ == texas_scores(self.players@, community).take(i as int),
                card_views(key_cards@) == hand_views(self.players@).take(i as int),
                key_cards@.len() == i,
            decreases self.players@.len() - i,
        {
            scores.push(self.determine_best_hand_for_player(&self.players[i]));
            key_cards.push(crate::player::copy_cards(&self.players[i].hand));
            assert(scores@ =~= texas_scores(self.players@, community).take(i + 1 as int));
            assert(card_views(key_cards@) =~= hand_views(self.players@).take(i + 1 as int));
            i = i + 1;
        }
        assert(scores@ =~= texas_scores(self.players@, community));
        assert(card_views(key_cards@) =~= hand_views(self.players@));
        let active = active_flags_exec(&self.players);
        let best = lowest_scorers_exec(&scores, &active);
        let idx = narrow_by_high_cards(&key_cards, best, 2);
        proof {
            lemma_showdown_winners(scores@, active@, card_views(key_cards@), 2);
            assert forall|m: int| 0 <= m < idx@.len() implies idx@[m] < self.players@.len() by {
                assert(idx@.contains(idx@[m]));
            }
        }
        idx
    }

    /// The seats of the winners (see `winner_positions`), when the showdown
    /// can be decided without looking at a card that is not there;
    /// otherwise `None`.
    pub fn checked_winner_positions(&self) -> (r: Option<Vec<usize>>)
        ensures
            r is Some <==> texas_showdown_ok(self.players@, self.dealer.community_cards@),
            r matches Some(idx) ==> idx@ == texas_winners(self.players@, self.dealer.community_cards@),
            r matches Some(idx) ==> decided_by_high_cards(
                Seq::new(
                    self.players@.len(),
                    |i: int| hand_strength(self.players@[i].hand@ + self.dealer.community_cards@),
                ),
                Seq::new(self.players@.len(), |i: int| self.players@[i].is_active),
                Seq::new(self.players@.len(), |i: int| self.players@[i].hand@),
                idx@,
            ),
    {
        let ghost community = self.dealer.community_cards@;
        let mut scores: Vec<u32> = Vec::new();
        let mut key_cards: Vec<Vec<Card>> = Vec::new();
        let mut i: usize = 0;
        while i < self.players.len()
            invariant
                0 <= i <= self.players@.len(),
                community == self.dealer.community_cards@,
                scores@ == texas_scores(self.players@, community).take(i as int),
                card_views(key_cards@) == hand_views(self.players@).take(i as int),
                key_cards@.len() == i,
            decreases self.players@.len() - i,
        {
            scores.push(self.determine_best_hand_for_player(&self.players[i]));
            key_cards.push(crate::player::copy_cards(&self.players[i].hand));
            assert(scores@ =~= texas_scores(self.players@, community).take(i + 1 as int));
            assert(card_views(key_cards@) =~= hand_views(self.players@).take(i + 1 as int));
            i = i + 1;
        }
        assert(scores@ =~= texas_scores(self.players@, community));
        assert(card_views(key_cards@) =~= hand_views(self.players@));
        let active = active_flags_exec(&self.players);
        let best = lowest_scorers_exec(&scores, &active);
        let r = try_narrow_by_high_cards(&key_cards, best, 2);
        proof {
            if r is Some {
                assert(self.players@.len() == self.players.len());
                lemma_texas_showdown(self.players@, self.dealer.community_cards@);
            }
        }
        r
    }

    /// Settles the showdown: the pot is split evenly among the winners (each
    /// player is paid once per winner bearing their name) and gives the
    /// winner label; the pot is left as it is, to be shown with the result.
    /// When nobody is left in the hand the pot is emptied and there is no
    /// label.
    pub fn award_pot(&mut self) -> (label: Option<String>)
        requires
            old(self).players@.len() <= u32::MAX,
            texas_showdown_ok(old(self).players@, old(self).dealer.community_cards@),
            texas_winners(old(self).players@, old(self).dealer.community_cards@).len() > 0 ==> payout_fits(
                old(self).players@,
                names_at(old(self).players@, texas_winners(old(self).players@, old(self).dealer.community_cards@)),
                share(old(self).bet_pool, texas_winners(old(self).players@, old(self).dealer.community_cards@).len()),
            ),
        ensures
            final(self).dealer.community_cards@ == old(self).dealer.community_cards@,
            final(self).dealer.deck.cards@ == old(self).dealer.deck.cards@,
            final(self).starting_player_index == old(self).starting_player_index,
            ({
                let w = texas_winners(old(self).players@, old(self).dealer.community_cards@);
                let names = names_at(old(self).players@, w);
                &&& w.len() == 0 ==> label is None && final(self).players@ == old(self).players@
                    && final(self).bet_pool == 0
                &&& w.len() > 0 ==> final(self).bet_pool == old(self).bet_pool
                &&& w.len() > 0 ==> paid_out(
                    old(self).players@,
                    final(self).players@,
                    names,
                    share(old(self).bet_pool, w.len()),
                ) && label == Some(label->0) && label->0@ == winner_label(names)
            }),
    {
        let idx = self.winner_positions();
        let num_winners = idx.len();
        if num_winners == 0 {
            self.bet_pool = 0;
            return None;
        }
        let names = names_of(&self.players, &idx);
        assert(num_winners <= self.players@.len()) by {
            crate::showdown::lemma_showdown_winners(
                texas_scores(self.players@, self.dealer.community_cards@),
                active_flags(self.players@),
                hand_views(self.players@),
                2,
            );
        }
        let winnings_per_player = self.bet_pool / (num_winners as u32);
        pay_winners(&mut self.players, &names, winnings_per_player);
        let label = winner_label_exec(&names);
        Some(label)
    }

    /// The table as the clients see it, with the given phase, the player
    /// whose turn it is, and the winner label.
    pub fn game_state_update(&self, phase: &str, current_player: &str, winner_name: Option<String>) -> (u:
        GameStateUpdate)
        ensures
            plain_state_update(u, self.players@, self.dealer.community_cards@, self.bet_pool),
            u.phase@ == phase@,
            u.current_player@ == current_player@,
            opt_view(u.winner) == opt_view(winner_name),
    {
        table_state_update(&self.players, self.dealer.get_community_cards(), self.bet_pool, phase, current_player, winner_name)
    }

    /// Builds the state update, keeps it as the last state, and gives it back
    /// to be sent to the clients.
    pub fn record_game_state_update(&mut self, phase: &str, current_player: &str, winner_name: Option<
        String,
    >) -> (u: GameStateUpdate)
        ensures
            plain_state_update(u, old(self).players@, old(self).dealer.community_cards@, old(self).bet_pool),
            u.phase@ == phase@,
            u.current_player@ == current_player@,
            opt_view(u.winner) == opt_view(winner_name),
            final(self).last_state is Some,
            same_update(final(self).last_state->0, u),
            final(self).players@ == old(self).players@,
            final(self).bet_pool == old(self).bet_pool,
            final(self).dealer.community_cards@ == old(self).dealer.community_cards@,
            final(self).dealer.deck.cards@ == old(self).dealer.deck.cards@,
            final(self).starting_player_index == old(self).starting_player_index,
    {
        let u = self.game_state_update(phase, current_player, winner_name);
        self.last_state = Some(u.copy());
        u
    }
}

impl TexasHoldEm {
    /// Starts a betting round (see `begin_round`).
    pub fn begin_betting_round(&self) -> (r: BettingRound)
        ensures
            r.offset == 0,
            r.highest_bet == max_active_bet(self.players@, self.players@.len() as int),
    {
        begin_round(&self.players)
    }

    /// The next step of the betting round under the hold 'em rules (see
    /// `next_turn_result`); at the end of a pass the pot becomes the sum of
    /// all players' bets.
    pub fn next_turn(&mut self, round: &mut BettingRound) -> (t: Turn)
        requires
            old(round).offset <= old(self).players@.len(),
            old(self).starting_player_index + old(self).players@.len() <= usize::MAX + 1,
            first_active_offset(
                old(self).players@,
                old(self).starting_player_index as int,
                old(round).offset as int,
            ) >= old(self).players@.len() ==> sum_bets(old(self).players@, old(self).players@.len() as int)
                <= u32::MAX,
        ensures
            t == next_turn_result(
                old(self).players@,
                old(self).starting_player_index as int,
                old(round).offset as int,
                texas_rules(),
            ),
            t matches Turn::Ask(i) ==> i < old(self).players@.len() && old(self).players@[i as int].is_active,
            final(round).offset <= old(self).players@.len(),
            final(self).players@ == old(self).players@,
            final(self).starting_player_index == old(self).starting_player_index,
            final(self).dealer.community_cards@ == old(self).dealer.community_cards@,
            final(self).dealer.deck.cards@ == old(self).dealer.deck.cards@,
            ({
                let o = first_active_offset(
                    old(self).players@,
                    old(self).starting_player_index as int,
                    old(round).offset as int,
                );
                let n = old(self).players@.len() as int;
                &&& o < n ==> final(round).offset == o + 1 && final(round).highest_bet == old(round).highest_bet
                    && final(self).bet_pool == old(self).bet_pool
                &&& o >= n ==> final(self).bet_pool == sum_bets(old(self).players@, n)
                &&& (o >= n && t is Ask) ==> final(round).highest_bet == max_active_bet(old(self).players@, n)
                    && final(round).offset == first_active_offset(
                    old(self).players@,
                    old(self).starting_player_index as int,
                    0,
                ) + 1
            }),
    {
        let rules = RoundRules::texas();
        next_turn(&self.players, self.starting_player_index, &mut self.bet_pool, round, rules)
    }

    /// Applies a player's move (see `apply_move`).
    pub fn apply_action(&mut self, round: &mut BettingRound, seat: usize, action: PlayerAction) -> (out:
        MoveOutcome)
        requires
            seat < old(self).players@.len(),
        ensures
            out == move_outcome(old(self).players@[seat as int].current_bet, old(round).highest_bet, action),
            final(round).offset == old(round).offset,
            final(self).players@.len() == old(self).players@.len(),
            forall|j: int| 0 <= j < old(self).players@.len() && j != seat ==> final(self).players@[j] == old(self).players@[j],
            final(self).bet_pool == old(self).bet_pool,
            final(self).starting_player_index == old(self).starting_player_index,
            final(self).dealer.community_cards@ == old(self).dealer.community_cards@,
            final(self).dealer.deck.cards@ == old(self).dealer.deck.cards@,
            move_effect(
                old(self).players@[seat as int],
                final(self).players@[seat as int],
                old(round).highest_bet,
                final(round).highest_bet,
                action,
            ),
    {
        apply_move(&mut self.players, round, seat, action)
    }

    /// Ends the betting round: the next round opens one seat further round
    /// the table.
    pub fn end_betting_round(&mut self)
        requires
            old(self).players@.len() > 0,
            old(self).starting_player_index < usize::MAX,
        ensures
            final(self).starting_player_index == (old(self).starting_player_index + 1) % (old(
                self,
            ).players@.len() as int),
            final(self).players@ == old(self).players@,
            final(self).bet_pool == old(self).bet_pool,
            final(self).dealer.community_cards@ == old(self).dealer.community_cards@,
            final(self).dealer.deck.cards@ == old(self).dealer.deck.cards@,
    {
        self.starting_player_index = (self.starting_player_index + 1) % self.players.len();
    }
}

/// The stages of a hand of hold 'em, each but the last ending in a betting
/// round.
#[derive(Debug, Clone, Copy, PartialEq, Eq, Structural)]
pub enum Street {
    Ante,
    PreFlop,
    Flop,
    Turn,
    River,
    Showdown,
}

/// The stage that follows `s`: after the ante come the hole cards, then the
/// flop, the turn and the river, each only while the hand goes on (at least
/// two players in it); otherwise, and after the river, the showdown.
pub open spec fn street_after(s: Street, goes_on: bool) -> Street {
    match s {
        Street::Ante => Street::PreFlop,
        Street::PreFlop => if goes_on {
            Street::Flop
        } else {
            Street::Showdown
        },
        Street::Flop => if goes_on {
            Street::Turn
        } else {
            Street::Showdown
        },
        Street::Turn => if goes_on {
            Street::River
        } else {
            Street::Showdown
        },
        Street::River => Street::Showdown,
        Street::Showdown => Street::Showdown,
    }
}

/// The name of a stage, as phases are named to the clients.
pub open spec fn street_label(s: Street) -> Seq<char> {
    match s {
        Street::Ante => "Ante"@,
        Street::PreFlop => "Pre-Flop"@,
        Street::Flop => "Flop"@,
        Street::Turn => "Turn"@,
        Street::River => "River"@,
        Street::Showdown => "showdown"@,
    }
}

impl Street {
    /// The name of the stage (see `street_label`).
    pub fn name(&self) -> (n: &'static str)
        ensures
            n@ == street_label(*self),
    {
        match self {
            Street::Ante => "Ante",
            Street::PreFlop => "Pre-Flop",
            Street::Flop => "Flop",
            Street::Turn => "Turn",
            Street::River => "River",
            Street::Showdown => "showdown",
        }
    }
}

impl TexasHoldEm {
    /// The stage that follows `s` at this table (see `street_after`).
    pub fn next_street(&self, s: Street) -> (n: Street)
        ensures
            n == street_after(s, hand_goes_on(self.players@)),
    {
        let goes_on = hand_continues(&self.players);
        match s {
            Street::Ante => Street::PreFlop,
            Street::PreFlop => if goes_on {
                Street::Flop
            } else {
                Street::Showdown
            },
            Street::Flop => if goes_on {
                Street::Turn
            } else {
                Street::Showdown
            },
            Street::Turn => if goes_on {
                Street::River
            } else {
                Street::Showdown
            },
            Street::River => Street::Showdown,
            Street::Showdown => Street::Showdown,
        }
    }

    /// Deals what a stage brings: two hole cards to each player before the
    /// flop, three community cards on the flop, one on the turn and one on
    /// the river; nothing at the ante or the showdown.
    pub fn open_street(&mut self, s: Street)
        ensures
            final(self).bet_pool == old(self).bet_pool,
            final(self).starting_player_index == old(self).starting_player_index,
            s == Street::PreFlop ==> dealt_round(
                old(self).players@,
                final(self).players@,
                old(self).dealer.deck.cards@,
                2,
            ) && final(self).dealer.deck.cards@ == deck_after_deal(
                old(self).dealer.deck.cards@,
                2 * old(self).players@.len(),
            ) && final(self).dealer.community_cards@ == old(self).dealer.community_cards@,
            (s == Street::Flop || s == Street::Turn || s == Street::River) ==> {
                let k: nat = if s == Street::Flop {
                    3
                } else {
                    1
                };
                &&& final(self).players@ == old(self).players@
                &&& final(self).dealer.community_cards@ == old(self).dealer.community_cards@ + dealt_cards(
                    old(self).dealer.deck.cards@,
                    k,
                )
                &&& final(self).dealer.deck.cards@ == deck_after_deal(old(self).dealer.deck.cards@, k)
            },
            (s == Street::Ante || s == Street::Showdown) ==> final(self).players@ == old(self).players@
                && final(self).dealer.deck.cards@ == old(self).dealer.deck.cards@
                && final(self).dealer.community_cards@ == old(self).dealer.community_cards@,
    {
        match s {
            Street::PreFlop => self.deal_hole_cards(),
            Street::Flop => self.deal_flop(),
            Street::Turn => self.deal_turn(),
            Street::River => self.deal_river(),
            _ => {},
        }
    }

    /// Empties the pot once the result has been shown; nothing else changes.
    pub fn clear_pot(&mut self)
        ensures
            final(self).bet_pool == 0,
            final(self).players@ == old(self).players@,
            final(self).dealer.deck.cards@ == old(self).dealer.deck.cards@,
            final(self).dealer.community_cards@ == old(self).dealer.community_cards@,
            final(self).starting_player_index == old(self).starting_player_index,
    {
        self.bet_pool = 0;
    }
}

/// Every hand ends in a showdown: from any stage, at most five steps reach
/// it, and it stays there.
pub proof fn lemma_streets_reach_showdown(s: Street, g1: bool, g2: bool, g3: bool, g4: bool, g5: bool)
    ensures
        street_after(street_after(street_after(street_after(street_after(s, g1), g2), g3), g4), g5)
            == Street::Showdown,
        street_after(Street::Showdown, g1) == Street::Showdown,
{
}

} // verus!
