use vstd::prelude::*;
use vstd::string::StrSliceExecFns;
use crate::card::{Card, standard_deck};
use crate::betting::{
    PlayerAction, MoveOutcome, BettingRound, Turn, RoundRules, draw_rules, next_turn_result,
    first_active_offset, move_outcome, move_effect, begin_round, next_turn, apply_move, trimmed,
    trim_str, pass_pot, lowercase, parsed_unsigned, all_digits, is_white, is_whitespace_char,
};
use crate::dealer::{Dealer, dealt_cards, deck_after_deal};
use crate::player::{Player, same_but_cards};
use crate::hand_evaluator::{HandEvaluator, hand_strength};
use crate::showdown::{
    showdown_winners, showdown_ok, lowest_scorers_exec, narrow_by_high_cards, try_narrow_by_high_cards, card_views,
    lemma_showdown_winners, decided_by_high_card_order, lemma_showdown_order,
};
use crate::game_state::{
    GameStateUpdate, active_flags, active_flags_exec, hand_views, max_active_bet, string_views,
    payout_fits, paid_out, pay_winners, opt_view, share, names_at, names_of, plain_state_update,
    table_state_update, dealt_round, deal_to_each, hand_goes_on, hand_continues,
};

verus! {

/// A game of five-card draw: the players, the dealer and the pot.
pub struct FiveCardDraw {
    pub players: Vec<Player>,
    pub dealer: Dealer,
    pub bet_pool: u32,
}

/// Each player's hand strength.
pub open spec fn draw_scores(players: Seq<Player>) -> Seq<u32> {
    Seq::new(players.len(), |i: int| hand_strength(players[i].hand@))
}

/// The positions of the winners: the active players with the best hand,
/// ties broken by their cards from the highest down, up to the fifth.
pub open spec fn draw_winners(players: Seq<Player>) -> Seq<usize> {
    showdown_winners(draw_scores(players), active_flags(players), hand_views(players), 5)
}

/// Every tied player whose cards are compared has them.
pub open spec fn draw_showdown_ok(players: Seq<Player>) -> bool {
    showdown_ok(draw_scores(players), active_flags(players), hand_views(players), 5)
}

/// The hand after the discarded cards are replaced: going from the last
/// chosen position back to the first, each position gets the next of the
/// new cards, taken from the end, while new cards are left.
pub open spec fn replace_from_back(hand: Seq<Card>, positions: Seq<usize>, cards: Seq<Card>) -> Seq<Card>
    decreases positions.len(),
{
    if positions.len() == 0 || cards.len() == 0 {
        hand
    } else {
        replace_from_back(
            hand.update(positions.last() as int, cards.last()),
            positions.drop_last(),
            cards.drop_last(),
        )
    }
}

/// What a player asks for in the draw phase.
pub enum DrawRequest {
    /// Keep every card.
    KeepAll,
    /// Discard the cards at these positions.
    Discard(Vec<usize>),
}

/// What became of a draw request.
#[derive(Debug, Clone, Copy, PartialEq, Eq, Structural)]
pub enum DrawOutcome {
    /// More than three cards were to be discarded; nothing changed.
    TooMany,
    /// A position was not in the hand; nothing changed.
    BadPosition,
    /// The cards were replaced.
    Replaced,
}

/// The words of `s`: its longest runs of characters that are not white
/// space, in order.
pub open spec fn whitespace_words(s: Seq<char>) -> Seq<Seq<char>>
    decreases s.len(),
{
    if s.len() == 0 {
        seq![]
    } else {
        let prev = whitespace_words(s.drop_last());
        let c = s.last();
        if is_white(c) {
            prev
        } else if s.len() >= 2 && !is_white(s[s.len() - 2]) {
            prev.update(prev.len() - 1, prev.last().push(c))
        } else {
            prev.push(seq![c])
        }
    }
}

proof fn lemma_words_end_in_last(s: Seq<char>)
    requires
        s.len() > 0,
        !is_white(s.last()),
    ensures
        whitespace_words(s).len() > 0,
    decreases s.len(),
{
    if s.len() >= 2 && !is_white(s[s.len() - 2]) {
        let t = s.drop_last();
        assert(t.last() == s[s.len() - 2]);
        lemma_words_end_in_last(t);
    }
}

/// The words of `s` (see `whitespace_words`), as `str::split_whitespace`
/// gives them.
fn split_words(s: &str) -> (r: Vec<String>)
    ensures
        string_views(r@) == whitespace_words(s@),
{
    let n = s.unicode_len();
    let mut words: Vec<String> = Vec::new();
    let mut i: usize = 0;
    while i < n
        invariant
            n == s@.len(),
            0 <= i <= n,
            string_views(words@) == whitespace_words(s@.take(i as int)),
        decreases n - i,
    {
        let ghost t = s@.take(i + 1 as int);
        let ghost prev = whitespace_words(s@.take(i as int));
        proof {
            assert(t.drop_last() =~= s@.take(i as int));
            assert(t.last() == s@[i as int]);
        }
        let c = s.get_char(i);
        let one = s.substring_char(i, i + 1);
        assert(one@ =~= seq![c]);
        if is_whitespace_char(c) {
        } else if i >= 1 && !is_whitespace_char(s.get_char(i - 1)) {
            proof {
                assert(t[t.len() - 2] == s@[i - 1]);
                assert(s@.take(i as int).last() == s@[i - 1]);
                lemma_words_end_in_last(s@.take(i as int));
            }
            let ghost before = words@;
            let mut w = words.pop().unwrap();
            proof {
                assert(before.len() > 0);
                assert(w == before.last());
                assert(words@ =~= before.drop_last());
                assert(string_views(before).last() == w@);
                assert(prev.last() == w@);
            }
            w.append(one);
            assert(w@ =~= prev.last().push(c));
            words.push(w);
            proof {
                assert(string_views(words@) =~= prev.update(prev.len() - 1, prev.last().push(c)));
            }
        } else {
            let ghost before = string_views(words@);
            words.push(String::from_str(one));
            proof {
                if i >= 1 {
                    assert(t[t.len() - 2] == s@[i - 1]);
                }
                assert(string_views(words@) =~= before.push(seq![c]));
            }
        }
        i = i + 1;
    }
    assert(s@.take(n as int) =~= s@);
    words
}

/// Calls `str::parse::<usize>`, which the documentation describes as taking
/// an optional `+` followed by decimal digits, and refusing anything else,
/// an empty string and values above `usize::MAX`.
#[verifier::external_body]
fn parse_usize(s: &str) -> (r: Option<usize>)
    ensures
        r matches Some(v) ==> parsed_unsigned(s@, usize::MAX as nat) == Some(v as nat),
        r is None ==> parsed_unsigned(s@, usize::MAX as nat) is None,
{
    s.parse::<usize>().ok()
}

/// The words that parse as positions, in order; the others are dropped.
pub open spec fn parsed_positions(words: Seq<Seq<char>>) -> Seq<usize>
    decreases words.len(),
{
    if words.len() == 0 {
        seq![]
    } else {
        let prev = parsed_positions(words.drop_last());
        match parsed_unsigned(words.last(), usize::MAX as nat) {
            Some(v) => prev.push(v as usize),
            None => prev,
        }
    }
}

/// The request a player types in the draw phase: `none` (trimmed, in any
/// case) keeps all cards; otherwise the words that are numbers are the
/// positions to discard.
pub open spec fn is_keep_all(input: Seq<char>) -> bool {
    lowercase(trimmed(input)) == "none"@
}

/// The five-card draw showdown: the winners are the active players whose
/// hand is the strongest, ties broken by comparing their cards from the
/// highest down, up to the fifth (see `decided_by_high_card_order`).
pub proof fn lemma_draw_showdown(players: Seq<Player>)
    requires
        players.len() <= usize::MAX,
        draw_showdown_ok(players),
    ensures
        decided_by_high_card_order(
            Seq::new(players.len(), |i: int| hand_strength(players[i].hand@)),
            Seq::new(players.len(), |i: int| players[i].is_active),
            Seq::new(players.len(), |i: int| players[i].hand@),
            5,
            draw_winners(players),
        ),
{
    lemma_showdown_order(draw_scores(players), active_flags(players), hand_views(players), 5);
    assert(draw_scores(players) =~= Seq::new(players.len(), |i: int| hand_strength(players[i].hand@)));
    assert(active_flags(players) =~= Seq::new(players.len(), |i: int| players[i].is_active));
    assert(hand_views(players) =~= Seq::new(players.len(), |i: int| players[i].hand@));
}

impl DrawRequest {
    /// The request a player types in the draw phase (see `is_keep_all` and
    /// `parsed_positions`).
    pub fn from_typed(input: &str) -> (r: DrawRequest)
        ensures
            is_keep_all(input@) <==> r is KeepAll,
            r matches DrawRequest::Discard(p) ==> p@ == parsed_positions(
                whitespace_words(lowercase(trimmed(input@))),
            ),
    {
        let word = crate::betting::to_lowercase(trim_str(input));
        if word == String::from_str("none") {
            return DrawRequest::KeepAll;
        }
        let words = split_words(word.as_str());
        let ghost ws = string_views(words@);
        let mut positions: Vec<usize> = Vec::new();
        let mut k: usize = 0;
        while k < words.len()
            invariant
                0 <= k <= words@.len(),
                ws == string_views(words@),
                positions@ == parsed_positions(ws.take(k as int)),
            decreases words@.len() - k,
        {
            assert(ws.take(k + 1 as int).drop_last() =~= ws.take(k as int));
            match parse_usize(words[k].as_str()) {
                Some(v) => positions.push(v),
                None => {},
            }
            k = k + 1;
        }
        assert(ws.take(words@.len() as int) =~= ws);
        DrawRequest::Discard(positions)
    }
}

impl FiveCardDraw {
    /// A new game with a new player for each name, a fresh dealer, and an
    /// empty pot.
    pub fn new(player_names: Vec<&str>) -> (g: Self)
        ensures
            g.players@.len() == player_names@.len(),
            forall|i: int| #![trigger g.players@[i]] 0 <= i < player_names@.len() ==> {
                &&& g.players@[i].name@ == player_names@[i]@
                &&& g.players@[i].hand@.len() == 0
                &&& g.players@[i].face_up_cards@.len() == 0
                &&& g.players@[i].winnings == 0
                &&& g.players@[i].is_active
                &&& g.players@[i].current_bet == 0
                &&& g.players@[i].game_statistics@.len() == 0
            },
            g.dealer.deck.cards@ == standard_deck(),
            g.dealer.community_cards@.len() == 0,
            g.bet_pool == 0,
    {
        let mut players: Vec<Player> = Vec::new();
        let mut i: usize = 0;
        while i < player_names.len()
            invariant
                0 <= i <= player_names@.len(),
                players@.len() == i,
                forall|m: int| #![trigger players@[m]] 0 <= m < i ==> {
                    &&& players@[m].name@ == player_names@[m]@
                    &&& players@[m].hand@.len() == 0
                    &&& players@[m].face_up_cards@.len() == 0
                    &&& players@[m].winnings == 0
                    &&& players@[m].is_active
                    &&& players@[m].current_bet == 0
                    &&& players@[m].game_statistics@.len() == 0
                },
            decreases player_names@.len() - i,
        {
            players.push(Player::new(player_names[i]));
            i = i + 1;
        }
        Self { players, dealer: Dealer::new(), bet_pool: 0 }
    }

    /// Deals five cards to each player in turn.
    pub fn deal_initial_hands(&mut self)
        ensures
            dealt_round(old(self).players@, final(self).players@, old(self).dealer.deck.cards@, 5),
            final(self).dealer.deck.cards@ == deck_after_deal(
                old(self).dealer.deck.cards@,
                5 * old(self).players@.len(),
            ),
            final(self).dealer.community_cards@ == old(self).dealer.community_cards@,
            final(self).bet_pool == old(self).bet_pool,
    {
        deal_to_each(&mut self.players, &mut self.dealer, 5);
    }

    /// The draw of one player: up to three cards, at the chosen positions,
    /// are replaced by new cards from the deck (see `replace_from_back`).
    /// More than three positions, or a position outside the hand, changes
    /// nothing.
    pub fn discard_and_draw(&mut self, seat: usize, positions: &Vec<usize>) -> (out: DrawOutcome)
        requires
            seat < old(self).players@.len(),
        ensures
            final(self).players@.len() == old(self).players@.len(),
            forall|j: int| 0 <= j < old(self).players@.len() && j != seat ==> final(self).players@[j] == old(self).players@[j],
            final(self).bet_pool == old(self).bet_pool,
            final(self).dealer.community_cards@ == old(self).dealer.community_cards@,
            ({
                let p = old(self).players@[seat as int];
                let deck = old(self).dealer.deck.cards@;
                let k = positions@.len();
                if k > 3 {
                    out == DrawOutcome::TooMany && final(self).players@ == old(self).players@
                        && final(self).dealer.deck.cards@ == deck
                } else if exists|m: int| 0 <= m < k && positions@[m] >= p.hand@.len() {
                    out == DrawOutcome::BadPosition && final(self).players@ == old(self).players@
                        && final(self).dealer.deck.cards@ == deck
                } else {
                    &&& out == DrawOutcome::Replaced
                    &&& final(self).dealer.deck.cards@ == deck_after_deal(deck, k)
                    &&& final(self).players@[seat as int].hand@ == replace_from_back(
                        p.hand@,
                        positions@,
                        dealt_cards(deck, k),
                    )
                    &&& final(self).players@[seat as int].face_up_cards@ == p.face_up_cards@
                    &&& same_but_cards(final(self).players@[seat as int], p)
                }
            }),
    {
        if positions.len() > 3 {
            return DrawOutcome::TooMany;
        }
        let mut m: usize = 0;
        while m < positions.len()
            invariant
                0 <= m <= positions@.len(),
                positions@.len() <= 3,
                seat < self.players@.len(),
                forall|x: int| 0 <= x < m ==> positions@[x] < self.players@[seat as int].hand@.len(),
            decreases positions@.len() - m,
        {
            if positions[m] >= self.players[seat].hand.len() {
                assert(positions@[m as int] >= self.players@[seat as int].hand@.len());
                return DrawOutcome::BadPosition;
            }
            m = m + 1;
        }
        let ghost deck = self.dealer.deck.cards@;
        let ghost p0 = self.players@[seat as int];
        let mut new_cards = self.dealer.deal_cards(positions.len());
        let ghost target = replace_from_back(p0.hand@, positions@, new_cards@);
        let mut j: usize = positions.len();
        assert(positions@.take(j as int) =~= positions@);
        while j > 0
            invariant
                0 <= j <= positions@.len(),
                seat < self.players@.len(),
                self.players@.len() == old(self).players@.len(),
                forall|x: int| 0 <= x < old(self).players@.len() && x != seat ==> self.players@[x] == old(self).players@[x],
                forall|x: int| 0 <= x < positions@.len() ==> positions@[x] < p0.hand@.len(),
                self.players@[seat as int].hand@.len() == p0.hand@.len(),
                self.players@[seat as int].face_up_cards@ == p0.face_up_cards@,
                same_but_cards(self.players@[seat as int], p0),
                replace_from_back(self.players@[seat as int].hand@, positions@.take(j as int), new_cards@) == target,
                self.dealer.deck.cards@ == deck_after_deal(deck, positions@.len()),
                self.dealer.community_cards@ == old(self).dealer.community_cards@,
                self.bet_pool == old(self).bet_pool,
            decreases j,
        {
            let pos = positions[j - 1];
            let ghost before_hand = self.players@[seat as int].hand@;
            let ghost before_cards = new_cards@;
            assert(positions@.take(j as int).drop_last() =~= positions@.take(j - 1 as int));
            match new_cards.pop() {
                Some(card) => {
                    self.players[seat].hand.set(pos, card);
                },
                None => {
                    assert(replace_from_back(before_hand, positions@.take(j - 1 as int), before_cards) == before_hand);
                },
            }
            j = j - 1;
        }
        assert(positions@.take(0) =~= Seq::<usize>::empty());
        DrawOutcome::Replaced
    }

    /// The seats of the winners of the showdown (see `draw_winners`).
    pub fn winner_positions(&self) -> (idx: Vec<usize>)
        requires
            draw_showdown_ok(self.players@),
        ensures
            idx@ == draw_winners(self.players@),
            forall|m: int| 0 <= m < idx@.len() ==> idx@[m] < self.players@.len(),
            idx@.len() <= self.players@.len(),
            decided_by_high_card_order(
                Seq::new(self.players@.len(), |i: int| hand_strength(self.players@[i].hand@)),
                Seq::new(self.players@.len(), |i: int| self.players@[i].is_active),
                Seq::new(self.players@.len(), |i: int| self.players@[i].hand@),
                5,
                idx@,
            ),
    {
        proof {
            assert(self.players@.len() == self.players.len());
            lemma_draw_showdown(self.players@);
        }
        let mut scores: Vec<u32> = Vec::new();
        let mut key_cards: Vec<Vec<Card>> = Vec::new();
        let mut i: usize = 0;
        while i < self.players.len()
            invariant
                0 <= i <= self.players@.len(),
                scores@ == draw_scores(self.players@).take(i as int),
                card_views(key_cards@) == hand_views(self.players@).take(i as int),
                key_cards@.len() == i,
            decreases self.players@.len() - i,
        {
            scores.push(HandEvaluator::evaluate_hand_strength(self.players[i].hand.as_slice()));
            key_cards.push(crate::player::copy_cards(&self.players[i].hand));
            assert(scores@ =~= draw_scores(self.players@).take(i + 1 as int));
            assert(card_views(key_cards@) =~= hand_views(self.players@).take(i + 1 as int));
            i = i + 1;
        }
        assert(scores@ =~= draw_scores(self.players@));
        assert(card_views(key_cards@) =~= hand_views(self.players@));
        let active = active_flags_exec(&self.players);
        let best = lowest_scorers_exec(&scores, &active);
        let idx = narrow_by_high_cards(&key_cards, best, 5);
        proof {
            lemma_showdown_winners(scores@, active@, card_views(key_cards@), 5);
            assert forall|m: int| 0 <= m < idx@.len() implies idx@[m] < self.players@.len() by {
                assert(idx@.contains(idx@[m]));
            }
        }
        idx
    }

    /// The seats of the winners (see `winner_positions`), when the showdown
    /// can be decided without looking at a card that is not there;
    /// otherwise `None`.
    pub fn checked_winner_positions(&self) -> (r: Option<Vec<usize>>)
        ensures
            r is Some <==> draw_showdown_ok(self.players@),
            r matches Some(idx) ==> idx@ == draw_winners(self.players@),
            r matches Some(idx) ==> decided_by_high_card_order(
                Seq::new(self.players@.len(), |i: int| hand_strength(self.players@[i].hand@)),
                Seq::new(self.players@.len(), |i: int| self.players@[i].is_active),
                Seq::new(self.players@.len(), |i: int| self.players@[i].hand@),
                5,
                idx@,
            ),
    {
        let mut scores: Vec<u32> = Vec::new();
        let mut key_cards: Vec<Vec<Card>> = Vec::new();
        let mut i: usize = 0;
        while i < self.players.len()
            invariant
                0 <= i <= self.players@.len(),
                scores@ == draw_scores(self.players@).take(i as int),
                card_views(key_cards@) == hand_views(self.players@).take(i as int),
                key_cards@.len() == i,
            decreases self.players@.len() - i,
        {
            scores.push(HandEvaluator::evaluate_hand_strength(self.players[i].hand.as_slice()));
            key_cards.push(crate::player::copy_cards(&self.players[i].hand));
            assert(scores@ =~= draw_scores(self.players@).take(i + 1 as int));
            assert(card_views(key_cards@) =~= hand_views(self.players@).take(i + 1 as int));
            i = i + 1;
        }
        assert(scores@ =~= draw_scores(self.players@));
        assert(card_views(key_cards@) =~= hand_views(self.players@));
        let active = active_flags_exec(&self.players);
        let best = lowest_scorers_exec(&scores, &active);
        let r = try_narrow_by_high_cards(&key_cards, best, 5);
        proof {
            if r is Some {
                assert(self.players@.len() == self.players.len());
                lemma_draw_showdown(self.players@);
            }
        }
        r
    }

    /// The winners of the showdown (see `draw_winners`), in seat order.
    pub fn determine_winner(&self) -> (w: Vec<&Player>)
        requires
            draw_showdown_ok(self.players@),
        ensures
            w@.len() == draw_winners(self.players@).len(),
            forall|k: int| 0 <= k < w@.len() ==> *#[trigger] w@[k] == self.players@[draw_winners(self.players@)[k] as int],
    {
        let idx = self.winner_positions();
        let mut w: Vec<&Player> = Vec::new();
        let mut k: usize = 0;
        while k < idx.len()
            invariant
                0 <= k <= idx@.len(),
                idx@ == draw_winners(self.players@),
                forall|m: int| 0 <= m < idx@.len() ==> idx@[m] < self.players@.len(),
                w@.len() == k,
                forall|m: int| 0 <= m < k ==> *#[trigger] w@[m] == self.players@[idx@[m] as int],
            decreases idx@.len() - k,
        {
            w.push(&self.players[idx[k]]);
            k = k + 1;
        }
        w
    }

    /// Settles the showdown. A single winner is only named (their winnings
    /// do not change); on a tie the pot is split evenly among the winners
    /// (each player is paid once per winner bearing their name). The pot is
    /// left as it is, to be shown with the result. Gives the winner's name
    /// when there is exactly one winner.
    pub fn award_pot(&mut self) -> (winner: Option<String>)
        requires
            old(self).players@.len() <= u32::MAX,
            draw_showdown_ok(old(self).players@),
            draw_winners(old(self).players@).len() > 0,
            draw_winners(old(self).players@).len() > 1 ==> payout_fits(
                old(self).players@,
                names_at(old(self).players@, draw_winners(old(self).players@)),
                share(old(self).bet_pool, draw_winners(old(self).players@).len()),
            ),
        ensures
            final(self).bet_pool == old(self).bet_pool,
            final(self).dealer.community_cards@ == old(self).dealer.community_cards@,
            final(self).dealer.deck.cards@ == old(self).dealer.deck.cards@,
            ({
                let w = draw_winners(old(self).players@);
                let names = names_at(old(self).players@, w);
                &&& w.len() == 1 ==> opt_view(winner) == Some(names[0]) && final(self).players@ == old(self).players@
                &&& w.len() > 1 ==> winner is None && paid_out(
                    old(self).players@,
                    final(self).players@,
                    names,
                    share(old(self).bet_pool, w.len()),
                )
            }),
    {
        let idx = self.winner_positions();
        let num_winners = idx.len();
        let names = names_of(&self.players, &idx);
        let winnings_per_player = self.bet_pool / (num_winners as u32);
        if num_winners == 1 {
            return Some(names[0].clone());
        }
        pay_winners(&mut self.players, &names, winnings_per_player);
        None
    }

    /// Starts a betting round (see `begin_round`).
    pub fn begin_betting_round(&self) -> (r: BettingRound)
        ensures
            r.offset == 0,
            r.highest_bet == max_active_bet(self.players@, self.players@.len() as int),
    {
        begin_round(&self.players)
    }

    /// The next step of the betting round under the draw rules: one pass in
    /// seat order (see `next_turn_result`); at its end the pot becomes the
    /// sum of the active players' bets.
    pub fn next_turn(&mut self, round: &mut BettingRound) -> (t: Turn)
        requires
            old(round).offset <= old(self).players@.len(),
            first_active_offset(old(self).players@, 0, old(round).offset as int) >= old(self).players@.len()
                ==> pass_pot(old(self).players@, draw_rules()) <= u32::MAX,
        ensures
            t == next_turn_result(old(self).players@, 0, old(round).offset as int, draw_rules()),
            t matches Turn::Ask(i) ==> i < old(self).players@.len() && old(self).players@[i as int].is_active,
            final(round).offset <= old(self).players@.len(),
            final(self).players@ == old(self).players@,
            final(self).dealer.community_cards@ == old(self).dealer.community_cards@,
            final(self).dealer.deck.cards@ == old(self).dealer.deck.cards@,
            ({
                let o = first_active_offset(old(self).players@, 0, old(round).offset as int);
                let n = old(self).players@.len() as int;
                &&& o < n ==> final(round).offset == o + 1 && final(round).highest_bet == old(round).highest_bet
                    && final(self).bet_pool == old(self).bet_pool
                &&& o >= n ==> final(self).bet_pool == pass_pot(old(self).players@, draw_rules())
            }),
    {
        let rules = RoundRules::draw();
        let n = self.players.len();
        assert(0 + n <= usize::MAX + 1);
        next_turn(&self.players, 0, &mut self.bet_pool, round, rules)
    }

    /// Applies a player's move (see `apply_move`).
    pub fn apply_action(&mut self, round: &mut BettingRound, seat: usize, action: PlayerAction) -> (out:
        MoveOutcome)
        requires
            seat < old(self).players@.len(),
        ensures
            out == move_outcome(old(self).players@[seat as int].current_bet, old(round).highest_bet, action),
            final(round).offset == old(round).offset,
            final(self).players@.len() == old(self).players@.len(),
            forall|j: int| 0 <= j < old(self).players@.len() && j != seat ==> final(self).players@[j] == old(self).players@[j],
            final(self).bet_pool == old(self).bet_pool,
            move_effect(
                old(self).players@[seat as int],
                final(self).players@[seat as int],
                old(round).highest_bet,
                final(round).highest_bet,
                action,
            ),
    {
        apply_move(&mut self.players, round, seat, action)
    }

    /// The table as the clients see it, with the given phase, the player
    /// whose turn it is, and the winner's name.
    pub fn game_state_update(&self, phase: &str, current_player: &str, winner_name: Option<String>) -> (u:
        GameStateUpdate)
        ensures
            plain_state_update(u, self.players@, self.dealer.community_cards@, self.bet_pool),
            u.phase@ == phase@,
            u.current_player@ == current_player@,
            opt_view(u.winner) == opt_view(winner_name),
    {
        table_state_update(&self.players, self.dealer.get_community_cards(), self.bet_pool, phase, current_player, winner_name)
    }
}

/// The stages of a hand of five-card draw.
#[derive(Debug, Clone, Copy, PartialEq, Eq, Structural)]
pub enum DrawStage {
    Ante,
    PreDraw,
    Draw,
    PostDraw,
    Showdown,
}

/// The stage that follows `s`: after the ante come the hands and a betting
/// round; the draw and a last betting round follow only while the hand goes
/// on (at least two players in it); then the showdown.
pub open spec fn draw_stage_after(s: DrawStage, goes_on: bool) -> DrawStage {
    match s {
        DrawStage::Ante => DrawStage::PreDraw,
        DrawStage::PreDraw => if goes_on {
            DrawStage::Draw
        } else {
            DrawStage::Showdown
        },
        DrawStage::Draw => DrawStage::PostDraw,
        DrawStage::PostDraw => DrawStage::Showdown,
        DrawStage::Showdown => DrawStage::Showdown,
    }
}

/// The name of a stage, as phases are named to the clients.
pub open spec fn draw_stage_label(s: DrawStage) -> Seq<char> {
    match s {
        DrawStage::Ante => "Ante"@,
        DrawStage::PreDraw => "Pre-draw"@,
        DrawStage::Draw => "Draw"@,
        DrawStage::PostDraw => "Post-draw"@,
        DrawStage::Showdown => "showdown"@,
    }
}

impl DrawStage {
    /// The name of the stage (see `draw_stage_label`).
    pub fn name(&self) -> (n: &'static str)
        ensures
            n@ == draw_stage_label(*self),
    {
        match self {
            DrawStage::Ante => "Ante",
            DrawStage::PreDraw => "Pre-draw",
            DrawStage::Draw => "Draw",
            DrawStage::PostDraw => "Post-draw",
            DrawStage::Showdown => "showdown",
        }
    }
}

impl FiveCardDraw {
    /// The stage that follows `s` at this table (see `draw_stage_after`).
    pub fn next_stage(&self, s: DrawStage) -> (n: DrawStage)
        ensures
            n == draw_stage_after(s, hand_goes_on(self.players@)),
    {
        let goes_on = hand_continues(&self.players);
        match s {
            DrawStage::Ante => DrawStage::PreDraw,
            DrawStage::PreDraw => if goes_on {
                DrawStage::Draw
            } else {
                DrawStage::Showdown
            },
            DrawStage::Draw => DrawStage::PostDraw,
            DrawStage::PostDraw => DrawStage::Showdown,
            DrawStage::Showdown => DrawStage::Showdown,
        }
    }

    /// Deals what a stage brings: five cards to each player before the first
    /// betting round on them; nothing at the other stages (the draw is each
    /// player's own request, see `discard_and_draw`).
    pub fn open_stage(&mut self, s: DrawStage)
        ensures
            final(self).bet_pool == old(self).bet_pool,
            final(self).dealer.community_cards@ == old(self).dealer.community_cards@,
            s == DrawStage::PreDraw ==> dealt_round(
                old(self).players@,
                final(self).players@,
                old(self).dealer.deck.cards@,
                5,
            ) && final(self).dealer.deck.cards@ == deck_after_deal(
                old(self).dealer.deck.cards@,
                5 * old(self).players@.len(),
            ),
            s != DrawStage::PreDraw ==> final(self).players@ == old(self).players@
                && final(self).dealer.deck.cards@ == old(self).dealer.deck.cards@,
    {
        match s {
            DrawStage::PreDraw => self.deal_initial_hands(),
            _ => {},
        }
    }

    /// Empties the pot once the result has been shown; nothing else changes.
    pub fn clear_pot(&mut self)
        ensures
            final(self).bet_pool == 0,
            final(self).players@ == old(self).players@,
            final(self).dealer.deck.cards@ == old(self).dealer.deck.cards@,
            final(self).dealer.community_cards@ == old(self).dealer.community_cards@,
    {
        self.bet_pool = 0;
    }
}

} // verus!
