use vstd::prelude::*;
use crate::card::{Card, rank_value, standard_deck};
use crate::dealer::{Dealer, dealt_cards, deck_after_deal, lemma_deal_splits, lemma_deal_one};
use crate::player::{Player, PlayerStats, same_but_cards};
use crate::showdown::{lowest_scorers, lowest_scorers_exec, lemma_lowest_scorers, lemma_lowest_first};
use crate::game_state::{active_flags, active_flags_exec, active_count, count_active};
use crate::player::bet_post;
use crate::betting::{trimmed, trim_str, parsed_unsigned, parse_u32};

verus! {

/// A game of razz: the players, the dealer and the pot.
pub struct Razz {
    pub dealer: Dealer,
    pub players: Vec<Player>,
    pub bet_pool: u32,
}

/// The razz value of a hand: the sum of its rank values (lower is better).
pub open spec fn razz_value(hand: Seq<Card>) -> int
    decreases hand.len(),
{
    if hand.len() == 0 {
        0
    } else {
        razz_value(hand.drop_last()) + rank_value(hand.last().rank)
    }
}

/// The razz value of each active player's hand (0 for the others, who do
/// not take part).
pub open spec fn razz_scores(players: Seq<Player>) -> Seq<u32> {
    Seq::new(
        players.len(),
        |i: int|
            if players[i].is_active {
                razz_value(players[i].hand@) as u32
            } else {
                0
            },
    )
}

/// Every active player's razz value fits in a `u32`.
pub open spec fn razz_values_fit(players: Seq<Player>) -> bool {
    forall|i: int| #![trigger players[i]] 0 <= i < players.len() && players[i].is_active ==> razz_value(players[i].hand@) <= u32::MAX
}

/// The seat of the razz winner: the first active player, in seat order,
/// with the lowest razz value.
pub open spec fn razz_winner(players: Seq<Player>) -> int {
    lowest_scorers(razz_scores(players), active_flags(players))[0] as int
}

/// `after` is `before` credited with one win: one more in the winnings, and
/// one more in the current game's winnings (a game's statistics are started
/// first if there are none).
pub open spec fn credited_one_win(before: Player, after: Player) -> bool {
    let n = before.game_statistics@.len();
    &&& after.winnings == before.winnings + 1
    &&& after.name@ == before.name@
    &&& after.is_active == before.is_active
    &&& after.current_bet == before.current_bet
    &&& after.hand@ == before.hand@
    &&& after.face_up_cards@ == before.face_up_cards@
    &&& n == 0 ==> after.game_statistics@ == seq![PlayerStats { total_bets: 0, total_winnings: 1 }]
    &&& n > 0 ==> after.game_statistics@ == before.game_statistics@.update(
        n - 1,
        PlayerStats {
            total_bets: before.game_statistics@[n - 1].total_bets,
            total_winnings: (before.game_statistics@[n - 1].total_winnings + 1) as u32,
        },
    )
}

/// The name of the street reached when the first player holds `cards`
/// cards.
pub open spec fn street_name(cards: nat) -> Seq<char> {
    if cards == 4 {
        "Fourth Street"@
    } else if cards == 5 {
        "Fifth Street"@
    } else if cards == 6 {
        "Sixth Street"@
    } else if cards == 7 {
        "Seventh Street"@
    } else {
        "Unknown Street"@
    }
}

impl Razz {
    /// A new game with the given players, a fresh dealer, and an empty pot.
    pub fn new(players: Vec<Player>) -> (g: Self)
        ensures
            g.players@ == players@,
            g.dealer.deck.cards@ == standard_deck(),
            g.dealer.community_cards@.len() == 0,
            g.bet_pool == 0,
    {
        Self { players, dealer: Dealer::new(), bet_pool: 0 }
    }

    /// The razz value of a hand: the sum of its rank values.
    pub fn evaluate_razz_hand(&self, hand: &[Card]) -> (v: u32)
        requires
            razz_value(hand@) <= u32::MAX,
        ensures
            v == razz_value(hand@),
    {
        let mut total: u32 = 0;
        let mut i: usize = 0;
        while i < hand.len()
            invariant
                0 <= i <= hand@.len(),
                razz_value(hand@) <= u32::MAX,
                total == razz_value(hand@.take(i as int)),
            decreases hand@.len() - i,
        {
            proof {
                assert(hand@.take(i + 1 as int).drop_last() =~= hand@.take(i as int));
                lemma_razz_value_prefix(hand@, i + 1 as int);
            }
            total = total + hand[i].rank.value() as u32;
            i = i + 1;
        }
        assert(hand@.take(hand@.len() as int) =~= hand@);
        total
    }

    /// Third street: each player in turn gets two face-down cards and one
    /// visible card, all added to the hand.
    pub fn deal_third_street(&mut self)
        requires
            old(self).dealer.deck.cards@.len() >= 3 * old(self).players@.len(),
        ensures
            final(self).players@.len() == old(self).players@.len(),
            forall|i: int| #![trigger final(self).players@[i]] 0 <= i < old(self).players@.len() ==> {
                &&& final(self).players@[i].hand@ == old(self).players@[i].hand@ + dealt_cards(
                    deck_after_deal(old(self).dealer.deck.cards@, 3 * i as nat),
                    3,
                )
                &&& final(self).players@[i].face_up_cards@ == old(self).players@[i].face_up_cards@
                &&& same_but_cards(final(self).players@[i], old(self).players@[i])
            },
            final(self).dealer.deck.cards@ == deck_after_deal(
                old(self).dealer.deck.cards@,
                3 * old(self).players@.len(),
            ),
            final(self).bet_pool == old(self).bet_pool,
    {
        let ghost deck0 = self.dealer.deck.cards@;
        let ghost players0 = self.players@;
        let mut i: usize = 0;
        while i < self.players.len()
            invariant
                0 <= i <= self.players@.len(),
                self.players@.len() == players0.len(),
                deck0.len() >= 3 * players0.len(),
                self.dealer.deck.cards@ == deck_after_deal(deck0, 3 * i as nat),
                self.bet_pool == old(self).bet_pool,
                deck0 == old(self).dealer.deck.cards@,
                players0 == old(self).players@,
                forall|m: int| #![trigger self.players@[m]] i <= m < players0.len() ==> self.players@[m] == players0[m],
                forall|m: int| #![trigger self.players@[m]] 0 <= m < i ==> {
                    &&& self.players@[m].hand@ == players0[m].hand@ + dealt_cards(deck_after_deal(deck0, 3 * m as nat), 3)
                    &&& self.players@[m].face_up_cards@ == players0[m].face_up_cards@
                    &&& same_but_cards(self.players@[m], players0[m])
                },
            decreases self.players@.len() - i,
        {
            let mut hand = self.dealer.deal_cards(2);
            proof {
                lemma_deal_splits(deck0, 3 * i as nat, 2);
                lemma_deal_splits(deck0, 3 * i as nat + 2, 1);
                lemma_deal_splits(deck0, 3 * i as nat, 3);
                lemma_deal_one(self.dealer.deck.cards@);
                assert(3 * i as nat + 3 == 3 * (i + 1) as nat);
            }
            let visible = self.dealer.deal_cards(1);
            hand.push(visible[0]);
            proof {
                assert(hand@ =~= dealt_cards(deck_after_deal(deck0, 3 * i as nat), 3));
            }
            self.players[i].add_cards(hand);
            i = i + 1;
        }
    }

    /// A street after the third: each active player in turn gets one more
    /// card (none when the deck is empty). Gives the street's name, from the
    /// first player's number of cards.
    pub fn deal_street(&mut self) -> (name: &'static str)
        requires
            old(self).players@.len() > 0,
        ensures
            final(self).players@.len() == old(self).players@.len(),
            forall|i: int| #![trigger final(self).players@[i]] 0 <= i < old(self).players@.len() ==> {
                &&& old(self).players@[i].is_active ==> final(self).players@[i].hand@ == old(self).players@[i].hand@
                    + dealt_cards(
                    deck_after_deal(old(self).dealer.deck.cards@, active_count(old(self).players@, i)),
                    1,
                )
                &&& !old(self).players@[i].is_active ==> final(self).players@[i].hand@ == old(self).players@[i].hand@
                &&& final(self).players@[i].face_up_cards@ == old(self).players@[i].face_up_cards@
                &&& same_but_cards(final(self).players@[i], old(self).players@[i])
            },
            final(self).dealer.deck.cards@ == deck_after_deal(
                old(self).dealer.deck.cards@,
                active_count(old(self).players@, old(self).players@.len() as int),
            ),
            final(self).bet_pool == old(self).bet_pool,
            name@ == street_name(final(self).players@[0].hand@.len()),
    {
        let ghost deck0 = self.dealer.deck.cards@;
        let ghost players0 = self.players@;
        let mut i: usize = 0;
        while i < self.players.len()
            invariant
                0 <= i <= self.players@.len(),
                self.players@.len() == players0.len(),
                self.dealer.deck.cards@ == deck_after_deal(deck0, active_count(players0, i as int)),
                self.bet_pool == old(self).bet_pool,
                deck0 == old(self).dealer.deck.cards@,
                players0 == old(self).players@,
                forall|m: int| #![trigger self.players@[m]] i <= m < players0.len() ==> self.players@[m] == players0[m],
                forall|m: int| #![trigger self.players@[m]] 0 <= m < i ==> {
                    &&& players0[m].is_active ==> self.players@[m].hand@ == players0[m].hand@ + dealt_cards(
                        deck_after_deal(deck0, active_count(players0, m)),
                        1,
                    )
                    &&& !players0[m].is_active ==> self.players@[m].hand@ == players0[m].hand@
                    &&& self.players@[m].face_up_cards@ == players0[m].face_up_cards@
                    &&& same_but_cards(self.players@[m], players0[m])
                },
            decreases self.players@.len() - i,
        {
            if self.players[i].is_active {
                proof {
                    lemma_deal_splits(deck0, active_count(players0, i as int), 1);
                }
                let card = self.dealer.deal_cards(1);
                self.players[i].add_cards(card);
            }
            i = i + 1;
        }
        let cards = self.players[0].hand.len();
        if cards == 4 {
            "Fourth Street"
        } else if cards == 5 {
            "Fifth Street"
        } else if cards == 6 {
            "Sixth Street"
        } else if cards == 7 {
            "Seventh Street"
        } else {
            "Unknown Street"
        }
    }

    /// Leaves out the players who folded; the others keep their order.
    pub fn remove_folded_players(&mut self)
        ensures
            final(self).players@ == old(self).players@.filter(|p: Player| p.is_active),
            final(self).bet_pool == old(self).bet_pool,
    {
        let ghost before = self.players@;
        let mut kept: Vec<Player> = Vec::new();
        let mut rest: Vec<Player> = Vec::new();
        std::mem::swap(&mut rest, &mut self.players);
        let ghost all = rest@;
        // take the players from the back, then restore their order
        let mut reversed: Vec<Player> = Vec::new();
        while rest.len() > 0
            invariant
                all == before,
                rest@.len() <= all.len(),
                rest@ == all.take(rest@.len() as int),
                reversed@ == all.skip(rest@.len() as int).reverse(),
                self.bet_pool == old(self).bet_pool,
            decreases rest@.len(),
        {
            let ghost n = rest@.len();
            let p = rest.pop().unwrap();
            reversed.push(p);
            assert(rest@ =~= all.take(n - 1));
            assert(reversed@ =~= all.skip(n - 1).reverse());
        }
        assert(all.skip(0) =~= all);
        while reversed.len() > 0
            invariant
                all == before,
                self.bet_pool == old(self).bet_pool,
                reversed@ == all.skip(all.len() - reversed@.len()).reverse(),
                reversed@.len() <= all.len(),
                kept@ == all.take(all.len() - reversed@.len()).filter(|p: Player| p.is_active),
            decreases reversed@.len(),
        {
            let ghost n = reversed@.len();
            let ghost k = all.len() - n;
            let p = reversed.pop().unwrap();
            proof {
                assert(p == all[k]);
                assert(all.take(k + 1).drop_last() =~= all.take(k));
                reveal_with_fuel(Seq::filter, 1);
                assert(reversed@ =~= all.skip(k + 1).reverse());
            }
            if p.is_active {
                kept.push(p);
            }
        }
        assert(all.take(all.len() as int) =~= all);
        self.players = kept;
    }

    /// Names the winner — the first active player, in seat order, with the
    /// lowest razz value — and credits one win to every player of that name
    /// (see `credited_one_win`).
    pub fn determine_winner(&mut self) -> (winner: String)
        requires
            active_count(old(self).players@, old(self).players@.len() as int) > 0,
            razz_values_fit(old(self).players@),
            forall|j: int| #![trigger old(self).players@[j]]
                0 <= j < old(self).players@.len() && old(self).players@[j].name@ == old(self).players@[razz_winner(
                    old(self).players@,
                )].name@ ==> old(self).players@[j].winnings < u32::MAX && (old(self).players@[j].game_statistics@.len()
                    > 0 ==> old(self).players@[j].game_statistics@.last().total_winnings < u32::MAX),
        ensures
            0 <= razz_winner(old(self).players@) < old(self).players@.len(),
            winner@ == old(self).players@[razz_winner(old(self).players@)].name@,
            final(self).players@.len() == old(self).players@.len(),
            forall|j: int| #![trigger final(self).players@[j]] 0 <= j < old(self).players@.len() ==> if old(
                self,
            ).players@[j].name@ == winner@ {
                credited_one_win(old(self).players@[j], final(self).players@[j])
            } else {
                final(self).players@[j] == old(self).players@[j]
            },
            final(self).bet_pool == old(self).bet_pool,
    {
        let ghost players0 = self.players@;
        let mut scores: Vec<u32> = Vec::new();
        let mut i: usize = 0;
        while i < self.players.len()
            invariant
                0 <= i <= self.players@.len(),
                self.players@ == players0,
                self.bet_pool == old(self).bet_pool,
                razz_values_fit(players0),
                scores@ == razz_scores(players0).take(i as int),
            decreases self.players@.len() - i,
        {
            if self.players[i].is_active {
                assert(razz_value(self.players@[i as int].hand@) <= u32::MAX);
                let v = self.evaluate_razz_hand(self.players[i].hand.as_slice());
                scores.push(v);
            } else {
                scores.push(0);
            }
            assert(scores@ =~= razz_scores(players0).take(i + 1 as int));
            i = i + 1;
        }
        assert(scores@ =~= razz_scores(players0));
        let active = active_flags_exec(&self.players);
        let best = lowest_scorers_exec(&scores, &active);
        proof {
            lemma_lowest_scorers(scores@, active@);
            lemma_some_active(players0, players0.len() as int);
            assert(best@.contains(best@[0]));
        }
        let w = best[0];
        let winner_name = self.players[w].name.clone();
        let mut j: usize = 0;
        while j < self.players.len()
            invariant
                0 <= j <= self.players@.len(),
                self.players@.len() == players0.len(),
                self.bet_pool == old(self).bet_pool,
                w == razz_winner(players0),
                w < players0.len(),
                winner_name@ == players0[w as int].name@,
                forall|m: int| #![trigger players0[m]]
                    0 <= m < players0.len() && players0[m].name@ == players0[razz_winner(players0)].name@
                        ==> players0[m].winnings < u32::MAX && (players0[m].game_statistics@.len() > 0
                        ==> players0[m].game_statistics@.last().total_winnings < u32::MAX),
                forall|m: int| #![trigger self.players@[m]] j <= m < players0.len() ==> self.players@[m] == players0[m],
                forall|m: int| #![trigger self.players@[m]] 0 <= m < j ==> if players0[m].name@ == winner_name@ {
                    credited_one_win(players0[m], self.players@[m])
                } else {
                    self.players@[m] == players0[m]
                },
            decreases self.players@.len() - j,
        {
            if self.players[j].name == winner_name {
                assert(players0[j as int].name@ == players0[razz_winner(players0)].name@);
                let ghost p0 = players0[j as int];
                assert(self.players@[j as int] == p0);
                self.players[j].winnings = self.players[j].winnings + 1;
                if self.players[j].game_statistics.len() == 0 {
                    self.players[j].game_statistics.push(PlayerStats { total_bets: 0, total_winnings: 0 });
                }
                let n = self.players[j].game_statistics.len();
                let mut stats = self.players[j].game_statistics[n - 1];
                stats.total_winnings = stats.total_winnings + 1;
                self.players[j].game_statistics.set(n - 1, stats);
                proof {
                    let m = p0.game_statistics@.len();
                    if m == 0 {
                        assert(self.players@[j as int].game_statistics@ =~= seq![
                            PlayerStats { total_bets: 0, total_winnings: 1 },
                        ]);
                    } else {
                        assert(self.players@[j as int].game_statistics@ =~= p0.game_statistics@.update(
                            m - 1,
                            PlayerStats {
                                total_bets: p0.game_statistics@[m - 1].total_bets,
                                total_winnings: (p0.game_statistics@[m - 1].total_winnings + 1) as u32,
                            },
                        ));
                    }
                    assert(credited_one_win(players0[j as int], self.players@[j as int]));
                }
            }
            j = j + 1;
        }
        winner_name
    }
}

proof fn lemma_razz_value_prefix(hand: Seq<Card>, k: int)
    requires
        0 <= k <= hand.len(),
    ensures
        razz_value(hand.take(k)) <= razz_value(hand),
        razz_value(hand.take(k)) >= 0,
    decreases hand.len() - k,
{
    if k < hand.len() {
        lemma_razz_value_prefix(hand, k + 1);
        assert(hand.take(k + 1).drop_last() =~= hand.take(k));
        lemma_razz_value_nonneg(hand.take(k));
    } else {
        assert(hand.take(k) =~= hand);
        lemma_razz_value_nonneg(hand);
    }
}

proof fn lemma_razz_value_nonneg(hand: Seq<Card>)
    ensures
        razz_value(hand) >= 0,
    decreases hand.len(),
{
    if hand.len() > 0 {
        lemma_razz_value_nonneg(hand.drop_last());
    }
}

proof fn lemma_some_active(players: Seq<Player>, n: int)
    requires
        0 <= n <= players.len(),
        active_count(players, n) > 0,
    ensures
        exists|j: int| 0 <= j < n && active_flags(players)[j],
    decreases n,
{
    if n > 0 && !players[n - 1].is_active {
        lemma_some_active(players, n - 1);
    } else if n > 0 {
        assert(active_flags(players)[n - 1]);
    }
}

/// The razz winner is active, and no active player has a lower razz value.
pub proof fn lemma_razz_winner_is_lowest(players: Seq<Player>)
    requires
        active_count(players, players.len() as int) > 0,
        players.len() <= usize::MAX,
        razz_values_fit(players),
    ensures
        0 <= razz_winner(players) < players.len(),
        players[razz_winner(players)].is_active,
        forall|j: int|
            0 <= j < players.len() && players[j].is_active ==> razz_value(players[razz_winner(players)].hand@)
                <= razz_value(#[trigger] players[j].hand@),
        forall|j: int|
            0 <= j < razz_winner(players) && players[j].is_active ==> razz_value(players[razz_winner(players)].hand@)
                < razz_value(#[trigger] players[j].hand@),
{
    let scores = razz_scores(players);
    let active = active_flags(players);
    lemma_lowest_scorers(scores, active);
    lemma_some_active(players, players.len() as int);
    let best = lowest_scorers(scores, active);
    assert(best.contains(best[0]));
    let w = best[0] as int;
    assert(active[w]);
    assert(razz_value(players[w].hand@) <= u32::MAX);
    lemma_razz_value_nonneg(players[w].hand@);
    assert forall|j: int| 0 <= j < players.len() && players[j].is_active implies razz_value(players[w].hand@)
        <= razz_value(#[trigger] players[j].hand@) by {
        assert(active[j]);
        assert(razz_value(players[j].hand@) <= u32::MAX);
        lemma_razz_value_nonneg(players[j].hand@);
        assert(scores[w] <= scores[j]);
    }
    assert forall|j: int| 0 <= j < w && players[j].is_active implies razz_value(players[w].hand@)
        < razz_value(#[trigger] players[j].hand@) by {
        assert(active[j]);
        assert(razz_value(players[j].hand@) <= u32::MAX);
        lemma_razz_value_nonneg(players[j].hand@);
        if razz_value(players[w].hand@) >= razz_value(players[j].hand@) {
            assert(scores[j] <= scores[w]);
            assert(best.contains(j as usize));
            crate::showdown::lemma_lowest_first(scores, active, j);
        }
    }
}


/// Seat `a` comes before seat `b` when its key is lower, or equal and its
/// seat is lower.
pub open spec fn key_before(keys: Seq<u32>, a: usize, b: usize) -> bool {
    keys[a as int] < keys[b as int] || (keys[a as int] == keys[b as int] && a < b)
}

/// `order` lists the seats below `n`, each once, by increasing key; seats
/// with equal keys come in seat order.
pub open spec fn orders_by_key(order: Seq<usize>, keys: Seq<u32>, n: int) -> bool {
    &&& order.len() == n
    &&& forall|i: int| 0 <= i < order.len() ==> #[trigger] order[i] < n
    &&& forall|x: usize| x < n ==> #[trigger] order.contains(x)
    &&& forall|i: int, j: int| 0 <= i < j < order.len() ==> key_before(keys, #[trigger] order[i], #[trigger] order[j])
}

/// `order` lists the seats below `n`, each once, by decreasing key; seats
/// with equal keys come in reverse seat order.
pub open spec fn orders_by_key_desc(order: Seq<usize>, keys: Seq<u32>, n: int) -> bool {
    &&& order.len() == n
    &&& forall|i: int| 0 <= i < order.len() ==> #[trigger] order[i] < n
    &&& forall|x: usize| x < n ==> #[trigger] order.contains(x)
    &&& forall|i: int, j: int| 0 <= i < j < order.len() ==> key_before(keys, #[trigger] order[j], #[trigger] order[i])
}

/// The order by keys is determined by the keys: two orders that both list
/// the seats by key (see `orders_by_key`) are the same.
pub proof fn lemma_order_by_key_unique(a: Seq<usize>, b: Seq<usize>, keys: Seq<u32>, n: int)
    requires
        orders_by_key(a, keys, n),
        orders_by_key(b, keys, n),
        n <= keys.len(),
    ensures
        a == b,
{
    if n > 0 {
        lemma_orders_agree_up_to(a, b, keys, n, n - 1);
    }
    assert(a =~= b);
}

proof fn lemma_orders_agree_up_to(a: Seq<usize>, b: Seq<usize>, keys: Seq<u32>, n: int, i: int)
    requires
        orders_by_key(a, keys, n),
        orders_by_key(b, keys, n),
        n <= keys.len(),
        0 <= i < n,
    ensures
        forall|m: int| 0 <= m <= i ==> a[m] == b[m],
    decreases i,
{
    if i > 0 {
        lemma_orders_agree_up_to(a, b, keys, n, i - 1);
    }
    if a[i] != b[i] {
        // b[i] sits in `a` after position i, and a[i] in `b` after position i
        assert(a.contains(b[i]));
        let j = choose|j: int| 0 <= j < a.len() && a[j] == b[i];
        assert(b.contains(a[i]));
        let k = choose|k: int| 0 <= k < b.len() && b[k] == a[i];
        if j < i {
            assert(a[j] == b[j]);
            assert(key_before(keys, b[j], b[i]));
        }
        if k < i {
            assert(b[k] == a[k]);
            assert(key_before(keys, a[k], a[i]));
        }
        assert(key_before(keys, a[i], a[j]));
        assert(key_before(keys, b[i], b[k]));
    }
}

/// The seats in order of their keys (see `orders_by_key`).
pub fn seats_by_key(keys: &Vec<u32>) -> (order: Vec<usize>)
    ensures
        orders_by_key(order@, keys@, keys@.len() as int),
{
    let mut order: Vec<usize> = Vec::new();
    let mut k: usize = 0;
    while k < keys.len()
        invariant
            0 <= k <= keys@.len(),
            orders_by_key(order@, keys@, k as int),
        decreases keys@.len() - k,
    {
        let mut p: usize = 0;
        while p < order.len() && keys[order[p]] <= keys[k]
            invariant
                0 <= p <= order@.len(),
                k < keys@.len(),
                orders_by_key(order@, keys@, k as int),
                forall|i: int| 0 <= i < p ==> keys@[order@[i] as int] <= keys@[k as int],
            decreases order@.len() - p,
        {
            p = p + 1;
        }
        let ghost before = order@;
        order.insert(p, k);
        proof {
            before.insert_ensures(p as int, k);
            lemma_insert_keeps_order(before, keys@, k as int, p as int);
        }
        k = k + 1;
    }
    order
}

proof fn lemma_insert_keeps_order(before: Seq<usize>, keys: Seq<u32>, k: int, p: int)
    requires
        0 <= k < keys.len(),
        k <= usize::MAX,
        0 <= p <= before.len(),
        orders_by_key(before, keys, k),
        forall|i: int| 0 <= i < p ==> keys[before[i] as int] <= keys[k],
        p < before.len() ==> keys[before[p] as int] > keys[k],
    ensures
        orders_by_key(before.insert(p, k as usize), keys, k + 1),
{
    let after = before.insert(p, k as usize);
    before.insert_ensures(p, k as usize);
    assert forall|i: int| 0 <= i < after.len() implies #[trigger] after[i] < k + 1 by {
        if i > p {
            assert(after[i] == before[i - 1]);
        }
    }
    assert forall|x: usize| x < k + 1 implies #[trigger] after.contains(x) by {
        if x == k {
            assert(after[p] == x);
        } else {
            assert(before.contains(x));
            let i = choose|i: int| 0 <= i < before.len() && before[i] == x;
            if i < p {
                assert(after[i] == x);
            } else {
                assert(after[i + 1] == x);
            }
        }
    }
    assert forall|i: int, j: int| 0 <= i < j < after.len() implies key_before(
        keys,
        #[trigger] after[i],
        #[trigger] after[j],
    ) by {
        if j < p {
            assert(key_before(keys, before[i], before[j]));
        } else if j == p {
            assert(after[i] == before[i]);
            assert(before[i] < k);
        } else if i == p {
            assert(after[j] == before[j - 1]);
            if j - 1 > p {
                assert(key_before(keys, before[p], before[j - 1]));
            }
        } else if i < p {
            assert(after[i] == before[i]);
            assert(after[j] == before[j - 1]);
            assert(key_before(keys, before[i], before[j - 1]));
        } else {
            assert(after[i] == before[i - 1]);
            assert(after[j] == before[j - 1]);
            assert(key_before(keys, before[i - 1], before[j - 1]));
        }
    }
}

/// The seats in the reverse of the given order.
fn reversed_seats(order: &Vec<usize>) -> (r: Vec<usize>)
    ensures
        r@ == order@.reverse(),
{
    let mut r: Vec<usize> = Vec::new();
    let mut i: usize = order.len();
    while i > 0
        invariant
            0 <= i <= order@.len(),
            r@ == order@.skip(i as int).reverse(),
        decreases i,
    {
        i = i - 1;
        r.push(order[i]);
        assert(r@ =~= order@.skip(i as int).reverse());
    }
    assert(order@.skip(0) =~= order@);
    r
}

/// The rank value of each player's last card, the one shown on third
/// street.
pub open spec fn visible_keys(players: Seq<Player>) -> Seq<u32> {
    Seq::new(players.len(), |i: int| rank_value(players[i].hand@.last().rank) as u32)
}

/// The razz value of each player's hand.
pub open spec fn razz_keys(players: Seq<Player>) -> Seq<u32> {
    Seq::new(players.len(), |i: int| razz_value(players[i].hand@) as u32)
}

/// A move typed at the console in razz.
#[derive(Debug, Clone, Copy, PartialEq, Eq, Structural)]
pub enum RazzMove {
    Fold,
    Check,
    Call,
    /// `bet ` and an amount (0 when it does not parse).
    Bet(u32),
    Invalid,
}

/// What a razz move came to.
#[derive(Debug, Clone, Copy, PartialEq, Eq, Structural)]
pub enum RazzReply {
    Folded,
    /// A check with no bet to match.
    Checked,
    /// A check against a bet: the player is made to call it.
    AutoCalled,
    /// A call with no bet to match: a check.
    CheckedInstead,
    Called,
    AlreadyMatched,
    BetPlaced,
    BetTooLow,
    Invalid,
}

/// The move a razz player types: the input, trimmed, is `fold`, `check`,
/// `call`, or `bet ` followed by an amount (taken trimmed; 0 when it is not
/// a number).
pub open spec fn razz_move_of(input: Seq<char>) -> RazzMove {
    let a = trimmed(input);
    if a == "fold"@ {
        RazzMove::Fold
    } else if a == "check"@ {
        RazzMove::Check
    } else if a == "call"@ {
        RazzMove::Call
    } else if a.len() >= 4 && a.take(4) == "bet "@ {
        RazzMove::Bet(
            match parsed_unsigned(trimmed(a.skip(4)), u32::MAX as nat) {
                Some(v) => v as u32,
                None => 0,
            },
        )
    } else {
        RazzMove::Invalid
    }
}

impl RazzMove {
    /// The move a razz player types (see `razz_move_of`).
    pub fn from_typed(input: &str) -> (m: RazzMove)
        ensures
            m == razz_move_of(input@),
    {
        let a = trim_str(input);
        let word = String::from_str(a);
        if word == String::from_str("fold") {
            return RazzMove::Fold;
        } else if word == String::from_str("check") {
            return RazzMove::Check;
        } else if word == String::from_str("call") {
            return RazzMove::Call;
        }
        let n = a.unicode_len();
        if n >= 4 {
            let head = String::from_str(a.substring_char(0, 4));
            proof {
                reveal_strlit("bet ");
            }
            if head == String::from_str("bet ") {
                let amount = trim_str(a.substring_char(4, n));
                proof {
                    assert(a@.skip(4) =~= a@.subrange(4, n as int));
                }
                return match parse_u32(amount) {
                    Some(v) => RazzMove::Bet(v),
                    None => RazzMove::Bet(0),
                };
            }
        }
        RazzMove::Invalid
    }
}

/// What a razz move does to the player and to the bet to match (see
/// `apply_razz_move`).
pub open spec fn razz_move_effect(
    before: Player,
    after: Player,
    highest: u32,
    new_highest: u32,
    mv: RazzMove,
    reply: RazzReply,
) -> bool {
    match mv {
        RazzMove::Fold => reply == RazzReply::Folded && !after.is_active && after.current_bet == before.current_bet
            && after.name@ == before.name@ && after.winnings == before.winnings && after.hand@ == before.hand@
            && after.face_up_cards@ == before.face_up_cards@ && after.game_statistics@ == before.game_statistics@
            && new_highest == highest,
        RazzMove::Check => if highest == 0 {
            reply == RazzReply::Checked && after == before && new_highest == highest
        } else {
            reply == RazzReply::AutoCalled && bet_post(before, after, highest) && new_highest == highest
        },
        RazzMove::Call => if highest == 0 {
            reply == RazzReply::CheckedInstead && after == before && new_highest == highest
        } else if before.current_bet < highest {
            reply == RazzReply::Called && bet_post(before, after, (highest - before.current_bet) as u32)
                && new_highest == highest
        } else {
            reply == RazzReply::AlreadyMatched && after == before && new_highest == highest
        },
        RazzMove::Bet(a) => if a > highest {
            reply == RazzReply::BetPlaced && bet_post(before, after, a) && new_highest == a
        } else {
            reply == RazzReply::BetTooLow && after == before && new_highest == highest
        },
        RazzMove::Invalid => reply == RazzReply::Invalid && after == before && new_highest == highest,
    }
}

/// Applies a razz move to a player, given the bet to match. A fold folds;
/// a check is a check with no bet to match and otherwise calls it; a call
/// with a bet to match above the player's bet places the difference as the
/// player's bet; a bet above the bet to match is placed and becomes the bet
/// to match.
pub fn apply_razz_move(player: &mut Player, highest_bet: &mut u32, mv: RazzMove) -> (reply: RazzReply)
    ensures
        razz_move_effect(*old(player), *final(player), *old(highest_bet), *final(highest_bet), mv, reply),
{
    match mv {
        RazzMove::Fold => {
            player.fold();
            RazzReply::Folded
        },
        RazzMove::Check => {
            if *highest_bet == 0 {
                RazzReply::Checked
            } else {
                player.call(*highest_bet);
                RazzReply::AutoCalled
            }
        },
        RazzMove::Call => {
            if *highest_bet == 0 {
                RazzReply::CheckedInstead
            } else if player.current_bet < *highest_bet {
                let call_amount = *highest_bet - player.current_bet;
                player.bet(call_amount);
                RazzReply::Called
            } else {
                RazzReply::AlreadyMatched
            }
        },
        RazzMove::Bet(amount) => {
            if amount > *highest_bet {
                *highest_bet = amount;
                player.bet(amount);
                RazzReply::BetPlaced
            } else {
                RazzReply::BetTooLow
            }
        },
        RazzMove::Invalid => RazzReply::Invalid,
    }
}

impl Razz {
    /// The order in which players bet in a round: on third street by the
    /// shown card, highest first (equal cards in reverse seat order);
    /// afterwards by razz value, lowest first (equal values in seat order).
    pub fn betting_order(&self, round_name: &str) -> (order: Vec<usize>)
        requires
            round_name@ == "Third Street"@ ==> forall|i: int|
                0 <= i < self.players@.len() ==> (#[trigger] self.players@[i]).hand@.len() > 0,
            round_name@ != "Third Street"@ ==> forall|i: int|
                0 <= i < self.players@.len() ==> razz_value((#[trigger] self.players@[i]).hand@) <= u32::MAX,
        ensures
            round_name@ == "Third Street"@ ==> orders_by_key_desc(
                order@,
                visible_keys(self.players@),
                self.players@.len() as int,
            ),
            round_name@ != "Third Street"@ ==> orders_by_key(
                order@,
                razz_keys(self.players@),
                self.players@.len() as int,
            ),
    {
        let third = String::from_str(round_name) == String::from_str("Third Street");
        let mut keys: Vec<u32> = Vec::new();
        let mut i: usize = 0;
        while i < self.players.len()
            invariant
                0 <= i <= self.players@.len(),
                third == (round_name@ == "Third Street"@),
                third ==> forall|m: int| 0 <= m < self.players@.len() ==> (#[trigger] self.players@[m]).hand@.len() > 0,
                !third ==> forall|m: int|
                    0 <= m < self.players@.len() ==> razz_value((#[trigger] self.players@[m]).hand@) <= u32::MAX,
                third ==> keys@ == visible_keys(self.players@).take(i as int),
                !third ==> keys@ == razz_keys(self.players@).take(i as int),
            decreases self.players@.len() - i,
        {
            let hand = &self.players[i].hand;
            if third {
                let last = hand[hand.len() - 1];
                keys.push(last.rank.value() as u32);
                assert(keys@ =~= visible_keys(self.players@).take(i + 1 as int));
            } else {
                keys.push(self.evaluate_razz_hand(hand.as_slice()));
                assert(keys@ =~= razz_keys(self.players@).take(i + 1 as int));
            }
            i = i + 1;
        }
        proof {
            if third {
                assert(keys@ =~= visible_keys(self.players@));
            } else {
                assert(keys@ =~= razz_keys(self.players@));
            }
        }
        let ascending = seats_by_key(&keys);
        if third {
            let order = reversed_seats(&ascending);
            proof {
                let n = self.players@.len() as int;
                assert forall|m: int| 0 <= m < order@.len() implies #[trigger] order@[m] < n by {
                    assert(order@[m] == ascending@[n - 1 - m]);
                }
                assert forall|x: usize| x < n implies #[trigger] order@.contains(x) by {
                    assert(ascending@.contains(x));
                    let i = choose|i: int| 0 <= i < n && ascending@[i] == x;
                    assert(order@[n - 1 - i] == x);
                }
                assert forall|a: int, b: int| 0 <= a < b < order@.len() implies key_before(
                    keys@,
                    #[trigger] order@[b],
                    #[trigger] order@[a],
                ) by {
                    assert(order@[a] == ascending@[n - 1 - a]);
                    assert(order@[b] == ascending@[n - 1 - b]);
                    assert(key_before(keys@, ascending@[n - 1 - b], ascending@[n - 1 - a]));
                }
            }
            order
        } else {
            ascending
        }
    }
}

/// The razz value counts every card of a hand: an empty hand is worth
/// nothing, one card is worth its rank value, and the value of two hands
/// put together is the sum of their values.
pub proof fn lemma_razz_value_sums(a: Seq<Card>, b: Seq<Card>, c: Card)
    ensures
        razz_value(Seq::<Card>::empty()) == 0,
        razz_value(seq![c]) == rank_value(c.rank),
        razz_value(a + b) == razz_value(a) + razz_value(b),
    decreases b.len(),
{
    let one = seq![c];
    assert(one.drop_last() =~= Seq::<Card>::empty());
    assert(razz_value(one.drop_last()) == 0);
    assert(one.last() == c);
    assert(razz_value(one) == rank_value(c.rank));
    if b.len() > 0 {
        lemma_razz_value_sums(a, b.drop_last(), c);
        assert((a + b).drop_last() =~= a + b.drop_last());
        assert((a + b).last() == b.last());
    } else {
        assert(a + b =~= a);
    }
}

/// The razz winner is an active player whose hand has the lowest razz
/// value of all the active players, and every active player seated before
/// the winner has a higher value.
pub proof fn lemma_razz_winner(players: Seq<Player>)
    requires
        players.len() <= usize::MAX,
        razz_values_fit(players),
        exists|j: int| 0 <= j < players.len() && players[j].is_active,
    ensures
        0 <= razz_winner(players) < players.len(),
        players[razz_winner(players)].is_active,
        forall|j: int|
            0 <= j < players.len() && #[trigger] players[j].is_active ==> razz_value(
                players[razz_winner(players)].hand@,
            ) <= razz_value(players[j].hand@),
        forall|j: int|
            0 <= j < razz_winner(players) && #[trigger] players[j].is_active ==> razz_value(
                players[razz_winner(players)].hand@,
            ) < razz_value(players[j].hand@),
{
    let scores = razz_scores(players);
    let active = active_flags(players);
    lemma_lowest_scorers(scores, active);
    let j0 = choose|j: int| 0 <= j < players.len() && players[j].is_active;
    assert(active[j0]);
    let best = lowest_scorers(scores, active);
    assert(best.len() > 0);
    let w = razz_winner(players);
    assert(w == best[0] as int);
    assert(0 <= w < players.len() && active[w]);
    assert forall|j: int| 0 <= j < players.len() && #[trigger] players[j].is_active implies razz_value(
        players[w].hand@,
    ) <= razz_value(players[j].hand@) by {
        assert(active[j]);
        assert(scores[w] <= scores[j]);
        lemma_razz_value_nonneg(players[w].hand@);
        lemma_razz_value_nonneg(players[j].hand@);
    }
    assert forall|j: int| 0 <= j < w && #[trigger] players[j].is_active implies razz_value(players[w].hand@)
        < razz_value(players[j].hand@) by {
        assert(active[j]);
        lemma_razz_value_nonneg(players[w].hand@);
        lemma_razz_value_nonneg(players[j].hand@);
        if razz_value(players[w].hand@) >= razz_value(players[j].hand@) {
            assert(scores[j] <= scores[w]);
            assert forall|m: int| 0 <= m < scores.len() && active[m] implies scores[j] <= scores[m] by {
                assert(scores[w] <= scores[m]);
            }
            assert(best.contains(j as usize));
            lemma_lowest_first(scores, active, j);
        }
    }
}

} // verus!
