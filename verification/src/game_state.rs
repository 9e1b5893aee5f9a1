//! The game state that the server sends to its clients.

use vstd::prelude::*;
use vstd::multiset::Multiset;
use crate::card::{Card, card_text_lower, standard_deck, lemma_standard_deck_complete};
use crate::player::{Player, same_but_cards};
use crate::dealer::{Dealer, dealt_cards, deck_after_deal, lemma_deal_splits, lemma_deal_conserves_cards};

verus! {

/// One player as the clients see them.
pub struct PlayerState {
    pub name: String,
    /// The player's cards, named in lower case (such as `ace_of_spades`).
    pub cards: Vec<String>,
    pub chips: i32,
    pub current_bet: i32,
    pub folded: bool,
    pub is_active: bool,
    /// The positions in `cards` of the face-up cards.
    pub face_up_index: Vec<usize>,
}

/// A snapshot of the table.
pub struct GameStateUpdate {
    pub players: Vec<PlayerState>,
    pub community_cards: Vec<String>,
    pub current_player: String,
    pub pot: i32,
    pub current_bet: i32,
    pub phase: String,
    pub winner: Option<String>,
}

/// `texts` names the cards, one for one, in lower case.
pub open spec fn names_cards(texts: Seq<String>, cards: Seq<Card>) -> bool {
    &&& texts.len() == cards.len()
    &&& forall|k: int| 0 <= k < cards.len() ==> #[trigger] texts[k]@ == card_text_lower(cards[k])
}

/// The highest current bet among the first `n` players, or 0.
pub open spec fn max_bet(players: Seq<Player>, n: int) -> u32
    decreases n,
{
    if n <= 0 {
        0
    } else {
        let m = max_bet(players, n - 1);
        if players[n - 1].current_bet > m {
            players[n - 1].current_bet
        } else {
            m
        }
    }
}

/// The highest current bet among the first `n` players that are still
/// active, or 0.
pub open spec fn max_active_bet(players: Seq<Player>, n: int) -> u32
    decreases n,
{
    if n <= 0 {
        0
    } else {
        let m = max_active_bet(players, n - 1);
        if players[n - 1].is_active && players[n - 1].current_bet > m {
            players[n - 1].current_bet
        } else {
            m
        }
    }
}

/// The number of active players among the first `n`.
pub open spec fn active_count(players: Seq<Player>, n: int) -> nat
    decreases n,
{
    if n <= 0 {
        0
    } else {
        active_count(players, n - 1) + if players[n - 1].is_active {
            1nat
        } else {
            0nat
        }
    }
}

/// The sum of the current bets of the first `n` players.
pub open spec fn sum_bets(players: Seq<Player>, n: int) -> int
    decreases n,
{
    if n <= 0 {
        0
    } else {
        sum_bets(players, n - 1) + players[n - 1].current_bet
    }
}

/// The sum of the current bets of the active players among the first `n`.
pub open spec fn sum_active_bets(players: Seq<Player>, n: int) -> int
    decreases n,
{
    if n <= 0 {
        0
    } else {
        sum_active_bets(players, n - 1) + if players[n - 1].is_active {
            players[n - 1].current_bet as int
        } else {
            0
        }
    }
}

/// Every active player's bet equals `target`.
pub open spec fn all_active_bets_are(players: Seq<Player>, target: u32) -> bool {
    forall|i: int| 0 <= i < players.len() && #[trigger] players[i].is_active ==> players[i].current_bet == target
}

/// The lower-case names of the cards, one for one.
pub fn card_texts(cards: &Vec<Card>) -> (t: Vec<String>)
    ensures
        names_cards(t@, cards@),
{
    let mut t: Vec<String> = Vec::new();
    let mut i: usize = 0;
    while i < cards.len()
        invariant
            0 <= i <= cards@.len(),
            names_cards(t@, cards@.take(i as int)),
        decreases cards@.len() - i,
    {
        t.push(cards[i].display_text_lower());
        i = i + 1;
    }
    assert(cards@.take(cards@.len() as int) =~= cards@);
    t
}

/// The highest current bet among the players, or 0.
pub fn highest_bet(players: &Vec<Player>) -> (b: u32)
    ensures
        b == max_bet(players@, players@.len() as int),
{
    let mut b: u32 = 0;
    let mut i: usize = 0;
    while i < players.len()
        invariant
            0 <= i <= players@.len(),
            b == max_bet(players@, i as int),
        decreases players@.len() - i,
    {
        if players[i].current_bet > b {
            b = players[i].current_bet;
        }
        i = i + 1;
    }
    b
}

/// The highest current bet among the active players, or 0.
pub fn highest_active_bet(players: &Vec<Player>) -> (b: u32)
    ensures
        b == max_active_bet(players@, players@.len() as int),
{
    let mut b: u32 = 0;
    let mut i: usize = 0;
    while i < players.len()
        invariant
            0 <= i <= players@.len(),
            b == max_active_bet(players@, i as int),
        decreases players@.len() - i,
    {
        if players[i].is_active && players[i].current_bet > b {
            b = players[i].current_bet;
        }
        i = i + 1;
    }
    b
}

/// The number of active players.
pub fn count_active(players: &Vec<Player>) -> (c: usize)
    ensures
        c == active_count(players@, players@.len() as int),
{
    let mut c: usize = 0;
    let mut i: usize = 0;
    while i < players.len()
        invariant
            0 <= i <= players@.len(),
            c == active_count(players@, i as int),
            c <= i,
        decreases players@.len() - i,
    {
        if players[i].is_active {
            c = c + 1;
        }
        i = i + 1;
    }
    c
}

/// Whether every active player's bet equals `target`.
pub fn active_bets_all_equal(players: &Vec<Player>, target: u32) -> (b: bool)
    ensures
        b == all_active_bets_are(players@, target),
{
    let mut i: usize = 0;
    while i < players.len()
        invariant
            0 <= i <= players@.len(),
            forall|k: int| 0 <= k < i && #[trigger] players@[k].is_active ==> players@[k].current_bet == target,
        decreases players@.len() - i,
    {
        if players[i].is_active && players[i].current_bet != target {
            return false;
        }
        i = i + 1;
    }
    true
}

/// The sum of all players' current bets.
pub fn total_bets(players: &Vec<Player>) -> (s: u32)
    requires
        sum_bets(players@, players@.len() as int) <= u32::MAX,
    ensures
        s == sum_bets(players@, players@.len() as int),
{
    let mut s: u32 = 0;
    let mut i: usize = 0;
    while i < players.len()
        invariant
            0 <= i <= players@.len(),
            s == sum_bets(players@, i as int),
            sum_bets(players@, players@.len() as int) <= u32::MAX,
        decreases players@.len() - i,
    {
        proof {
            lemma_sum_bets_prefix(players@, i + 1 as int, players@.len() as int);
        }
        s = s + players[i].current_bet;
        i = i + 1;
    }
    s
}

/// The sum of the active players' current bets.
pub fn total_active_bets(players: &Vec<Player>) -> (s: u32)
    requires
        sum_active_bets(players@, players@.len() as int) <= u32::MAX,
    ensures
        s == sum_active_bets(players@, players@.len() as int),
{
    let mut s: u32 = 0;
    let mut i: usize = 0;
    while i < players.len()
        invariant
            0 <= i <= players@.len(),
            s == sum_active_bets(players@, i as int),
            sum_active_bets(players@, players@.len() as int) <= u32::MAX,
        decreases players@.len() - i,
    {
        proof {
            lemma_sum_active_bets_prefix(players@, i + 1 as int, players@.len() as int);
        }
        if players[i].is_active {
            s = s + players[i].current_bet;
        }
        i = i + 1;
    }
    s
}

proof fn lemma_sum_bets_prefix(players: Seq<Player>, a: int, b: int)
    requires
        0 <= a <= b <= players.len(),
    ensures
        sum_bets(players, a) <= sum_bets(players, b),
    decreases b - a,
{
    if a < b {
        lemma_sum_bets_prefix(players, a, b - 1);
    }
}

proof fn lemma_sum_active_bets_prefix(players: Seq<Player>, a: int, b: int)
    requires
        0 <= a <= b <= players.len(),
    ensures
        sum_active_bets(players, a) <= sum_active_bets(players, b),
    decreases b - a,
{
    if a < b {
        lemma_sum_active_bets_prefix(players, a, b - 1);
    }
}

/// Each player `i` got `cards_each` more cards: those dealt after the
/// earlier players got theirs.
pub open spec fn dealt_round(before: Seq<Player>, after: Seq<Player>, deck: Seq<Card>, cards_each: nat) -> bool {
    &&& after.len() == before.len()
    &&& forall|i: int| #![trigger after[i]] 0 <= i < before.len() ==> {
        &&& after[i].hand@ == before[i].hand@ + dealt_cards(deck_after_deal(deck, cards_each * i as nat), cards_each)
        &&& after[i].face_up_cards@ == before[i].face_up_cards@
        &&& same_but_cards(after[i], before[i])
    }
}

/// Whether each player is still active.
pub open spec fn active_flags(players: Seq<Player>) -> Seq<bool> {
    Seq::new(players.len(), |i: int| players[i].is_active)
}

/// Each player's face-down cards.
pub open spec fn hand_views(players: Seq<Player>) -> Seq<Seq<Card>> {
    Seq::new(players.len(), |i: int| players[i].hand@)
}

/// Each player's cards, face-down then face-up.
pub open spec fn all_card_views(players: Seq<Player>) -> Seq<Seq<Card>> {
    Seq::new(players.len(), |i: int| players[i].hand@ + players[i].face_up_cards@)
}

/// The active flags of the players.
pub fn active_flags_exec(players: &Vec<Player>) -> (a: Vec<bool>)
    ensures
        a@ == active_flags(players@),
{
    let mut a: Vec<bool> = Vec::new();
    let mut i: usize = 0;
    while i < players.len()
        invariant
            0 <= i <= players@.len(),
            a@ == active_flags(players@).take(i as int),
        decreases players@.len() - i,
    {
        a.push(players[i].is_active);
        assert(a@ =~= active_flags(players@).take(i + 1 as int));
        i = i + 1;
    }
    assert(a@ =~= active_flags(players@));
    a
}

/// `cards` followed by `more`.
pub fn joined_cards(cards: &Vec<Card>, more: &Vec<Card>) -> (c: Vec<Card>)
    ensures
        c@ == cards@ + more@,
{
    let mut c = crate::player::copy_cards(cards);
    let mut i: usize = 0;
    while i < more.len()
        invariant
            0 <= i <= more@.len(),
            c@ == cards@ + more@.take(i as int),
        decreases more@.len() - i,
    {
        c.push(more[i]);
        assert(c@ =~= cards@ + more@.take(i + 1 as int));
        i = i + 1;
    }
    assert(more@.take(more@.len() as int) =~= more@);
    c
}

/// `after` is `before` with `total` added to the winnings, and to the last
/// game's winnings when a game was started; nothing else changes.
pub open spec fn winnings_added(before: Player, after: Player, total: int) -> bool {
    let n = before.game_statistics@.len();
    &&& after.winnings == before.winnings + total
    &&& after.name@ == before.name@
    &&& after.is_active == before.is_active
    &&& after.current_bet == before.current_bet
    &&& after.hand@ == before.hand@
    &&& after.face_up_cards@ == before.face_up_cards@
    &&& after.game_statistics@.len() == n
    &&& forall|i: int| 0 <= i < n - 1 ==> after.game_statistics@[i] == before.game_statistics@[i]
    &&& n > 0 ==> after.game_statistics@[n - 1].total_winnings
        == before.game_statistics@[n - 1].total_winnings + total
    &&& n > 0 ==> after.game_statistics@[n - 1].total_bets == before.game_statistics@[n - 1].total_bets
}

/// How many of the names equal `name`.
pub open spec fn name_count(names: Seq<Seq<char>>, name: Seq<char>) -> nat
    decreases names.len(),
{
    if names.len() == 0 {
        0
    } else {
        name_count(names.drop_last(), name) + if names.last() == name {
            1nat
        } else {
            0nat
        }
    }
}

/// The views of some strings.
pub open spec fn string_views(v: Seq<String>) -> Seq<Seq<char>> {
    v.map_values(|s: String| s@)
}

/// Paying `amount` for each winner name that equals a player's name keeps
/// every total within `u32`.
pub open spec fn payout_fits(players: Seq<Player>, names: Seq<Seq<char>>, amount: u32) -> bool {
    forall|j: int| #![trigger players[j]] 0 <= j < players.len() ==> {
        let t = amount * name_count(names, players[j].name@);
        let n = players[j].game_statistics@.len();
        &&& players[j].winnings + t <= u32::MAX
        &&& n > 0 ==> players[j].game_statistics@[n - 1].total_winnings + t <= u32::MAX
    }
}

/// `after` is `before` where every player got `amount` for each winner name
/// equal to their own.
pub open spec fn paid_out(before: Seq<Player>, after: Seq<Player>, names: Seq<Seq<char>>, amount: u32) -> bool {
    &&& after.len() == before.len()
    &&& forall|j: int| #![trigger after[j]] 0 <= j < before.len() ==> winnings_added(
        before[j],
        after[j],
        amount * name_count(names, before[j].name@),
    )
}

proof fn lemma_name_count_prefix(names: Seq<Seq<char>>, name: Seq<char>, k: int)
    requires
        0 <= k < names.len(),
    ensures
        name_count(names.take(k + 1), name) == name_count(names.take(k), name) + if names[k] == name {
            1nat
        } else {
            0nat
        },
        name_count(names.take(k + 1), name) <= name_count(names, name),
    decreases names.len() - k,
{
    assert(names.take(k + 1).drop_last() =~= names.take(k));
    if k + 1 < names.len() {
        lemma_name_count_prefix(names, name, k + 1);
    } else {
        assert(names.take(k + 1) =~= names);
    }
}

/// Pays `amount` to every player once for each winner name equal to the
/// player's name (to their winnings, and to the current game's winnings).
pub fn pay_winners(players: &mut Vec<Player>, names: &Vec<String>, amount: u32)
    requires
        payout_fits(old(players)@, string_views(names@), amount),
    ensures
        paid_out(old(players)@, final(players)@, string_views(names@), amount),
{
    let ghost orig = players@;
    let ghost nv = string_views(names@);
    let mut k: usize = 0;
    proof {
        assert forall|j: int| #![trigger players@[j]] 0 <= j < orig.len() implies winnings_added(
            orig[j],
            players@[j],
            amount * name_count(nv.take(0), orig[j].name@),
        ) by {
            assert(name_count(nv.take(0), orig[j].name@) == 0);
            assert(amount * 0 == 0);
        }
    }
    while k < names.len()
        invariant
            0 <= k <= names@.len(),
            nv == string_views(names@),
            payout_fits(orig, nv, amount),
            paid_out(orig, players@, nv.take(k as int), amount),
        decreases names@.len() - k,
    {
        let ghost before_round = players@;
        let mut j: usize = 0;
        while j < players.len()
            invariant
                0 <= k < names@.len(),
                0 <= j <= players@.len(),
                nv == string_views(names@),
                payout_fits(orig, nv, amount),
                players@.len() == orig.len(),
                before_round.len() == orig.len(),
                paid_out(orig, before_round, nv.take(k as int), amount),
                forall|m: int| #![trigger players@[m]] 0 <= m < j ==> winnings_added(
                    orig[m],
                    players@[m],
                    amount * name_count(nv.take(k + 1 as int), orig[m].name@),
                ),
                forall|m: int| #![trigger players@[m]] j <= m < players@.len() ==> players@[m] == before_round[m],
            decreases players@.len() - j,
        {
            proof {
                lemma_name_count_prefix(nv, orig[j as int].name@, k as int);
                let c0 = name_count(nv.take(k as int), orig[j as int].name@);
                let c1 = name_count(nv.take(k + 1 as int), orig[j as int].name@);
                let ca = name_count(nv, orig[j as int].name@);
                assert(amount * c1 <= amount * ca) by (nonlinear_arith)
                    requires
                        c1 <= ca,
                ;
                assert(amount * c1 == amount * c0 + if c1 == c0 + 1 { amount as int } else { 0 }) by (nonlinear_arith)
                    requires
                        c1 == c0 || c1 == c0 + 1,
                ;
                assert(players@[j as int] == before_round[j as int]);
                assert(orig[j as int] == orig[j as int]);
            }
            if players[j].name == names[k] {
                players[j].add_winnings(amount);
            }
            j = j + 1;
        }
        k = k + 1;
    }
    assert(nv.take(names@.len() as int) =~= nv);
}

/// The names of the players at the given positions.
pub open spec fn names_at(players: Seq<Player>, idx: Seq<usize>) -> Seq<Seq<char>> {
    Seq::new(idx.len(), |k: int| players[idx[k] as int].name@)
}

/// The names of the players at the given positions.
pub fn names_of(players: &Vec<Player>, idx: &Vec<usize>) -> (names: Vec<String>)
    requires
        forall|m: int| 0 <= m < idx@.len() ==> idx@[m] < players@.len(),
    ensures
        string_views(names@) == names_at(players@, idx@),
        names@.len() == idx@.len(),
{
    let mut names: Vec<String> = Vec::new();
    let mut k: usize = 0;
    while k < idx.len()
        invariant
            0 <= k <= idx@.len(),
            forall|m: int| 0 <= m < idx@.len() ==> idx@[m] < players@.len(),
            string_views(names@) == names_at(players@, idx@).take(k as int),
            names@.len() == k,
        decreases idx@.len() - k,
    {
        names.push(players[idx[k]].name.clone());
        assert(string_views(names@) =~= names_at(players@, idx@).take(k + 1 as int));
        k = k + 1;
    }
    assert(string_views(names@) =~= names_at(players@, idx@));
    names
}

/// Each winner's share of the pot: the pot divided by the number of
/// winners, rounded down.
pub open spec fn share(pot: u32, winners: nat) -> u32 {
    (pot as nat / winners) as u32
}

/// The winner names joined with `", "` between them.
pub open spec fn joined_names(names: Seq<Seq<char>>) -> Seq<char>
    decreases names.len(),
{
    if names.len() == 0 {
        Seq::empty()
    } else if names.len() == 1 {
        names[0]
    } else {
        joined_names(names.drop_last()) + ", "@ + names.last()
    }
}

/// The winner label of a showdown: the winner's name, or `Tie: ` and the
/// names of all winners.
pub open spec fn winner_label(names: Seq<Seq<char>>) -> Seq<char> {
    if names.len() == 1 {
        names[0]
    } else {
        "Tie: "@ + joined_names(names)
    }
}

/// The winner label of a showdown (see `winner_label`).
pub fn winner_label_exec(names: &Vec<String>) -> (s: String)
    requires
        names@.len() > 0,
    ensures
        s@ == winner_label(string_views(names@)),
{
    let ghost nv = string_views(names@);
    if names.len() == 1 {
        return names[0].clone();
    }
    let mut joined = names[0].clone();
    let mut k: usize = 1;
    assert(nv.take(1).drop_last() =~= Seq::<Seq<char>>::empty());
    while k < names.len()
        invariant
            1 <= k <= names@.len(),
            nv == string_views(names@),
            joined@ == joined_names(nv.take(k as int)),
        decreases names@.len() - k,
    {
        joined.append(", ");
        joined.append(names[k].as_str());
        assert(nv.take(k + 1 as int).drop_last() =~= nv.take(k as int));
        k = k + 1;
    }
    assert(nv.take(names@.len() as int) =~= nv);
    let mut label = String::from_str("Tie: ");
    label.append(joined.as_str());
    label
}

/// The text of an optional string.
pub open spec fn opt_view(s: Option<String>) -> Option<Seq<char>> {
    match s {
        Some(x) => Some(x@),
        None => None,
    }
}

/// The two player states show the same.
pub open spec fn same_player_state(a: PlayerState, b: PlayerState) -> bool {
    &&& a.name@ == b.name@
    &&& string_views(a.cards@) == string_views(b.cards@)
    &&& a.chips == b.chips
    &&& a.current_bet == b.current_bet
    &&& a.folded == b.folded
    &&& a.is_active == b.is_active
    &&& a.face_up_index@ == b.face_up_index@
}

/// The two updates show the same.
pub open spec fn same_update(a: GameStateUpdate, b: GameStateUpdate) -> bool {
    &&& a.players@.len() == b.players@.len()
    &&& forall|m: int| 0 <= m < a.players@.len() ==> same_player_state(#[trigger] a.players@[m], b.players@[m])
    &&& string_views(a.community_cards@) == string_views(b.community_cards@)
    &&& a.current_player@ == b.current_player@
    &&& a.pot == b.pot
    &&& a.current_bet == b.current_bet
    &&& a.phase@ == b.phase@
    &&& opt_view(a.winner) == opt_view(b.winner)
}

/// A copy of some strings.
pub fn copy_strings(v: &Vec<String>) -> (c: Vec<String>)
    ensures
        string_views(c@) == string_views(v@),
{
    let mut c: Vec<String> = Vec::new();
    let mut i: usize = 0;
    while i < v.len()
        invariant
            0 <= i <= v@.len(),
            string_views(c@) == string_views(v@).take(i as int),
            c@.len() == i,
        decreases v@.len() - i,
    {
        let x = v[i].clone();
        c.push(x);
        assert(string_views(c@) =~= string_views(v@).take(i + 1 as int));
        i = i + 1;
    }
    assert(string_views(v@).take(v@.len() as int) =~= string_views(v@));
    c
}

/// A copy of some positions.
pub fn copy_positions(v: &Vec<usize>) -> (c: Vec<usize>)
    ensures
        c@ == v@,
{
    let mut c: Vec<usize> = Vec::new();
    let mut i: usize = 0;
    while i < v.len()
        invariant
            0 <= i <= v@.len(),
            c@ == v@.take(i as int),
        decreases v@.len() - i,
    {
        c.push(v[i]);
        assert(c@ =~= v@.take(i + 1 as int));
        i = i + 1;
    }
    assert(v@.take(v@.len() as int) =~= v@);
    c
}

/// A copy of an optional string.
pub fn copy_opt_string(s: &Option<String>) -> (c: Option<String>)
    ensures
        opt_view(c) == opt_view(*s),
{
    match s {
        Some(x) => Some(x.clone()),
        None => None,
    }
}

impl PlayerState {
    /// A copy of the player state.
    pub fn copy(&self) -> (c: Self)
        ensures
            same_player_state(c, *self),
    {
        PlayerState {
            name: self.name.clone(),
            cards: copy_strings(&self.cards),
            chips: self.chips,
            current_bet: self.current_bet,
            folded: self.folded,
            is_active: self.is_active,
            face_up_index: copy_positions(&self.face_up_index),
        }
    }
}

impl GameStateUpdate {
    /// A copy of the update.
    pub fn copy(&self) -> (c: Self)
        ensures
            same_update(c, *self),
    {
        let mut players: Vec<PlayerState> = Vec::new();
        let mut i: usize = 0;
        while i < self.players.len()
            invariant
                0 <= i <= self.players@.len(),
                players@.len() == i,
                forall|m: int| 0 <= m < i ==> same_player_state(#[trigger] players@[m], self.players@[m]),
            decreases self.players@.len() - i,
        {
            players.push(self.players[i].copy());
            i = i + 1;
        }
        GameStateUpdate {
            players,
            community_cards: copy_strings(&self.community_cards),
            current_player: self.current_player.clone(),
            pot: self.pot,
            current_bet: self.current_bet,
            phase: self.phase.clone(),
            winner: copy_opt_string(&self.winner),
        }
    }
}

/// How a player is shown in a state update without face-up cards: name, hole cards, total
/// winnings as chips, current bet, and whether they folded; no face-up cards.
pub open spec fn shows_player(s: PlayerState, p: Player) -> bool {
    &&& s.name@ == p.name@
    &&& names_cards(s.cards@, p.hand@)
    &&& s.chips == p.winnings as i32
    &&& s.current_bet == p.current_bet as i32
    &&& s.folded == !p.is_active
    &&& s.is_active == p.is_active
    &&& s.face_up_index@.len() == 0
}

/// A state update without face-up cards shows every player, the community
/// cards, the pot and the highest bet of all players.
pub open spec fn plain_state_update(u: GameStateUpdate, players: Seq<Player>, community: Seq<Card>, pot: u32) -> bool {
    &&& u.players@.len() == players.len()
    &&& forall|m: int| 0 <= m < players.len() ==> shows_player(#[trigger] u.players@[m], players[m])
    &&& names_cards(u.community_cards@, community)
    &&& u.pot == pot as i32
    &&& u.current_bet == max_bet(players, players.len() as int) as i32
}

/// The table as the clients see it (face-down cards only): every player,
/// the community cards, the pot, the highest bet, the phase, the player
/// whose turn it is, and the winner label.
pub fn table_state_update(players: &Vec<Player>, community: &Vec<Card>, pot: u32, phase: &str, current_player: &str, winner_name: Option<String>) -> (u: GameStateUpdate)
    ensures
        plain_state_update(u, players@, community@, pot),
        u.phase@ == phase@,
        u.current_player@ == current_player@,
        opt_view(u.winner) == opt_view(winner_name),
{
    let community_cards = card_texts(community);
    let highest = highest_bet(players);
    let mut player_states: Vec<PlayerState> = Vec::new();
    let mut i: usize = 0;
    while i < players.len()
        invariant
            0 <= i <= players@.len(),
            player_states@.len() == i,
            forall|m: int| 0 <= m < i ==> shows_player(#[trigger] player_states@[m], players@[m]),
        decreases players@.len() - i,
    {
        let player = &players[i];
        player_states.push(
            PlayerState {
                name: player.name.clone(),
                cards: card_texts(&player.hand),
                chips: player.get_winnings() as i32,
                current_bet: player.current_bet as i32,
                folded: !player.is_active(),
                is_active: player.is_active(),
                face_up_index: Vec::new(),
            },
        );
        i = i + 1;
    }
    GameStateUpdate {
        players: player_states,
        community_cards,
        current_player: String::from_str(current_player),
        pot: pot as i32,
        current_bet: highest as i32,
        phase: String::from_str(phase),
        winner: winner_name,
    }
}

/// Deals `k` cards to each player in turn (fewer when the deck runs out).
pub fn deal_to_each(players: &mut Vec<Player>, dealer: &mut Dealer, k: usize)
    ensures
        dealt_round(old(players)@, final(players)@, old(dealer).deck.cards@, k as nat),
        final(dealer).deck.cards@ == deck_after_deal(old(dealer).deck.cards@, (k as nat) * old(players)@.len()),
        final(dealer).community_cards@ == old(dealer).community_cards@,
{
    let ghost deck0 = dealer.deck.cards@;
    let ghost players0 = players@;
    let mut i: usize = 0;
    while i < players.len()
        invariant
            0 <= i <= players@.len(),
            players@.len() == players0.len(),
            dealer.deck.cards@ == deck_after_deal(deck0, (k as nat) * (i as nat)),
            dealer.community_cards@ == old(dealer).community_cards@,
            deck0 == old(dealer).deck.cards@,
            players0 == old(players)@,
            forall|m: int| #![trigger players@[m]] i <= m < players0.len() ==> players@[m] == players0[m],
            forall|m: int| #![trigger players@[m]] 0 <= m < i ==> {
                &&& players@[m].hand@ == players0[m].hand@ + dealt_cards(deck_after_deal(deck0, (k as nat) * (m as nat)), k as nat)
                &&& players@[m].face_up_cards@ == players0[m].face_up_cards@
                &&& same_but_cards(players@[m], players0[m])
            },
        decreases players@.len() - i,
    {
        let cards = dealer.deal_cards(k);
        proof {
            lemma_deal_splits(deck0, (k as nat) * (i as nat), k as nat);
            assert((k as nat) * (i as nat) + k == (k as nat) * ((i + 1) as nat)) by (nonlinear_arith);
        }
        players[i].add_cards(cards);
        i = i + 1;
    }
}

/// Splitting a pot evenly never pays out more than the pot: the winners
/// together get it all but for a remainder smaller than their number.
pub proof fn lemma_split_never_exceeds_pot(pot: u32, winners: nat)
    requires
        winners > 0,
    ensures
        share(pot, winners) * winners <= pot,
        pot - share(pot, winners) * winners < winners,
{
    let q = pot as nat / winners;
    vstd::arithmetic::div_mod::lemma_fundamental_div_mod(pot as int, winners as int);
    assert(q <= pot) by {
        vstd::arithmetic::div_mod::lemma_div_is_ordered_by_denominator(pot as int, 1, winners as int);
    }
    assert(share(pot, winners) == q);
}

/// A hand goes on to its next street only while at least two players are
/// still in it.
pub open spec fn hand_goes_on(players: Seq<Player>) -> bool {
    active_count(players, players.len() as int) >= 2
}

/// Whether the hand goes on to its next street (see `hand_goes_on`).
pub fn hand_continues(players: &Vec<Player>) -> (b: bool)
    ensures
        b == hand_goes_on(players@),
{
    count_active(players) >= 2
}

/// Every card the players hold, face-down and face-up.
pub open spec fn held_cards(players: Seq<Player>) -> Multiset<Card>
    decreases players.len(),
{
    if players.len() == 0 {
        Multiset::empty()
    } else {
        held_cards(players.drop_last()).add(players.last().hand@.to_multiset()).add(
            players.last().face_up_cards@.to_multiset(),
        )
    }
}

/// Every card at a table: in the deck, on the board, and in the players'
/// hands.
pub open spec fn table_cards(players: Seq<Player>, deck: Seq<Card>, community: Seq<Card>) -> Multiset<Card> {
    deck.to_multiset().add(community.to_multiset()).add(held_cards(players))
}

/// Dealing a round of cards to the players moves cards from the deck to
/// their hands: no card appears, none is lost.
pub proof fn lemma_dealt_round_keeps_table(
    before: Seq<Player>,
    after: Seq<Player>,
    deck: Seq<Card>,
    community: Seq<Card>,
    cards_each: nat,
)
    requires
        dealt_round(before, after, deck, cards_each),
    ensures
        table_cards(after, deck_after_deal(deck, cards_each * before.len()), community) == table_cards(
            before,
            deck,
            community,
        ),
{
    broadcast use vstd::multiset::group_multiset_axioms;

    lemma_dealt_prefix_keeps_cards(before, after, deck, cards_each, before.len() as int);
    assert(before.take(before.len() as int) =~= before);
    assert(after.take(before.len() as int) =~= after);
    let rest = deck_after_deal(deck, cards_each * before.len());
    assert(held_cards(after).add(rest.to_multiset()) == held_cards(before).add(deck.to_multiset()));
    assert forall|c: Card| #[trigger] table_cards(after, rest, community).count(c) == table_cards(
        before,
        deck,
        community,
    ).count(c) by {
        assert(held_cards(after).add(rest.to_multiset()).count(c) == held_cards(before).add(
            deck.to_multiset(),
        ).count(c));
    }
    assert(table_cards(after, deck_after_deal(deck, cards_each * before.len()), community) =~= table_cards(
        before,
        deck,
        community,
    ));
}

proof fn lemma_dealt_prefix_keeps_cards(
    before: Seq<Player>,
    after: Seq<Player>,
    deck: Seq<Card>,
    cards_each: nat,
    m: int,
)
    requires
        dealt_round(before, after, deck, cards_each),
        0 <= m <= before.len(),
    ensures
        held_cards(after.take(m)).add(deck_after_deal(deck, cards_each * m as nat).to_multiset()) == held_cards(
            before.take(m),
        ).add(deck.to_multiset()),
    decreases m,
{
    broadcast use vstd::multiset::group_multiset_axioms;

    if m == 0 {
        assert(cards_each * 0nat == 0) by (nonlinear_arith);
        assert(after.take(0) =~= Seq::<Player>::empty());
        assert(before.take(0) =~= Seq::<Player>::empty());
        assert(deck_after_deal(deck, 0) =~= deck);
        assert(held_cards(after.take(m)).add(deck_after_deal(deck, cards_each * m as nat).to_multiset())
            =~= held_cards(before.take(m)).add(deck.to_multiset()));
    } else {
        let k = m - 1;
        lemma_dealt_prefix_keeps_cards(before, after, deck, cards_each, k);
        let dk = deck_after_deal(deck, cards_each * k as nat);
        lemma_deal_splits(deck, cards_each * k as nat, cards_each);
        assert(cards_each * k as nat + cards_each == cards_each * m as nat) by (nonlinear_arith)
            requires
                k == m - 1,
                0 <= k,
        ;
        lemma_deal_conserves_cards(dk, cards_each);
        let dealt = dealt_cards(dk, cards_each);
        assert(after[k].hand@ == before[k].hand@ + dealt);
        vstd::seq_lib::lemma_multiset_commutative(before[k].hand@, dealt);
        assert(after.take(m).drop_last() =~= after.take(k));
        assert(before.take(m).drop_last() =~= before.take(k));
        assert(after.take(m).last() == after[k]);
        assert(before.take(m).last() == before[k]);
        assert(after[k].face_up_cards@ == before[k].face_up_cards@);
        let ha = held_cards(after.take(k));
        let hb = held_cards(before.take(k));
        let bh = before[k].hand@.to_multiset();
        let fu = before[k].face_up_cards@.to_multiset();
        let dm = dealt.to_multiset();
        let rest = deck_after_deal(deck, cards_each * m as nat);
        assert(rest == deck_after_deal(dk, cards_each));
        assert(dk.to_multiset() == rest.to_multiset().add(dm));
        assert(after[k].hand@.to_multiset() == bh.add(dm));
        assert(held_cards(after.take(m)) == ha.add(bh.add(dm)).add(fu));
        assert(held_cards(before.take(m)) == hb.add(bh).add(fu));
        assert(ha.add(dk.to_multiset()) == hb.add(deck.to_multiset()));
        assert forall|c: Card| #[trigger] held_cards(after.take(m)).add(rest.to_multiset()).count(c) == held_cards(
            before.take(m),
        ).add(deck.to_multiset()).count(c) by {
            assert(ha.add(dk.to_multiset()).count(c) == hb.add(deck.to_multiset()).count(c));
        }
        assert(held_cards(after.take(m)).add(rest.to_multiset()) =~= held_cards(before.take(m)).add(
            deck.to_multiset(),
        ));
    }
}

/// Dealing cards to the board moves them from the deck to the board: no
/// card appears, none is lost.
pub proof fn lemma_board_deal_keeps_table(players: Seq<Player>, deck: Seq<Card>, community: Seq<Card>, num_cards: nat)
    ensures
        table_cards(players, deck_after_deal(deck, num_cards), community + dealt_cards(deck, num_cards))
            == table_cards(players, deck, community),
{
    broadcast use vstd::multiset::group_multiset_axioms;

    lemma_deal_conserves_cards(deck, num_cards);
    vstd::seq_lib::lemma_multiset_commutative(community, dealt_cards(deck, num_cards));
    assert(table_cards(players, deck_after_deal(deck, num_cards), community + dealt_cards(deck, num_cards))
        =~= table_cards(players, deck, community));
}

/// A table whose cards are those of one standard deck never holds a card
/// twice, wherever the cards are.
pub proof fn lemma_no_card_twice(players: Seq<Player>, deck: Seq<Card>, community: Seq<Card>)
    requires
        table_cards(players, deck, community) == standard_deck().to_multiset(),
    ensures
        forall|c: Card| #[trigger] table_cards(players, deck, community).count(c) <= 1,
{
    lemma_standard_deck_complete();
    let d = standard_deck();
    assert(d.no_duplicates()) by {
        assert forall|i: int, j: int| 0 <= i < d.len() && 0 <= j < d.len() && i != j implies d[i] != d[j] by {
            if i < j {
                assert(d[i] != d[j]);
            } else {
                assert(d[j] != d[i]);
            }
        }
    }
    d.lemma_multiset_has_no_duplicates();
    assert forall|c: Card| #[trigger] table_cards(players, deck, community).count(c) <= 1 by {
        if d.to_multiset().count(c) > 0 {
            assert(d.to_multiset().contains(c));
        }
    }
}

} // verus!
