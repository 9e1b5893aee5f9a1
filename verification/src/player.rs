use vstd::prelude::*;
use crate::card::Card;

verus! {

/// Betting and winnings of a player over one game.
#[derive(Clone, Copy, Debug, PartialEq, Eq, Structural)]
pub struct PlayerStats {
    /// The bet the player last placed in the game.
    pub total_bets: u32,
    /// What the player won in the game.
    pub total_winnings: u32,
}

/// A player at a table.
#[derive(Clone)]
pub struct Player {
    pub name: String,
    pub winnings: u32,
    pub is_active: bool,
    pub current_bet: u32,
    /// One entry per game the player started, the current game last.
    pub game_statistics: Vec<PlayerStats>,
    /// The face-down cards.
    pub hand: Vec<Card>,
    /// The face-up cards (in seven-card stud).
    pub face_up_cards: Vec<Card>,
}

/// `after` is `before` with `amount` added to the winnings, and to the
/// winnings of the current game if one was started; nothing else changes.
pub open spec fn add_winnings_post(before: Player, after: Player, amount: u32) -> bool {
    let n = before.game_statistics@.len();
    &&& after.winnings == before.winnings + amount
    &&& after.name@ == before.name@
    &&& after.is_active == before.is_active
    &&& after.current_bet == before.current_bet
    &&& after.hand@ == before.hand@
    &&& after.face_up_cards@ == before.face_up_cards@
    &&& after.game_statistics@.len() == n
    &&& forall|i: int| 0 <= i < n - 1 ==> after.game_statistics@[i] == before.game_statistics@[i]
    &&& n > 0 ==> after.game_statistics@[n - 1].total_winnings
        == before.game_statistics@[n - 1].total_winnings + amount
    &&& n > 0 ==> after.game_statistics@[n - 1].total_bets == before.game_statistics@[n - 1].total_bets
}

/// `add_winnings` can add `amount` without overflow.
pub open spec fn can_add_winnings(p: Player, amount: u32) -> bool {
    let n = p.game_statistics@.len();
    &&& p.winnings + amount <= u32::MAX
    &&& n > 0 ==> p.game_statistics@[n - 1].total_winnings + amount <= u32::MAX
}

/// `after` is `before` with the current bet set to `amount`, which is also
/// recorded as the current game's bet if a game was started; nothing else
/// changes.
pub open spec fn bet_post(before: Player, after: Player, amount: u32) -> bool {
    let n = before.game_statistics@.len();
    &&& after.current_bet == amount
    &&& after.name@ == before.name@
    &&& after.winnings == before.winnings
    &&& after.is_active == before.is_active
    &&& after.hand@ == before.hand@
    &&& after.face_up_cards@ == before.face_up_cards@
    &&& after.game_statistics@.len() == n
    &&& n > 0 ==> after.game_statistics@ == before.game_statistics@.update(
        n - 1,
        PlayerStats { total_bets: amount, ..before.game_statistics@[n - 1] },
    )
}

/// The two players agree on everything but their cards.
pub open spec fn same_but_cards(a: Player, b: Player) -> bool {
    &&& a.name@ == b.name@
    &&& a.winnings == b.winnings
    &&& a.is_active == b.is_active
    &&& a.current_bet == b.current_bet
    &&& a.game_statistics@ == b.game_statistics@
}

impl Player {
    /// A new active player with the given name, no cards, no bet, no
    /// winnings and no games played.
    pub fn new(name: &str) -> (p: Self)
        ensures
            p.name@ == name@,
            p.hand@.len() == 0,
            p.face_up_cards@.len() == 0,
            p.winnings == 0,
            p.is_active,
            p.current_bet == 0,
            p.game_statistics@.len() == 0,
    {
        Self {
            name: name.to_string(),
            hand: Vec::new(),
            face_up_cards: Vec::new(),
            winnings: 0,
            is_active: true,
            current_bet: 0,
            game_statistics: Vec::new(),
        }
    }

    /// Appends the cards to the back of the (face-down) hand.
    pub fn add_cards(&mut self, cards: Vec<Card>)
        ensures
            final(self).hand@ == old(self).hand@ + cards@,
            final(self).face_up_cards@ == old(self).face_up_cards@,
            final(self).name@ == old(self).name@,
            final(self).winnings == old(self).winnings,
            final(self).is_active == old(self).is_active,
            final(self).current_bet == old(self).current_bet,
            final(self).game_statistics@ == old(self).game_statistics@,
    {
        let mut cards = cards;
        self.hand.append(&mut cards);
    }

    /// Adds a face-up card.
    pub fn add_face_up_card(&mut self, card: Card)
        ensures
            final(self).face_up_cards@ == old(self).face_up_cards@.push(card),
            final(self).hand@ == old(self).hand@,
            final(self).name@ == old(self).name@,
            final(self).winnings == old(self).winnings,
            final(self).is_active == old(self).is_active,
            final(self).current_bet == old(self).current_bet,
            final(self).game_statistics@ == old(self).game_statistics@,
    {
        self.face_up_cards.push(card);
    }

    /// A copy of the face-down cards.
    pub fn show_hand(&self) -> (h: Vec<Card>)
        ensures
            h@ == self.hand@,
    {
        copy_cards(&self.hand)
    }

    /// A copy of the face-up cards.
    pub fn show_face_up_cards(&self) -> (h: Vec<Card>)
        ensures
            h@ == self.face_up_cards@,
    {
        copy_cards(&self.face_up_cards)
    }

    /// Adds `amount` to the winnings, and to the current game's winnings if a
    /// game was started.
    pub fn add_winnings(&mut self, amount: u32)
        requires
            can_add_winnings(*old(self), amount),
        ensures
            add_winnings_post(*old(self), *final(self), amount),
    {
        self.winnings = self.winnings + amount;
        let n = self.game_statistics.len();
        if n > 0 {
            let mut stats = self.game_statistics[n - 1];
            stats.total_winnings = stats.total_winnings + amount;
            self.game_statistics.set(n - 1, stats);
        }
    }

    /// The player leaves the current hand.
    pub fn fold(&mut self)
        ensures
            !final(self).is_active,
            final(self).name@ == old(self).name@,
            final(self).winnings == old(self).winnings,
            final(self).current_bet == old(self).current_bet,
            final(self).hand@ == old(self).hand@,
            final(self).face_up_cards@ == old(self).face_up_cards@,
            final(self).game_statistics@ == old(self).game_statistics@,
    {
        self.is_active = false;
    }

    /// Whether the player is still in the current hand.
    pub fn is_active(&self) -> (b: bool)
        ensures
            b == self.is_active,
    {
        self.is_active
    }

    /// The player's total winnings.
    pub fn get_winnings(&self) -> (w: u32)
        ensures
            w == self.winnings,
    {
        self.winnings
    }

    /// Sets the current bet (used for raising), and records it as the
    /// current game's bet if a game was started.
    pub fn bet(&mut self, amount: u32)
        ensures
            bet_post(*old(self), *final(self), amount),
    {
        self.current_bet = amount;
        let n = self.game_statistics.len();
        if n > 0 {
            let mut stats = self.game_statistics[n - 1];
            stats.total_bets = self.current_bet;
            self.game_statistics.set(n - 1, stats);
        }
    }

    /// Whether the player can check: they have no bet in.
    pub fn check(&self) -> (b: bool)
        ensures
            b == (self.current_bet == 0),
    {
        self.current_bet == 0
    }

    /// Matches the highest bet.
    pub fn call(&mut self, highest_bet: u32)
        ensures
            bet_post(*old(self), *final(self), highest_bet),
    {
        self.bet(highest_bet);
    }

    /// Throws away all cards, face-down and face-up.
    pub fn clear_hand(&mut self)
        ensures
            final(self).hand@.len() == 0,
            final(self).face_up_cards@.len() == 0,
            final(self).name@ == old(self).name@,
            final(self).winnings == old(self).winnings,
            final(self).is_active == old(self).is_active,
            final(self).current_bet == old(self).current_bet,
            final(self).game_statistics@ == old(self).game_statistics@,
    {
        self.hand.clear();
        self.face_up_cards.clear();
    }

    /// Gets the player ready for a new round: no cards, active, no bet.
    pub fn reset_for_new_round(&mut self)
        ensures
            final(self).hand@.len() == 0,
            final(self).face_up_cards@.len() == 0,
            final(self).is_active,
            final(self).current_bet == 0,
            final(self).name@ == old(self).name@,
            final(self).winnings == old(self).winnings,
            final(self).game_statistics@ == old(self).game_statistics@,
    {
        self.hand.clear();
        self.face_up_cards.clear();
        self.is_active = true;
        self.current_bet = 0;
    }

    /// Starts the statistics of a new game, with nothing bet or won yet.
    pub fn start_new_game(&mut self)
        ensures
            final(self).game_statistics@ == old(self).game_statistics@.push(
                PlayerStats { total_bets: 0, total_winnings: 0 },
            ),
            final(self).name@ == old(self).name@,
            final(self).winnings == old(self).winnings,
            final(self).is_active == old(self).is_active,
            final(self).current_bet == old(self).current_bet,
            final(self).hand@ == old(self).hand@,
            final(self).face_up_cards@ == old(self).face_up_cards@,
    {
        self.game_statistics.push(PlayerStats { total_bets: 0, total_winnings: 0 });
    }
}

/// A copy of a sequence of cards.
pub fn copy_cards(cards: &Vec<Card>) -> (c: Vec<Card>)
    ensures
        c@ == cards@,
{
    let mut out: Vec<Card> = Vec::new();
    let mut i: usize = 0;
    while i < cards.len()
        invariant
            0 <= i <= cards@.len(),
            out@ == cards@.take(i as int),
        decreases cards@.len() - i,
    {
        out.push(cards[i]);
        assert(out@ =~= cards@.take(i + 1 as int));
        i = i + 1;
    }
    assert(cards@.take(cards@.len() as int) =~= cards@);
    out
}

/// A bet followed by `check`: the player can check exactly when the bet was
/// zero.
pub proof fn lemma_check_after_bet(before: Player, after: Player, amount: u32)
    requires
        bet_post(before, after, amount),
    ensures
        (after.current_bet == 0) <==> (amount == 0),
{
}

/// Winnings only grow: adding an amount never lowers the total winnings,
/// and two additions add up.
pub proof fn lemma_add_winnings_accumulates(p0: Player, p1: Player, p2: Player, a: u32, b: u32)
    requires
        add_winnings_post(p0, p1, a),
        add_winnings_post(p1, p2, b),
    ensures
        p2.winnings == p0.winnings + a + b,
        p0.winnings <= p1.winnings <= p2.winnings,
        p0.game_statistics@.len() > 0 ==> p2.game_statistics@.last().total_winnings
            == p0.game_statistics@.last().total_winnings + a + b,
{
}

} // verus!
