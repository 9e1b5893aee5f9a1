use vstd::prelude::*;
use crate::card::Card as TableCard;
use crate::player::{Player, PlayerStats, same_but_cards, copy_cards};
use crate::game_state::string_views;

verus! {

/// A card as it is sent to the clients: its value and its suit, as text.
pub struct Card {
    pub suit: String,
    pub value: String,
}

impl Card {
    /// The card's text: its value, an underscore, then its suit.
    pub fn to_string(&self) -> (s: String)
        ensures
            s@ == self.value@ + "_"@ + self.suit@,
    {
        let mut s = self.value.clone();
        s.append("_");
        s.append(self.suit.as_str());
        s
    }
}

/// Whether a game is being played in a room.
pub struct GameState {
    pub game_started: bool,
}

/// A game room: the players who joined it, every player it has seen, the
/// game style, whether a game is running, and the last state that a
/// finished game reported.
pub struct GameSession {
    pub game_number: u32,
    /// The names of the players in the room, each once, in the order in
    /// which they joined.
    pub active_players: Vec<String>,
    /// Every player the room has registered, each name once.
    pub all_players: Vec<Player>,
    pub game_style: Option<String>,
    pub game_state: GameState,
    pub last_update: Option<String>,
}

/// The names of the players.
pub open spec fn player_names(ps: Seq<Player>) -> Seq<Seq<char>> {
    ps.map_values(|p: Player| p.name@)
}

/// No name occurs twice.
pub open spec fn distinct_names(ns: Seq<Seq<char>>) -> bool {
    forall|i: int, j: int| 0 <= i < j < ns.len() ==> ns[i] != ns[j]
}

/// The two players agree on everything.
pub open spec fn same_player(a: Player, b: Player) -> bool {
    &&& same_but_cards(a, b)
    &&& a.hand@ == b.hand@
    &&& a.face_up_cards@ == b.face_up_cards@
}

/// A player as `Player::new` makes it: active, with no cards, no bet, no
/// winnings and no games.
pub open spec fn fresh_player(p: Player, name: Seq<char>) -> bool {
    &&& p.name@ == name
    &&& p.hand@.len() == 0
    &&& p.face_up_cards@.len() == 0
    &&& p.winnings == 0
    &&& p.is_active
    &&& p.current_bet == 0
    &&& p.game_statistics@.len() == 0
}

/// The room's names after `name` joins: unchanged if it is there already,
/// else `name` is added at the end.
pub open spec fn with_name(names: Seq<Seq<char>>, name: Seq<char>) -> Seq<Seq<char>> {
    if names.contains(name) {
        names
    } else {
        names.push(name)
    }
}

/// `after` is the register `before` once `name` is registered: unchanged if
/// a player of that name is known, else a fresh player of that name is added
/// at the end.
pub open spec fn registered(before: Seq<Player>, after: Seq<Player>, name: Seq<char>) -> bool {
    if player_names(before).contains(name) {
        after == before
    } else {
        &&& after.len() == before.len() + 1
        &&& after.take(before.len() as int) == before
        &&& fresh_player(after.last(), name)
    }
}

impl GameSession {
    /// The room's bookkeeping holds together: no name is in the room twice,
    /// no player is registered twice, and everyone in the room is
    /// registered.
    pub open spec fn well_formed(&self) -> bool {
        &&& distinct_names(string_views(self.active_players@))
        &&& distinct_names(player_names(self.all_players@))
        &&& forall|i: int|
            #![trigger self.active_players@[i]]
            0 <= i < self.active_players@.len() ==> player_names(self.all_players@).contains(
                self.active_players@[i]@,
            )
    }

    /// An empty room, with no game style, no game running and no saved
    /// state.
    pub fn new() -> (s: Self)
        ensures
            s.well_formed(),
            s.game_number == 0,
            s.active_players@.len() == 0,
            s.all_players@.len() == 0,
            s.game_style.is_none(),
            !s.game_state.game_started,
            s.last_update.is_none(),
    {
        GameSession {
            game_number: 0,
            active_players: Vec::new(),
            all_players: Vec::new(),
            game_style: None,
            game_state: GameState { game_started: false },
            last_update: None,
        }
    }

    /// Sets the game style; nothing else changes.
    pub fn set_game_style(&mut self, style: String)
        ensures
            final(self).game_style == Some(style),
            final(self).game_number == old(self).game_number,
            final(self).active_players@ == old(self).active_players@,
            final(self).all_players@ == old(self).all_players@,
            final(self).game_state.game_started == old(self).game_state.game_started,
            final(self).last_update == old(self).last_update,
    {
        self.game_style = Some(style);
    }

    /// Counts one more game.
    pub fn next_game(&mut self)
        requires
            old(self).game_number < u32::MAX,
        ensures
            final(self).game_number == old(self).game_number + 1,
            final(self).active_players@ == old(self).active_players@,
            final(self).all_players@ == old(self).all_players@,
            final(self).game_style == old(self).game_style,
            final(self).game_state.game_started == old(self).game_state.game_started,
            final(self).last_update == old(self).last_update,
    {
        self.game_number = self.game_number + 1;
    }

    /// The position of the registered player of that name, if there is one.
    pub fn find_player(&self, name: &str) -> (r: Option<usize>)
        ensures
            match r {
                Some(i) => i < self.all_players@.len() && self.all_players@[i as int].name@ == name@,
                None => !player_names(self.all_players@).contains(name@),
            },
    {
        let wanted = String::from_str(name);
        let mut i: usize = 0;
        while i < self.all_players.len()
            invariant
                0 <= i <= self.all_players@.len(),
                wanted@ == name@,
                forall|k: int| 0 <= k < i ==> self.all_players@[k].name@ != name@,
            decreases self.all_players@.len() - i,
        {
            if self.all_players[i].name == wanted {
                return Some(i);
            }
            i = i + 1;
        }
        proof {
            if player_names(self.all_players@).contains(name@) {
                let k = choose|k: int| 0 <= k < self.all_players@.len() && player_names(self.all_players@)[k] == name@;
                assert(self.all_players@[k].name@ == name@);
            }
        }
        None
    }

    /// Whether `name` is in the room.
    pub fn in_room(&self, name: &str) -> (b: bool)
        ensures
            b == string_views(self.active_players@).contains(name@),
    {
        let wanted = String::from_str(name);
        let mut i: usize = 0;
        while i < self.active_players.len()
            invariant
                0 <= i <= self.active_players@.len(),
                wanted@ == name@,
                forall|k: int| 0 <= k < i ==> self.active_players@[k]@ != name@,
            decreases self.active_players@.len() - i,
        {
            if self.active_players[i] == wanted {
                assert(string_views(self.active_players@)[i as int] == name@);
                return true;
            }
            i = i + 1;
        }
        proof {
            if string_views(self.active_players@).contains(name@) {
                let k = choose|k: int| 0 <= k < self.active_players@.len() && string_views(self.active_players@)[k] == name@;
                assert(self.active_players@[k]@ == name@);
            }
        }
        false
    }

    /// Registers a player of that name unless one is known already.
    pub fn register_player(&mut self, name: &str)
        requires
            old(self).well_formed(),
        ensures
            final(self).well_formed(),
            registered(old(self).all_players@, final(self).all_players@, name@),
            player_names(final(self).all_players@).contains(name@),
            final(self).active_players@ == old(self).active_players@,
            final(self).game_number == old(self).game_number,
            final(self).game_style == old(self).game_style,
            final(self).game_state.game_started == old(self).game_state.game_started,
            final(self).last_update == old(self).last_update,
    {
        let found = self.find_player(name);
        if found.is_none() {
            let ghost before = self.all_players@;
            let p = Player::new(name);
            self.all_players.push(p);
            proof {
                let after = self.all_players@;
                assert(after.take(before.len() as int) =~= before);
                assert(player_names(after) =~= player_names(before).push(name@));
                assert(player_names(after)[before.len() as int] == name@);
                assert forall|i: int|
                    #![trigger self.active_players@[i]]
                    0 <= i < self.active_players@.len() implies player_names(after).contains(
                        self.active_players@[i]@,
                    ) by {
                    let k = choose|k: int| 0 <= k < before.len() && player_names(before)[k] == self.active_players@[i]@;
                    assert(player_names(after)[k] == self.active_players@[i]@);
                }
            }
        } else {
            proof {
                let i = found->0 as int;
                assert(player_names(self.all_players@)[i] == name@);
            }
        }
    }

    /// The names of the players in the room.
    pub fn player_list(&self) -> (names: Vec<String>)
        ensures
            string_views(names@) == string_views(self.active_players@),
    {
        let mut names: Vec<String> = Vec::new();
        let mut i: usize = 0;
        while i < self.active_players.len()
            invariant
                0 <= i <= self.active_players@.len(),
                string_views(names@) == string_views(self.active_players@.take(i as int)),
            decreases self.active_players@.len() - i,
        {
            let ghost before = names@;
            names.push(self.active_players[i].clone());
            proof {
                assert(string_views(names@) =~= string_views(before).push(self.active_players@[i as int]@));
                assert(self.active_players@.take(i + 1 as int) =~= self.active_players@.take(i as int).push(
                    self.active_players@[i as int],
                ));
                assert(string_views(self.active_players@.take(i + 1 as int)) =~= string_views(
                    self.active_players@.take(i as int),
                ).push(self.active_players@[i as int]@));
            }
            i = i + 1;
        }
        assert(self.active_players@.take(self.active_players@.len() as int) =~= self.active_players@);
        names
    }

    /// `name` joins the room: it is registered if it was not, and added to
    /// the room if it was not there. Gives the names of the players in the
    /// room.
    pub fn join(&mut self, name: &str) -> (names: Vec<String>)
        requires
            old(self).well_formed(),
        ensures
            final(self).well_formed(),
            registered(old(self).all_players@, final(self).all_players@, name@),
            string_views(final(self).active_players@) == with_name(string_views(old(self).active_players@), name@),
            string_views(names@) == string_views(final(self).active_players@),
            final(self).game_number == old(self).game_number,
            final(self).game_style == old(self).game_style,
            final(self).game_state.game_started == old(self).game_state.game_started,
            final(self).last_update == old(self).last_update,
    {
        self.register_player(name);
        let present = self.in_room(name);
        if !present {
            let ghost before = self.active_players@;
            self.active_players.push(name.to_string());
            proof {
                let after = self.active_players@;
                assert(string_views(after) =~= string_views(before).push(name@));
                assert forall|i: int|
                    #![trigger self.active_players@[i]]
                    0 <= i < self.active_players@.len() implies player_names(self.all_players@).contains(
                        self.active_players@[i]@,
                    ) by {
                    if i < before.len() {
                        assert(before[i] == after[i]);
                    }
                }
            }
        }
        self.player_list()
    }

    /// Starts a game: sets the game style to `variant` if none was set,
    /// marks the game as running, drops the saved state, and gives a copy of
    /// each player in the room, in the room's order.
    pub fn start_game(&mut self, variant: &str) -> (players: Vec<Player>)
        requires
            old(self).well_formed(),
        ensures
            final(self).well_formed(),
            old(self).game_style.is_none() ==> final(self).game_style.is_some() && final(self).game_style->0@
                == variant@,
            old(self).game_style.is_some() ==> final(self).game_style == old(self).game_style,
            final(self).game_state.game_started,
            final(self).last_update.is_none(),
            final(self).active_players@ == old(self).active_players@,
            final(self).all_players@ == old(self).all_players@,
            final(self).game_number == old(self).game_number,
            players@.len() == old(self).active_players@.len(),
            forall|k: int|
                #![trigger players@[k]]
                0 <= k < players@.len() ==> players@[k].name@ == old(self).active_players@[k]@ && exists|j: int|
                    0 <= j < old(self).all_players@.len() && same_player(
                        players@[k],
                        #[trigger] old(self).all_players@[j],
                    ),
    {
        if self.game_style.is_none() {
            self.game_style = Some(variant.to_string());
        }
        self.game_state.game_started = true;
        self.last_update = None;
        let mut players: Vec<Player> = Vec::new();
        let mut k: usize = 0;
        while k < self.active_players.len()
            invariant
                0 <= k <= self.active_players@.len(),
                self.well_formed(),
                self.active_players@ == old(self).active_players@,
                self.all_players@ == old(self).all_players@,
                players@.len() == k,
                forall|m: int|
                    #![trigger players@[m]]
                    0 <= m < k ==> players@[m].name@ == self.active_players@[m]@ && exists|j: int|
                        0 <= j < self.all_players@.len() && same_player(players@[m], #[trigger] self.all_players@[j]),
            decreases self.active_players@.len() - k,
        {
            let found = self.find_player(self.active_players[k].as_str());
            proof {
                assert(player_names(self.all_players@).contains(self.active_players@[k as int]@));
            }
            let j = found.unwrap();
            let p = copy_player(&self.all_players[j]);
            players.push(p);
            proof {
                assert(players@[k as int] == p);
                assert(same_player(players@[k as int], self.all_players@[j as int]));
            }
            k = k + 1;
        }
        players
    }

    /// The start was called off: no game is running.
    pub fn cancel_start(&mut self)
        ensures
            !final(self).game_state.game_started,
            final(self).active_players@ == old(self).active_players@,
            final(self).all_players@ == old(self).all_players@,
            final(self).game_number == old(self).game_number,
            final(self).game_style == old(self).game_style,
            final(self).last_update == old(self).last_update,
    {
        self.game_state.game_started = false;
    }

    /// The game is over: no game is running and the room is emptied; the
    /// register, the style and the saved state stay.
    pub fn end_game(&mut self)
        requires
            old(self).well_formed(),
        ensures
            final(self).well_formed(),
            !final(self).game_state.game_started,
            final(self).active_players@.len() == 0,
            final(self).all_players@ == old(self).all_players@,
            final(self).game_number == old(self).game_number,
            final(self).game_style == old(self).game_style,
            final(self).last_update == old(self).last_update,
    {
        self.game_state.game_started = false;
        self.active_players.clear();
    }
}

/// A game is played only with at least two players.
pub fn enough_players(players: &Vec<Player>) -> (b: bool)
    ensures
        b == (players@.len() >= 2),
{
    players.len() >= 2
}

/// A copy of a player.
fn copy_player(p: &Player) -> (c: Player)
    ensures
        same_player(c, *p),
{
    let mut stats: Vec<PlayerStats> = Vec::new();
    let mut i: usize = 0;
    while i < p.game_statistics.len()
        invariant
            0 <= i <= p.game_statistics@.len(),
            stats@ == p.game_statistics@.take(i as int),
        decreases p.game_statistics@.len() - i,
    {
        stats.push(p.game_statistics[i]);
        assert(stats@ =~= p.game_statistics@.take(i + 1 as int));
        i = i + 1;
    }
    assert(p.game_statistics@.take(p.game_statistics@.len() as int) =~= p.game_statistics@);
    Player {
        name: p.name.clone(),
        winnings: p.winnings,
        is_active: p.is_active,
        current_bet: p.current_bet,
        game_statistics: stats,
        hand: copy_cards(&p.hand),
        face_up_cards: copy_cards(&p.face_up_cards),
    }
}

/// Joining is idempotent: a name that joins twice is in the room once.
pub proof fn lemma_join_idempotent(names: Seq<Seq<char>>, name: Seq<char>)
    ensures
        with_name(with_name(names, name), name) == with_name(names, name),
        with_name(names, name).contains(name),
{
    if !names.contains(name) {
        assert(names.push(name)[names.len() as int] == name);
    }
}

/// Registering is idempotent: registering a name that was just registered
/// changes nothing.
pub proof fn lemma_register_idempotent(before: Seq<Player>, mid: Seq<Player>, after: Seq<Player>, name: Seq<char>)
    requires
        registered(before, mid, name),
        registered(mid, after, name),
    ensures
        after == mid,
        player_names(mid).contains(name),
{
    if !player_names(before).contains(name) {
        assert(player_names(mid)[before.len() as int] == name);
    }
}

} // verus!
