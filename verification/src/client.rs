//! The client's side of the protocol: the room names of the variants, and
//! what the client keeps of the messages the server sends.

use vstd::prelude::*;
use crate::game_state::{GameStateUpdate, string_views};

verus! {

/// The game variants a client can pick.
#[derive(Debug, Clone, Copy, PartialEq, Eq, Structural)]
pub enum GameVariant {
    FiveCardDraw,
    SevenCardStud,
    TexasHoldEm,
}

/// The room name of a variant.
pub open spec fn variant_name(v: GameVariant) -> Seq<char> {
    match v {
        GameVariant::FiveCardDraw => "five_card_draw"@,
        GameVariant::SevenCardStud => "seven_card_stud"@,
        GameVariant::TexasHoldEm => "texas_holdem"@,
    }
}

impl GameVariant {
    /// The room name of the variant.
    pub fn as_str(&self) -> (s: &'static str)
        ensures
            s@ == variant_name(*self),
    {
        match self {
            GameVariant::FiveCardDraw => "five_card_draw",
            GameVariant::SevenCardStud => "seven_card_stud",
            GameVariant::TexasHoldEm => "texas_holdem",
        }
    }
}

/// What the client reads of one message from the server.
pub struct ServerMessage {
    /// The message has a `phase` field.
    pub has_phase: bool,
    /// The message has a `current_player` field.
    pub has_current_player: bool,
    /// The message read as a game state update, when it reads as one.
    pub update: Option<GameStateUpdate>,
    /// The `status` field, when it is a string.
    pub status: Option<String>,
    /// The `message` field, when it is a string.
    pub message: Option<String>,
    /// The `players` field, when it is an array: each item, when it is a
    /// string.
    pub players: Option<Vec<Option<String>>>,
    /// The `game_started` field, when it is a boolean.
    pub game_started: Option<bool>,
}

/// What the client knows of its room.
pub struct ClientState {
    pub players: Vec<String>,
    pub game_started: bool,
    pub last_game_update: Option<GameStateUpdate>,
    pub last_error: Option<String>,
}

/// The strings among the items, in order.
pub open spec fn present_strings(items: Seq<Option<String>>) -> Seq<Seq<char>>
    decreases items.len(),
{
    if items.len() == 0 {
        seq![]
    } else {
        let prev = present_strings(items.drop_last());
        match items.last() {
            Some(s) => prev.push(s@),
            None => prev,
        }
    }
}

/// The text of an optional string.
pub open spec fn text_of(s: Option<String>) -> Option<Seq<char>> {
    match s {
        Some(x) => Some(x@),
        None => None,
    }
}

/// What a message from the server is made of, as plain values: whether it
/// has a phase, whether it has a current player, its status, its message,
/// its players (each item's text when it is a string), and its game flag.
pub type Shape = (bool, bool, Option<Seq<char>>, Option<Seq<char>>, Option<Seq<Option<Seq<char>>>>, Option<bool>);

/// The players of a message as plain values.
pub open spec fn items_view(items: Option<Vec<Option<String>>>) -> Option<Seq<Option<Seq<char>>>> {
    match items {
        Some(v) => Some(v@.map_values(|x: Option<String>| text_of(x))),
        None => None,
    }
}

/// The shape of a message (see `Shape`).
pub open spec fn shape_of(m: ServerMessage) -> Shape {
    (m.has_phase, m.has_current_player, text_of(m.status), text_of(m.message), items_view(m.players), m.game_started)
}

/// The strings among the items, in order.
pub open spec fn present_texts(items: Seq<Option<Seq<char>>>) -> Seq<Seq<char>>
    decreases items.len(),
{
    if items.len() == 0 {
        seq![]
    } else {
        let prev = present_texts(items.drop_last());
        match items.last() {
            Some(s) => prev.push(s),
            None => prev,
        }
    }
}

/// `after` is what the client knows once it took in a message of shape `m`
/// that read as the update `update` (when it is one), coming from `before`:
/// a state update (a phase and a current player) replaces the last update
/// when it reads as one, and is otherwise dropped; an error keeps its text
/// as the last error (or clears it, without a text); anything else sets the
/// players from a `players` array (keeping the strings) and the game flag
/// from a `game_started` boolean, each when present.
pub open spec fn dispatched(before: ClientState, after: ClientState, m: Shape, update: Option<GameStateUpdate>) -> bool {
    let (has_phase, has_current_player, status, message, players, game_started) = m;
    if has_phase && has_current_player {
        &&& update is Some ==> after.last_game_update == update
        &&& update is None ==> after.last_game_update == before.last_game_update
        &&& after.players@ == before.players@
        &&& after.game_started == before.game_started
        &&& after.last_error == before.last_error
    } else if status == Some("error"@) {
        &&& text_of(after.last_error) == message
        &&& after.players@ == before.players@
        &&& after.game_started == before.game_started
        &&& after.last_game_update == before.last_game_update
    } else {
        &&& players matches Some(items) ==> string_views(after.players@) == present_texts(items)
        &&& players is None ==> after.players@ == before.players@
        &&& game_started matches Some(b) ==> after.game_started == b
        &&& game_started is None ==> after.game_started == before.game_started
        &&& after.last_game_update == before.last_game_update
        &&& after.last_error == before.last_error
    }
}

proof fn lemma_present_texts(items: Seq<Option<String>>)
    ensures
        present_strings(items) == present_texts(items.map_values(|x: Option<String>| text_of(x))),
    decreases items.len(),
{
    if items.len() > 0 {
        lemma_present_texts(items.drop_last());
        assert(items.map_values(|x: Option<String>| text_of(x)).drop_last() =~= items.drop_last().map_values(
            |x: Option<String>| text_of(x),
        ));
    }
}

/// The parts of a server message that do not need the game state's own
/// reading (see `ServerMessage`).
pub struct MessageShape {
    pub has_phase: bool,
    pub has_current_player: bool,
    pub status: Option<String>,
    pub message: Option<String>,
    pub players: Option<Vec<Option<String>>>,
    pub game_started: Option<bool>,
}

/// The shape of a message as plain values.
pub open spec fn shape_view(s: MessageShape) -> Shape {
    (s.has_phase, s.has_current_player, text_of(s.status), text_of(s.message), items_view(s.players), s.game_started)
}

/// A name for what reading a line as JSON with `serde_json::from_str` and
/// picking the message's fields gives: `None` when the line is not JSON.
pub uninterp spec fn message_shape(line: Seq<char>) -> Option<Shape>;

/// Calls `serde_json::from_str` on the line and picks the message's fields
/// (whether `phase` and `current_player` are there; `status` and `message`
/// when they are strings; `players` when it is an array, each item when it
/// is a string; `game_started` when it is a boolean). The claim is only
/// that the result is the named reading of the line, which depends on
/// nothing else; `None` exactly when the line is not JSON.
#[verifier::external_body]
pub fn parse_server_message(line: &str) -> (r: Option<MessageShape>)
    ensures
        r matches Some(s) ==> message_shape(line@) == Some(shape_view(s)),
        r is None <==> message_shape(line@) is None,
{
    serde_json::from_str::<serde_json::Value>(line).ok().map(
        |v| MessageShape {
            has_phase: v.get("phase").is_some(),
            has_current_player: v.get("current_player").is_some(),
            status: v.get("status").and_then(|x| x.as_str()).map(String::from),
            message: v.get("message").and_then(|x| x.as_str()).map(String::from),
            players: v.get("players").and_then(|x| x.as_array()).map(
                |a| a.iter().map(|p| p.as_str().map(String::from)).collect(),
            ),
            game_started: v.get("game_started").and_then(|x| x.as_bool()),
        },
    )
}

impl ClientState {
    /// Nothing known yet: no players, no game, no update, no error.
    pub fn new() -> (s: Self)
        ensures
            s.players@.len() == 0,
            !s.game_started,
            s.last_game_update is None,
            s.last_error is None,
    {
        ClientState { players: Vec::new(), game_started: false, last_game_update: None, last_error: None }
    }

    /// Takes in a message from the server, routed by its shape. A state
    /// update (a message with a phase and a current player) replaces the
    /// last update when it reads as one, and is otherwise dropped. An error
    /// keeps its text as the last error (or clears it, without a text).
    /// Anything else sets the players from a `players` array (keeping the
    /// strings) and the game flag from a `game_started` boolean, each when
    /// present.
    pub fn dispatch(&mut self, msg: ServerMessage)
        ensures
            dispatched(*old(self), *final(self), shape_of(msg), msg.update),
    {
        if msg.has_phase && msg.has_current_player {
            match msg.update {
                Some(u) => {
                    self.last_game_update = Some(u);
                },
                None => {},
            }
            return;
        }
        let status_error = match &msg.status {
            Some(s) => *s == String::from_str("error"),
            None => false,
        };
        if status_error {
            self.last_error = msg.message;
            return;
        }
        match msg.players {
            Some(items) => {
                proof {
                    lemma_present_texts(items@);
                }
                self.players = kept_strings(&items);
            },
            None => {},
        }
        match msg.game_started {
            Some(b) => {
                self.game_started = b;
            },
            None => {},
        }
    }

    /// Takes in a line from the server: it is read with
    /// `parse_server_message`, with `update` as the same line read as a game
    /// state (when it reads as one), and then taken in as `dispatch` does. A
    /// line that is not JSON changes nothing.
    pub fn receive_line(&mut self, line: &str, update: Option<GameStateUpdate>)
        ensures
            match message_shape(line@) {
                Some(m) => dispatched(*old(self), *final(self), m, update),
                None => *final(self) == *old(self),
            },
    {
        match parse_server_message(line) {
            Some(shape) => {
                let msg = ServerMessage {
                    has_phase: shape.has_phase,
                    has_current_player: shape.has_current_player,
                    update,
                    status: shape.status,
                    message: shape.message,
                    players: shape.players,
                    game_started: shape.game_started,
                };
                self.dispatch(msg);
            },
            None => {},
        }
    }

    /// Gives the last error and forgets it.
    pub fn take_last_error(&mut self) -> (e: Option<String>)
        ensures
            e == old(self).last_error,
            final(self).last_error is None,
            final(self).players@ == old(self).players@,
            final(self).game_started == old(self).game_started,
            final(self).last_game_update == old(self).last_game_update,
    {
        let e = self.last_error.take();
        e
    }
}

/// The strings among the items, in order.
fn kept_strings(items: &Vec<Option<String>>) -> (r: Vec<String>)
    ensures
        string_views(r@) == present_strings(items@),
{
    let mut r: Vec<String> = Vec::new();
    let mut i: usize = 0;
    while i < items.len()
        invariant
            0 <= i <= items@.len(),
            string_views(r@) == present_strings(items@.take(i as int)),
        decreases items@.len() - i,
    {
        let ghost before = string_views(r@);
        match &items[i] {
            Some(s) => {
                r.push(s.clone());
                assert(string_views(r@) =~= before.push(s@));
            },
            None => {},
        }
        assert(items@.take(i + 1 as int).drop_last() =~= items@.take(i as int));
        i = i + 1;
    }
    assert(items@.take(items@.len() as int) =~= items@);
    r
}

/// A card of a player's hand is shown face up to this client when the
/// player is this client's user, when the hand is at the showdown, or when
/// the card is dealt face up (its position is among `face_up_index`).
pub fn card_face_up(is_current_player: bool, phase: &str, face_up_index: &[usize], card_idx: usize) -> (b: bool)
    ensures
        b == (is_current_player || phase@ == "showdown"@ || face_up_index@.contains(card_idx)),
{
    if is_current_player || phase_is(phase, "showdown") {
        return true;
    }
    let mut i: usize = 0;
    while i < face_up_index.len()
        invariant
            0 <= i <= face_up_index@.len(),
            forall|k: int| 0 <= k < i ==> face_up_index@[k] != card_idx,
        decreases face_up_index@.len() - i,
    {
        if face_up_index[i] == card_idx {
            return true;
        }
        i = i + 1;
    }
    false
}

fn phase_is(phase: &str, word: &str) -> (b: bool)
    ensures
        b == (phase@ == word@),
{
    String::from_str(phase) == String::from_str(word)
}

/// The move the middle button makes: a call when there is a bet to meet,
/// else a check.
pub fn check_or_call(current_bet: i32) -> (w: &'static str)
    ensures
        w@ == (if current_bet > 0 { "call"@ } else { "check"@ }),
{
    if current_bet > 0 {
        "call"
    } else {
        "check"
    }
}

/// A key pressed while a bet amount is typed.
#[derive(Debug, Clone, Copy, PartialEq, Eq, Structural)]
pub enum BetKey {
    /// A digit key, with its value.
    Digit(u8),
    Backspace,
    Enter,
    Escape,
}

/// The bet amount being typed, and whether the bet entry is open.
pub struct BetEntry {
    pub amount: i32,
    pub open: bool,
}

impl BetEntry {
    /// No bet entry open.
    pub fn new() -> (e: Self)
        ensures
            e.amount == 0,
            !e.open,
    {
        BetEntry { amount: 0, open: false }
    }

    /// The bet (or raise) button: the entry opens at an amount of zero.
    pub fn open(&mut self)
        ensures
            final(self).open,
            final(self).amount == 0,
    {
        self.open = true;
        self.amount = 0;
    }

    /// Takes a key. With the entry closed nothing happens. A digit appends
    /// itself to the amount; backspace drops the last digit of a positive
    /// amount; enter gives the amount as the bet to send and closes the
    /// entry at zero; escape closes the entry at zero.
    pub fn press(&mut self, key: BetKey) -> (sent: Option<i32>)
        requires
            0 <= old(self).amount,
            key matches BetKey::Digit(d) ==> (old(self).open ==> d <= 9 && old(self).amount * 10 + d <= i32::MAX),
        ensures
            0 <= final(self).amount,
            !old(self).open ==> *final(self) == *old(self) && sent is None,
            old(self).open ==> match key {
                BetKey::Digit(d) => final(self).open && final(self).amount == old(self).amount * 10 + d
                    && sent is None,
                BetKey::Backspace => final(self).open && final(self).amount == (if old(self).amount > 0 {
                    old(self).amount / 10
                } else {
                    old(self).amount as int
                }) && sent is None,
                BetKey::Enter => !final(self).open && final(self).amount == 0 && sent == Some(old(self).amount),
                BetKey::Escape => !final(self).open && final(self).amount == 0 && sent is None,
            },
    {
        if !self.open {
            return None;
        }
        match key {
            BetKey::Digit(d) => {
                self.amount = self.amount * 10 + d as i32;
                None
            },
            BetKey::Backspace => {
                if self.amount > 0 {
                    self.amount = self.amount / 10;
                }
                None
            },
            BetKey::Enter => {
                let a = self.amount;
                self.open = false;
                self.amount = 0;
                Some(a)
            },
            BetKey::Escape => {
                self.open = false;
                self.amount = 0;
                None
            },
        }
    }
}

} // verus!
