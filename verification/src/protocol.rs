//! The requests a client sends to the server, one JSON object per line, and
//! how the server answers each of them.

use vstd::prelude::*;
use vstd::string::StrSliceExecFns;
use crate::player::Player;
use crate::game_state::string_views;
use crate::session::{GameSession, registered, with_name, same_player};
use crate::betting::{PlayerAction, action_of, lowercase};

verus! {

/// The fields of a request that the server reads, each when present with the
/// right JSON type (a string, or an integer for the amount).
pub struct Request {
    pub action: Option<String>,
    pub username: Option<String>,
    pub password: Option<String>,
    pub variant: Option<String>,
    pub player_action: Option<String>,
    pub amount: Option<i64>,
}

/// The text of an optional string.
pub open spec fn opt_text(s: Option<String>) -> Option<Seq<char>> {
    match s {
        Some(x) => Some(x@),
        None => None,
    }
}

/// The fields of a request as plain values.
pub open spec fn request_view(
    q: Request,
) -> (Option<Seq<char>>, Option<Seq<char>>, Option<Seq<char>>, Option<Seq<char>>, Option<Seq<char>>, Option<i64>) {
    (opt_text(q.action), opt_text(q.username), opt_text(q.password), opt_text(q.variant), opt_text(q.player_action), q.amount)
}

/// A name for what reading a line as JSON with `serde_json::from_str` and
/// picking the request's fields gives: `None` when the line is not JSON.
pub uninterp spec fn request_fields(
    line: Seq<char>,
) -> Option<(Option<Seq<char>>, Option<Seq<char>>, Option<Seq<char>>, Option<Seq<char>>, Option<Seq<char>>, Option<i64>)>;

/// Calls `serde_json::from_str` on the line and picks the request's fields
/// (`action`, `username`, `password`, `variant` and `player_action` when they
/// are strings, `amount` when it is an integer that fits in `i64`). The claim
/// is only that the result is the named reading of the line, which depends
/// on nothing else; `None` exactly when the line is not JSON.
#[verifier::external_body]
pub fn parse_request(line: &str) -> (r: Option<Request>)
    ensures
        r matches Some(q) ==> request_fields(line@) == Some(request_view(q)),
        r is None <==> request_fields(line@) is None,
{
    serde_json::from_str::<serde_json::Value>(line).ok().map(
        |v| Request {
            action: v.get("action").and_then(|a| a.as_str()).map(String::from),
            username: v.get("username").and_then(|a| a.as_str()).map(String::from),
            password: v.get("password").and_then(|a| a.as_str()).map(String::from),
            variant: v.get("variant").and_then(|a| a.as_str()).map(String::from),
            player_action: v.get("player_action").and_then(|a| a.as_str()).map(String::from),
            amount: v.get("amount").and_then(|a| a.as_i64()),
        },
    )
}

/// The text, or the default when there is none.
pub open spec fn text_or(s: Option<Seq<char>>, default: Seq<char>) -> Seq<char> {
    match s {
        Some(t) => t,
        None => default,
    }
}

/// The user a request speaks for: its `username`, or the empty name.
pub open spec fn user_of(q: Request) -> Seq<char> {
    text_or(opt_text(q.username), ""@)
}

/// The password of a request, or the empty one.
pub open spec fn password_of(q: Request) -> Seq<char> {
    text_or(opt_text(q.password), ""@)
}

/// The game variant a request speaks of: its `variant`, or Texas hold 'em.
pub open spec fn variant_of(q: Request) -> Seq<char> {
    text_or(opt_text(q.variant), "texas_holdem"@)
}

/// The request's action is `word`.
pub open spec fn asks(q: Request, word: Seq<char>) -> bool {
    opt_text(q.action) == Some(word)
}

fn text_or_default(s: &Option<String>, default: &str) -> (t: String)
    ensures
        t@ == text_or(opt_text(*s), default@),
{
    match s {
        Some(x) => x.clone(),
        None => String::from_str(default),
    }
}

fn is_word(s: &Option<String>, word: &str) -> (b: bool)
    ensures
        b == (opt_text(*s) == Some(word@)),
{
    match s {
        Some(x) => *x == String::from_str(word),
        None => false,
    }
}

impl Request {
    /// The user the request speaks for (see `user_of`).
    pub fn user(&self) -> (u: String)
        ensures
            u@ == user_of(*self),
    {
        text_or_default(&self.username, "")
    }

    /// The request's password (see `password_of`).
    pub fn password_text(&self) -> (p: String)
        ensures
            p@ == password_of(*self),
    {
        text_or_default(&self.password, "")
    }

    /// The move a `player_action` request makes: its `player_action` word
    /// (or the empty word), taken in lower case, with its amount.
    pub fn player_move(&self) -> (a: PlayerAction)
        ensures
            a == action_of(lowercase(text_or(opt_text(self.player_action), ""@)), self.amount),
    {
        let word = text_or_default(&self.player_action, "");
        PlayerAction::from_message(word.as_str(), self.amount)
    }

    /// The request a closed connection stands for: the move that leaves the
    /// game.
    pub fn disconnect() -> (q: Request)
        ensures
            opt_text(q.player_action) == Some("__disconnect__"@),
            q.action is None,
            q.username is None,
            q.password is None,
            q.variant is None,
            q.amount is None,
    {
        Request {
            action: None,
            username: None,
            password: None,
            variant: None,
            player_action: Some(String::from_str("__disconnect__")),
            amount: None,
        }
    }

    /// The game variant the request speaks of (see `variant_of`).
    pub fn variant_name(&self) -> (v: String)
        ensures
            v@ == variant_of(*self),
    {
        text_or_default(&self.variant, "texas_holdem")
    }
}

/// The game rooms of the server.
#[derive(Debug, Clone, Copy, PartialEq, Eq, Structural)]
pub enum RoomId {
    TexasHoldem,
}

/// The room that serves a variant: there is one room, hold 'em, and every
/// variant is played there.
pub fn room_of(variant: &str) -> (r: RoomId)
    ensures
        r == RoomId::TexasHoldem,
{
    RoomId::TexasHoldem
}

/// What a connection knows of its client: the last user named, and the last
/// variant asked for.
pub struct Connection {
    pub known_username: Option<String>,
    pub known_variant: String,
}

impl Connection {
    /// A connection that knows no user yet, for Texas hold 'em.
    pub fn new() -> (c: Self)
        ensures
            c.known_username is None,
            c.known_variant@ == "texas_holdem"@,
    {
        Connection { known_username: None, known_variant: String::from_str("texas_holdem") }
    }
}

/// The account check a request needs before it can be answered.
#[derive(Debug, Clone, Copy, PartialEq, Eq, Structural)]
pub enum AccountCall {
    /// Store the user and password as a new account.
    Register,
    /// Check the user and password against the stored accounts.
    Login,
}

/// The account check a request needs: registering for `register`, a login
/// check for `login`, none otherwise (and none for a line that is not JSON).
pub fn account_call(req: &Option<Request>) -> (c: Option<AccountCall>)
    ensures
        c == (match *req {
            Some(q) => if asks(q, "register"@) {
                Some(AccountCall::Register)
            } else if asks(q, "login"@) {
                Some(AccountCall::Login)
            } else {
                None
            },
            None => None,
        }),
{
    match req {
        Some(q) => {
            if is_word(&q.action, "register") {
                Some(AccountCall::Register)
            } else if is_word(&q.action, "login") {
                Some(AccountCall::Login)
            } else {
                None
            }
        },
        None => None,
    }
}

/// The server's answer to a request.
pub enum Reply {
    /// The line was not JSON; nothing is sent back.
    Unreadable,
    /// A move in a game: it goes to the game of this user; nothing is sent
    /// back.
    Forward { username: String },
    Registered { username: String },
    UsernameTaken,
    LoggedIn { username: String },
    LoginRefused,
    Joined { variant: String, players: Vec<String>, game_started: bool },
    Players { players: Vec<String>, game_started: bool },
    /// A game was started with these players; it is played only when there
    /// are enough of them.
    Started { variant: String, game_players: Vec<Player>, enough: bool },
    GameState { game_started: bool, players: Vec<String> },
    LastUpdate { update: String },
    NoUpdateYet,
    Invalid,
}

/// The room operations leave everything but `what` changes as it was.
pub open spec fn same_room(a: GameSession, b: GameSession) -> bool {
    &&& a.game_number == b.game_number
    &&& a.active_players@ == b.active_players@
    &&& a.all_players@ == b.all_players@
    &&& a.game_style == b.game_style
    &&& a.game_state.game_started == b.game_state.game_started
    &&& a.last_update == b.last_update
}

/// `after` is `before` once `name` registered.
pub open spec fn registered_in(before: GameSession, after: GameSession, name: Seq<char>) -> bool {
    &&& registered(before.all_players@, after.all_players@, name)
    &&& after.active_players@ == before.active_players@
    &&& after.game_number == before.game_number
    &&& after.game_style == before.game_style
    &&& after.game_state.game_started == before.game_state.game_started
    &&& after.last_update == before.last_update
}

/// `after` is `before` once `name` joined the room.
pub open spec fn joined_in(before: GameSession, after: GameSession, name: Seq<char>) -> bool {
    &&& registered(before.all_players@, after.all_players@, name)
    &&& string_views(after.active_players@) == with_name(string_views(before.active_players@), name)
    &&& after.game_number == before.game_number
    &&& after.game_style == before.game_style
    &&& after.game_state.game_started == before.game_state.game_started
    &&& after.last_update == before.last_update
}

/// `after` is `before` once a game of `variant` started, and `players` are
/// copies of the players in the room, in the room's order.
pub open spec fn started_in(before: GameSession, after: GameSession, variant: Seq<char>, players: Seq<Player>) -> bool {
    &&& before.game_style.is_none() ==> after.game_style.is_some() && after.game_style->0@ == variant
    &&& before.game_style.is_some() ==> after.game_style == before.game_style
    &&& after.game_state.game_started
    &&& after.last_update.is_none()
    &&& after.active_players@ == before.active_players@
    &&& after.all_players@ == before.all_players@
    &&& after.game_number == before.game_number
    &&& players.len() == before.active_players@.len()
    &&& forall|k: int|
        #![trigger players[k]]
        0 <= k < players.len() ==> players[k].name@ == before.active_players@[k]@ && exists|j: int|
            0 <= j < before.all_players@.len() && same_player(players[k], #[trigger] before.all_players@[j])
}

/// The answer to request `q` in room `before`, leaving the room `after`,
/// where `account_ok` is the outcome of the account check (see
/// `account_call`):
/// - `player_action`: forwarded to the game of the request's user;
/// - `register`: the user is registered in the room when the account was
///   stored, else the name is taken;
/// - `login`: accepted or refused as the check says;
/// - `join`: the user joins the room, and gets the room's players and
///   whether a game is running;
/// - `players`: the room's players and whether a game is running;
/// - `start`: a game of the variant starts with the room's players, to be
///   played when there are at least two;
/// - `get_game_state`: whether a game is running, and the room's players;
/// - `game_state_update`: the last saved state, if there is one;
/// - anything else: an invalid action.
/// The room changes only as said.
pub open spec fn answers(q: Request, before: GameSession, after: GameSession, account_ok: bool, reply: Reply) -> bool {
    let user = user_of(q);
    let variant = variant_of(q);
    if asks(q, "player_action"@) {
        after == before && (reply matches Reply::Forward { username } && username@ == user)
    } else if asks(q, "register"@) {
        if account_ok {
            registered_in(before, after, user) && (reply matches Reply::Registered { username } && username@ == user)
        } else {
            after == before && reply is UsernameTaken
        }
    } else if asks(q, "login"@) {
        after == before && if account_ok {
            reply matches Reply::LoggedIn { username } && username@ == user
        } else {
            reply is LoginRefused
        }
    } else if asks(q, "join"@) {
        &&& joined_in(before, after, user)
        &&& reply matches Reply::Joined { variant: v, players, game_started } && v@ == variant && string_views(
            players@,
        ) == string_views(after.active_players@) && game_started == after.game_state.game_started
    } else if asks(q, "players"@) {
        after == before && (reply matches Reply::Players { players, game_started } && string_views(players@)
            == string_views(before.active_players@) && game_started == before.game_state.game_started)
    } else if asks(q, "start"@) {
        reply matches Reply::Started { variant: v, game_players, enough } && v@ == variant && started_in(
            before,
            after,
            variant,
            game_players@,
        ) && enough == (game_players@.len() >= 2)
    } else if asks(q, "get_game_state"@) {
        after == before && (reply matches Reply::GameState { game_started, players } && game_started
            == before.game_state.game_started && string_views(players@) == string_views(before.active_players@))
    } else if asks(q, "game_state_update"@) {
        after == before && match before.last_update {
            Some(s) => reply matches Reply::LastUpdate { update } && update@ == s@,
            None => reply is NoUpdateYet,
        }
    } else {
        after == before && reply is Invalid
    }
}

/// What the connection learns from request `q`: the user, when the request
/// names one, and the variant.
pub open spec fn learns(q: Request, before: Connection, after: Connection) -> bool {
    &&& user_of(q).len() > 0 ==> opt_text(after.known_username) == Some(user_of(q))
    &&& user_of(q).len() == 0 ==> opt_text(after.known_username) == opt_text(before.known_username)
    &&& after.known_variant@ == variant_of(q)
}

/// Answers one line from a client, read with `parse_request`, in its room
/// (see `answers`), and records what the connection learns (see `learns`).
/// A line that is not JSON changes nothing and gets no answer.
pub fn answer(conn: &mut Connection, session: &mut GameSession, req: &Option<Request>, account_ok: bool) -> (reply:
    Reply)
    requires
        old(session).well_formed(),
    ensures
        final(session).well_formed(),
        match *req {
            Some(q) => learns(q, *old(conn), *final(conn)) && answers(
                q,
                *old(session),
                *final(session),
                account_ok,
                reply,
            ),
            None => reply is Unreadable && *final(session) == *old(session) && opt_text(final(conn).known_username)
                == opt_text(old(conn).known_username) && final(conn).known_variant@ == old(conn).known_variant@,
        },
{
    let q = match req {
        Some(q) => q,
        None => {
            return Reply::Unreadable;
        },
    };
    let user = q.user();
    let variant = q.variant_name();
    if user.unicode_len() > 0 {
        conn.known_username = Some(user.clone());
    }
    conn.known_variant = variant.clone();
    if is_word(&q.action, "player_action") {
        Reply::Forward { username: user }
    } else if is_word(&q.action, "register") {
        if account_ok {
            session.register_player(user.as_str());
            Reply::Registered { username: user }
        } else {
            Reply::UsernameTaken
        }
    } else if is_word(&q.action, "login") {
        if account_ok {
            Reply::LoggedIn { username: user }
        } else {
            Reply::LoginRefused
        }
    } else if is_word(&q.action, "join") {
        let players = session.join(user.as_str());
        Reply::Joined { variant, players, game_started: session.game_state.game_started }
    } else if is_word(&q.action, "players") {
        Reply::Players { players: session.player_list(), game_started: session.game_state.game_started }
    } else if is_word(&q.action, "start") {
        let players = session.start_game(variant.as_str());
        let enough = crate::session::enough_players(&players);
        Reply::Started { variant, game_players: players, enough }
    } else if is_word(&q.action, "get_game_state") {
        Reply::GameState { game_started: session.game_state.game_started, players: session.player_list() }
    } else if is_word(&q.action, "game_state_update") {
        match &session.last_update {
            Some(s) => Reply::LastUpdate { update: s.clone() },
            None => Reply::NoUpdateYet,
        }
    } else {
        Reply::Invalid
    }
}

/// Whether the answer is a success or an error.
pub open spec fn reply_status(r: Reply) -> Seq<char> {
    match r {
        Reply::UsernameTaken | Reply::LoginRefused | Reply::NoUpdateYet | Reply::Invalid => "error"@,
        _ => "success"@,
    }
}

/// The message that goes with an answer, if any.
pub open spec fn reply_message(r: Reply) -> Option<Seq<char>> {
    match r {
        Reply::Registered { .. } => Some("User registered"@),
        Reply::UsernameTaken => Some("Username already taken"@),
        Reply::LoggedIn { .. } => Some("Login successful"@),
        Reply::LoginRefused => Some("Invalid username or password"@),
        Reply::Joined { variant, .. } => Some("Joined "@ + variant@ + " room."@),
        Reply::Started { variant, .. } => Some("Game started in "@ + variant@ + " room."@),
        Reply::NoUpdateYet => Some("No game state available yet"@),
        Reply::Invalid => Some("Invalid action"@),
        _ => None,
    }
}

impl Reply {
    /// `success` or `error` (see `reply_status`).
    pub fn status(&self) -> (s: &'static str)
        ensures
            s@ == reply_status(*self),
    {
        match self {
            Reply::UsernameTaken | Reply::LoginRefused | Reply::NoUpdateYet | Reply::Invalid => "error",
            _ => "success",
        }
    }

    /// The message that goes with the answer (see `reply_message`).
    pub fn message(&self) -> (m: Option<String>)
        ensures
            opt_text(m) == reply_message(*self),
    {
        match self {
            Reply::Registered { .. } => Some(String::from_str("User registered")),
            Reply::UsernameTaken => Some(String::from_str("Username already taken")),
            Reply::LoggedIn { .. } => Some(String::from_str("Login successful")),
            Reply::LoginRefused => Some(String::from_str("Invalid username or password")),
            Reply::Joined { variant, .. } => {
                let mut m = String::from_str("Joined ");
                m.append(variant.as_str());
                m.append(" room.");
                Some(m)
            },
            Reply::Started { variant, .. } => {
                let mut m = String::from_str("Game started in ");
                m.append(variant.as_str());
                m.append(" room.");
                Some(m)
            },
            Reply::NoUpdateYet => Some(String::from_str("No game state available yet")),
            Reply::Invalid => Some(String::from_str("Invalid action")),
            _ => None,
        }
    }
}

} // verus!
