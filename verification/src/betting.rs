//! Betting rounds: the moves a player can make, what they do, and whose
//! turn comes next, under the rules of each variant.

use vstd::prelude::*;
use vstd::string::StrSliceExecFns;
use crate::player::{Player, bet_post};
use crate::game_state::{
    max_active_bet, active_count, sum_bets, sum_active_bets, all_active_bets_are, highest_active_bet,
    count_active, total_bets, total_active_bets, active_bets_all_equal,
};

verus! {

/// Why a move was refused.
#[derive(Debug, Clone, Copy, PartialEq, Eq, Structural)]
pub enum RejectReason {
    /// A check while the player's bet is below the bet to match.
    CannotCheck,
    /// A call with nothing to call.
    NothingToCall,
    /// A bet below the bet to match.
    BetTooLow,
    /// A move the table does not know.
    Unrecognized,
}

/// A player's move.
#[derive(Debug, Clone, Copy, PartialEq, Eq, Structural)]
pub enum PlayerAction {
    Fold,
    Check,
    Call,
    /// A bet or raise, with the amount when the message gave one.
    Bet(Option<u32>),
    /// The player's connection closed.
    Disconnect,
    /// The player did not answer in time.
    TimedOut,
    Unrecognized,
}

/// What became of a move.
#[derive(Debug, Clone, Copy, PartialEq, Eq, Structural)]
pub enum MoveOutcome {
    /// The move was made; the next player's turn comes.
    Accepted,
    /// The move was refused; the player must try again.
    Rejected(RejectReason),
    /// Nothing happened; the player must try again.
    Ignored,
}

/// The message a hold 'em player gets when a move is refused.
pub open spec fn texas_reply(r: RejectReason) -> Seq<char> {
    match r {
        RejectReason::CannotCheck => "Invalid move: you must call or fold, not check."@,
        RejectReason::NothingToCall => "Invalid move: there's nothing to call."@,
        RejectReason::BetTooLow => "Invalid move: bet must be higher than the current highest bet."@,
        RejectReason::Unrecognized => "Invalid move: unrecognized action."@,
    }
}

impl RejectReason {
    /// The message a hold 'em player gets when a move is refused.
    pub fn texas_message(&self) -> (m: &'static str)
        ensures
            m@ == texas_reply(*self),
    {
        match self {
            RejectReason::CannotCheck => "Invalid move: you must call or fold, not check.",
            RejectReason::NothingToCall => "Invalid move: there's nothing to call.",
            RejectReason::BetTooLow => "Invalid move: bet must be higher than the current highest bet.",
            RejectReason::Unrecognized => "Invalid move: unrecognized action.",
        }
    }
}

/// A name for what `str::to_lowercase` gives (the Unicode lower-case
/// mapping of every character).
pub uninterp spec fn lowercase(s: Seq<char>) -> Seq<char>;

/// Calls `str::to_lowercase`; the claim is only that its result is the
/// named lower-case form of its argument, which depends on nothing else.
#[verifier::external_body]
pub(crate) fn to_lowercase(s: &str) -> (r: String)
    ensures
        r@ == lowercase(s@),
{
    s.to_lowercase()
}

/// The move a message names, given its action word in lower case and its
/// amount, if any (an amount is taken modulo 2^32, as `as u32` does).
pub open spec fn action_of(word: Seq<char>, amount: Option<i64>) -> PlayerAction {
    if word == "__disconnect__"@ {
        PlayerAction::Disconnect
    } else if word == "fold"@ {
        PlayerAction::Fold
    } else if word == "check"@ {
        PlayerAction::Check
    } else if word == "call"@ {
        PlayerAction::Call
    } else if word == "bet"@ || word == "raise"@ {
        PlayerAction::Bet(
            match amount {
                Some(a) => Some(a as u32),
                None => None,
            },
        )
    } else {
        PlayerAction::Unrecognized
    }
}

impl PlayerAction {
    /// The move a player's message names: its action word, taken in lower
    /// case, and its amount, if any.
    pub fn from_message(action: &str, amount: Option<i64>) -> (a: PlayerAction)
        ensures
            a == action_of(lowercase(action@), amount),
    {
        let word = to_lowercase(action);
        if word == String::from_str("__disconnect__") {
            PlayerAction::Disconnect
        } else if word == String::from_str("fold") {
            PlayerAction::Fold
        } else if word == String::from_str("check") {
            PlayerAction::Check
        } else if word == String::from_str("call") {
            PlayerAction::Call
        } else if word == String::from_str("bet") || word == String::from_str("raise") {
            match amount {
                Some(a) => PlayerAction::Bet(Some(a as u32)),
                None => PlayerAction::Bet(None),
            }
        } else {
            PlayerAction::Unrecognized
        }
    }
}

/// A name for what `char::is_whitespace` gives: whether the character has
/// the Unicode `White_Space` property.
pub uninterp spec fn is_white(c: char) -> bool;

/// Calls `char::is_whitespace`; the claim is only that its result is the
/// named property of its argument, which depends on nothing else.
#[verifier::external_body]
pub(crate) fn is_whitespace_char(c: char) -> (b: bool)
    ensures
        b == is_white(c),
{
    c.is_whitespace()
}

/// The number of white-space characters at the start of `s`.
pub open spec fn leading_white(s: Seq<char>) -> nat
    decreases s.len(),
{
    if s.len() > 0 && is_white(s[0]) {
        1 + leading_white(s.drop_first())
    } else {
        0
    }
}

/// The number of white-space characters at the end of `s`.
pub open spec fn trailing_white(s: Seq<char>) -> nat
    decreases s.len(),
{
    if s.len() > 0 && is_white(s.last()) {
        1 + trailing_white(s.drop_last())
    } else {
        0
    }
}

/// `s` without its leading and trailing white space.
pub open spec fn trimmed(s: Seq<char>) -> Seq<char> {
    let rest = s.skip(leading_white(s) as int);
    rest.take(rest.len() - trailing_white(rest))
}

proof fn lemma_leading_white(s: Seq<char>, a: int)
    requires
        0 <= a <= s.len(),
        forall|i: int| 0 <= i < a ==> is_white(#[trigger] s[i]),
        a == s.len() || !is_white(s[a]),
    ensures
        leading_white(s) == a,
    decreases a,
{
    if a > 0 {
        let t = s.drop_first();
        assert forall|i: int| 0 <= i < a - 1 implies is_white(#[trigger] t[i]) by {
            assert(t[i] == s[i + 1]);
        }
        if a < s.len() {
            assert(t[a - 1] == s[a]);
        }
        lemma_leading_white(t, a - 1);
    }
}

proof fn lemma_trailing_white(s: Seq<char>, b: int)
    requires
        0 <= b <= s.len(),
        forall|i: int| b <= i < s.len() ==> is_white(#[trigger] s[i]),
        b == 0 || !is_white(s[b - 1]),
    ensures
        trailing_white(s) == s.len() - b,
    decreases s.len() - b,
{
    if b < s.len() {
        let t = s.drop_last();
        assert forall|i: int| b <= i < t.len() implies is_white(#[trigger] t[i]) by {
            assert(t[i] == s[i]);
        }
        if b > 0 {
            assert(t[b - 1] == s[b - 1]);
        }
        assert(is_white(s.last()));
        lemma_trailing_white(t, b);
    }
}

/// `s` without its leading and trailing white space (see `trimmed`).
pub(crate) fn trim_str(s: &str) -> (r: &str)
    ensures
        r@ == trimmed(s@),
{
    let n = s.unicode_len();
    let mut a: usize = 0;
    while a < n
        invariant
            n == s@.len(),
            0 <= a <= n,
            forall|i: int| 0 <= i < a ==> is_white(#[trigger] s@[i]),
        ensures
            0 <= a <= n,
            forall|i: int| 0 <= i < a ==> is_white(#[trigger] s@[i]),
            a == n || !is_white(s@[a as int]),
        decreases n - a,
    {
        if !is_whitespace_char(s.get_char(a)) {
            break;
        }
        a = a + 1;
    }
    let mut b: usize = n;
    while b > a
        invariant
            n == s@.len(),
            a <= b <= n,
            forall|i: int| b <= i < n ==> is_white(#[trigger] s@[i]),
        ensures
            a <= b <= n,
            forall|i: int| b <= i < n ==> is_white(#[trigger] s@[i]),
            b == a || !is_white(s@[b - 1]),
        decreases b - a,
    {
        if !is_whitespace_char(s.get_char(b - 1)) {
            break;
        }
        b = b - 1;
    }
    proof {
        lemma_leading_white(s@, a as int);
        let rest = s@.skip(a as int);
        assert forall|i: int| b - a <= i < rest.len() implies is_white(#[trigger] rest[i]) by {
            assert(rest[i] == s@[i + a]);
        }
        if b > a {
            assert(rest[b - a - 1] == s@[b - 1]);
        }
        lemma_trailing_white(rest, b - a);
        assert(rest.take(rest.len() - trailing_white(rest)) =~= s@.subrange(a as int, b as int));
    }
    s.substring_char(a, b)
}

/// The value of a string of decimal digits.
pub open spec fn decimal_value(s: Seq<char>) -> nat
    decreases s.len(),
{
    if s.len() == 0 {
        0
    } else {
        10 * decimal_value(s.drop_last()) + ((s.last() as int) - ('0' as int)) as nat
    }
}

/// Every character is an ASCII digit.
pub open spec fn all_digits(s: Seq<char>) -> bool {
    forall|i: int| 0 <= i < s.len() ==> '0' <= #[trigger] s[i] <= '9'
}

/// What parsing `s` as an unsigned integer no larger than `max` gives: an
/// optional `+` followed by at least one ASCII digit, whose value is at
/// most `max`; anything else is refused.
pub open spec fn parsed_unsigned(s: Seq<char>, max: nat) -> Option<nat> {
    let d = if s.len() > 0 && s[0] == '+' {
        s.drop_first()
    } else {
        s
    };
    if d.len() > 0 && all_digits(d) && decimal_value(d) <= max {
        Some(decimal_value(d))
    } else {
        None
    }
}

/// Calls `str::parse::<u32>`, which the documentation describes as taking
/// an optional `+` followed by decimal digits, and refusing anything else,
/// an empty string and values above `u32::MAX`.
#[verifier::external_body]
pub(crate) fn parse_u32(s: &str) -> (r: Option<u32>)
    ensures
        r matches Some(v) ==> parsed_unsigned(s@, u32::MAX as nat) == Some(v as nat),
        r is None ==> parsed_unsigned(s@, u32::MAX as nat) is None,
{
    s.parse::<u32>().ok()
}

/// The move a player types at the console: the input, trimmed and in lower
/// case, is `fold`, `check`, `call`, or an amount to bet.
pub open spec fn typed_action(input: Seq<char>) -> PlayerAction {
    let word = lowercase(trimmed(input));
    if word == "fold"@ {
        PlayerAction::Fold
    } else if word == "check"@ {
        PlayerAction::Check
    } else if word == "call"@ {
        PlayerAction::Call
    } else {
        match parsed_unsigned(word, u32::MAX as nat) {
            Some(v) => PlayerAction::Bet(Some(v as u32)),
            None => PlayerAction::Unrecognized,
        }
    }
}

impl PlayerAction {
    /// The move a player types at the console (see `typed_action`).
    pub fn from_typed(input: &str) -> (a: PlayerAction)
        ensures
            a == typed_action(input@),
    {
        let word = to_lowercase(trim_str(input));
        if word == String::from_str("fold") {
            PlayerAction::Fold
        } else if word == String::from_str("check") {
            PlayerAction::Check
        } else if word == String::from_str("call") {
            PlayerAction::Call
        } else {
            match parse_u32(word.as_str()) {
                Some(v) => PlayerAction::Bet(Some(v)),
                None => PlayerAction::Unrecognized,
            }
        }
    }
}

/// The seat whose turn comes at `offset` in a pass that starts at seat
/// `start`, going round the table.
pub open spec fn seat_at(start: int, offset: int, n: int) -> int {
    (start + offset) % n
}

/// The first offset at or after `from` in the current pass whose seat holds
/// an active player, or the number of players when there is none.
pub open spec fn first_active_offset(players: Seq<Player>, start: int, from: int) -> int
    decreases players.len() - from,
{
    if from >= players.len() {
        players.len() as int
    } else if players[seat_at(start, from, players.len() as int)].is_active {
        from
    } else {
        first_active_offset(players, start, from + 1)
    }
}

/// What the betting round asks for next.
#[derive(Debug, Clone, Copy, PartialEq, Eq, Structural)]
pub enum Turn {
    /// The player at this seat is to act.
    Ask(usize),
    /// The betting round is over.
    Over,
}

/// Where a betting round stands: how far the current pass has gone, and the
/// highest bet the players have to match.
#[derive(Debug, Clone, Copy)]
pub struct BettingRound {
    pub offset: usize,
    pub highest_bet: u32,
}

/// A pass over the table ends the betting round when every active player's
/// bet matches the highest one, or when at most one player is left.
pub open spec fn pass_ends_round(players: Seq<Player>) -> bool {
    all_active_bets_are(players, max_active_bet(players, players.len() as int))
        || active_count(players, players.len() as int) <= 1
}

/// How a variant runs its betting rounds.
#[derive(Debug, Clone, Copy, PartialEq, Eq, Structural)]
pub struct RoundRules {
    /// The round stops as soon as at most one player is left, before the
    /// next player is asked.
    pub stop_when_one_left: bool,
    /// At the end of a pass the pot is the sum of the active players' bets
    /// (otherwise of all players' bets).
    pub pot_from_active_only: bool,
    /// Passes repeat until the round ends (otherwise one pass is all).
    pub repeat_passes: bool,
}

/// The rules of hold 'em: stop when one player is left, the pot holds every
/// bet, passes repeat.
pub open spec fn texas_rules() -> RoundRules {
    RoundRules { stop_when_one_left: true, pot_from_active_only: false, repeat_passes: true }
}

/// The rules of seven-card stud: every active player acts in each pass, the
/// pot holds the active players' bets, passes repeat.
pub open spec fn stud_rules() -> RoundRules {
    RoundRules { stop_when_one_left: false, pot_from_active_only: true, repeat_passes: true }
}

/// The rules of five-card draw: one pass in seat order, the pot holds the
/// active players' bets.
pub open spec fn draw_rules() -> RoundRules {
    RoundRules { stop_when_one_left: false, pot_from_active_only: true, repeat_passes: false }
}

impl RoundRules {
    /// The rules of hold 'em.
    pub fn texas() -> (r: Self)
        ensures
            r == texas_rules(),
    {
        RoundRules { stop_when_one_left: true, pot_from_active_only: false, repeat_passes: true }
    }

    /// The rules of seven-card stud.
    pub fn stud() -> (r: Self)
        ensures
            r == stud_rules(),
    {
        RoundRules { stop_when_one_left: false, pot_from_active_only: true, repeat_passes: true }
    }

    /// The rules of five-card draw.
    pub fn draw() -> (r: Self)
        ensures
            r == draw_rules(),
    {
        RoundRules { stop_when_one_left: false, pot_from_active_only: true, repeat_passes: false }
    }
}

/// The pot at the end of a pass.
pub open spec fn pass_pot(players: Seq<Player>, rules: RoundRules) -> int {
    if rules.pot_from_active_only {
        sum_active_bets(players, players.len() as int)
    } else {
        sum_bets(players, players.len() as int)
    }
}

/// The next step of the betting round from `offset`: the next active player
/// in turn order is asked to act (unless the rules stop the round when at
/// most one player is left, and that is so); at the end of a pass the round
/// is over if the rules allow one pass only or if `pass_ends_round`, and
/// otherwise a new pass starts.
pub open spec fn next_turn_result(players: Seq<Player>, start: int, offset: int, rules: RoundRules) -> Turn {
    let n = players.len() as int;
    let o = first_active_offset(players, start, offset);
    if o < n {
        if rules.stop_when_one_left && active_count(players, n) <= 1 {
            Turn::Over
        } else {
            Turn::Ask(seat_at(start, o, n) as usize)
        }
    } else if !rules.repeat_passes || pass_ends_round(players) {
        Turn::Over
    } else {
        Turn::Ask(seat_at(start, first_active_offset(players, start, 0), n) as usize)
    }
}

proof fn lemma_seat_in_range(start: int, offset: int, n: int)
    requires
        n > 0,
        start >= 0,
        offset >= 0,
    ensures
        0 <= seat_at(start, offset, n) < n,
{
}

proof fn lemma_every_seat_reached(start: int, n: int, j: int)
    requires
        n > 0,
        start >= 0,
        0 <= j < n,
    ensures
        exists|o: int| 0 <= o < n && seat_at(start, o, n) == j,
{
    vstd::arithmetic::div_mod::lemma_fundamental_div_mod(start, n);
    let q = start / n;
    let s = start % n;
    if j >= s {
        let o = j - s;
        assert(start + o == q * n + j) by (nonlinear_arith)
            requires
                start == n * q + s,
                o == j - s,
        ;
        vstd::arithmetic::div_mod::lemma_fundamental_div_mod_converse_mod(start + o, n, q, j);
        assert(seat_at(start, o, n) == j);
    } else {
        let o = j + n - s;
        assert(start + o == (q + 1) * n + j) by (nonlinear_arith)
            requires
                start == n * q + s,
                o == j + n - s,
        ;
        vstd::arithmetic::div_mod::lemma_fundamental_div_mod_converse_mod(start + o, n, q + 1, j);
        assert(seat_at(start, o, n) == j);
    }
}

proof fn lemma_first_active_offset(players: Seq<Player>, start: int, from: int)
    requires
        0 <= from <= players.len(),
        start >= 0,
    ensures
        from <= first_active_offset(players, start, from) <= players.len(),
        first_active_offset(players, start, from) < players.len() ==> players[seat_at(
            start,
            first_active_offset(players, start, from),
            players.len() as int,
        )].is_active,
        forall|o: int|
            from <= o < first_active_offset(players, start, from) ==> !players[seat_at(
                start,
                o,
                players.len() as int,
            )].is_active,
    decreases players.len() - from,
{
    if from < players.len() {
        lemma_seat_in_range(start, from, players.len() as int);
        if !players[seat_at(start, from, players.len() as int)].is_active {
            lemma_first_active_offset(players, start, from + 1);
        }
    }
}

proof fn lemma_active_count_positive(players: Seq<Player>, n: int)
    requires
        0 <= n <= players.len(),
        active_count(players, n) > 0,
    ensures
        exists|j: int| 0 <= j < n && players[j].is_active,
    decreases n,
{
    if n > 0 && !players[n - 1].is_active {
        lemma_active_count_positive(players, n - 1);
    }
}


/// Starts a betting round: the first pass begins, and the bet to match is
/// the highest bet of the active players.
pub fn begin_round(players: &Vec<Player>) -> (r: BettingRound)
    ensures
        r.offset == 0,
        r.highest_bet == max_active_bet(players@, players@.len() as int),
{
    BettingRound { offset: 0, highest_bet: highest_active_bet(players) }
}

fn scan_for_active(players: &Vec<Player>, start: usize, round: &mut BettingRound)
    requires
        old(round).offset <= players@.len(),
        start + players@.len() <= usize::MAX + 1,
    ensures
        final(round).offset == first_active_offset(players@, start as int, old(round).offset as int),
        final(round).highest_bet == old(round).highest_bet,
{
    let n = players.len();
    proof {
        lemma_first_active_offset(players@, start as int, round.offset as int);
    }
    while round.offset < n
        invariant
            n == players@.len(),
            round.offset <= n,
            round.highest_bet == old(round).highest_bet,
            start + n <= usize::MAX + 1,
            first_active_offset(players@, start as int, round.offset as int) == first_active_offset(
                players@,
                start as int,
                old(round).offset as int,
            ),
        decreases n - round.offset,
    {
        let i = (start + round.offset) % n;
        if players[i].is_active() {
            return;
        }
        round.offset = round.offset + 1;
    }
}

/// The next step of a betting round (see `next_turn_result`), for a table
/// whose passes start at seat `start`. At the end of a pass the pot is set
/// (see `pass_pot`); when a new pass starts, the bet to match is the
/// highest active bet.
pub fn next_turn(players: &Vec<Player>, start: usize, pot: &mut u32, round: &mut BettingRound, rules: RoundRules) -> (t: Turn)
    requires
        old(round).offset <= players@.len(),
        start + players@.len() <= usize::MAX + 1,
        first_active_offset(players@, start as int, old(round).offset as int) >= players@.len()
            ==> pass_pot(players@, rules) <= u32::MAX,
    ensures
        t == next_turn_result(players@, start as int, old(round).offset as int, rules),
        t matches Turn::Ask(i) ==> i < players@.len() && players@[i as int].is_active,
        final(round).offset <= players@.len(),
        ({
            let o = first_active_offset(players@, start as int, old(round).offset as int);
            let n = players@.len() as int;
            &&& o < n ==> final(round).offset == o + 1 && final(round).highest_bet == old(round).highest_bet
                && *final(pot) == *old(pot)
            &&& o >= n ==> *final(pot) == pass_pot(players@, rules)
            &&& (o >= n && t is Ask) ==> final(round).highest_bet == max_active_bet(players@, n)
                && final(round).offset == first_active_offset(players@, start as int, 0) + 1
        }),
{
    let n = players.len();
    let ghost st = start as int;
    proof {
        lemma_first_active_offset(players@, st, round.offset as int);
    }
    scan_for_active(players, start, round);
    if round.offset < n {
        let i = (start + round.offset) % n;
        round.offset = round.offset + 1;
        if rules.stop_when_one_left && count_active(players) <= 1 {
            return Turn::Over;
        }
        return Turn::Ask(i);
    }
    // the pass is over

    if rules.pot_from_active_only {
        *pot = total_active_bets(players);
    } else {
        *pot = total_bets(players);
    }
    if !rules.repeat_passes {
        return Turn::Over;
    }
    let highest = highest_active_bet(players);
    let all_matched = active_bets_all_equal(players, highest);
    if all_matched || count_active(players) <= 1 {
        return Turn::Over;
    }
    round.offset = 0;
    round.highest_bet = highest;
    proof {
        lemma_first_active_offset(players@, st, 0);
        lemma_active_count_positive(players@, n as int);
        let j = choose|j: int| 0 <= j < n && players@[j].is_active;
        lemma_every_seat_reached(st, n as int, j);
        let o = choose|o: int| 0 <= o < n && seat_at(st, o, n as int) == j;
        assert(first_active_offset(players@, st, 0) <= o);
    }
    scan_for_active(players, start, round);
    let i = (start + round.offset) % n;
    round.offset = round.offset + 1;
    Turn::Ask(i)
}

/// Applies a player's move. Folding, leaving, or not answering in time
/// folds the hand. A check is accepted only when the player's bet matches
/// the bet to match; a call only when it is below it, and raises the
/// player's bet to it. A bet is accepted when it is at least the bet to
/// match, and becomes the bet to match. A bet without an amount is
/// ignored; anything else is refused.
pub fn apply_move(players: &mut Vec<Player>, round: &mut BettingRound, seat: usize, action: PlayerAction) -> (out: MoveOutcome)
    requires
        seat < old(players)@.len(),
    ensures
        out == move_outcome(old(players)@[seat as int].current_bet, old(round).highest_bet, action),
        final(round).offset == old(round).offset,
        final(players)@.len() == old(players)@.len(),
        forall|j: int| 0 <= j < old(players)@.len() && j != seat ==> final(players)@[j] == old(players)@[j],
        move_effect(
            old(players)@[seat as int],
            final(players)@[seat as int],
            old(round).highest_bet,
            final(round).highest_bet,
            action,
        ),
{
    let highest = round.highest_bet;
    match action {
        PlayerAction::Fold | PlayerAction::Disconnect | PlayerAction::TimedOut => {
            players[seat].fold();
            MoveOutcome::Accepted
        },
        PlayerAction::Check => {
            if players[seat].current_bet == highest {
                MoveOutcome::Accepted
            } else {
                MoveOutcome::Rejected(RejectReason::CannotCheck)
            }
        },
        PlayerAction::Call => {
            if players[seat].current_bet < highest {
                players[seat].call(highest);
                MoveOutcome::Accepted
            } else {
                MoveOutcome::Rejected(RejectReason::NothingToCall)
            }
        },
        PlayerAction::Bet(amount) => {
            match amount {
                Some(bet_amount) => {
                    if bet_amount >= highest {
                        players[seat].bet(bet_amount);
                        round.highest_bet = bet_amount;
                        MoveOutcome::Accepted
                    } else {
                        MoveOutcome::Rejected(RejectReason::BetTooLow)
                    }
                },
                None => MoveOutcome::Ignored,
            }
        },
        PlayerAction::Unrecognized => MoveOutcome::Rejected(RejectReason::Unrecognized),
    }
}

/// What a move comes to, for a player whose bet is `bet` when the bet to
/// match is `highest`.
pub open spec fn move_outcome(bet: u32, highest: u32, action: PlayerAction) -> MoveOutcome {
    match action {
        PlayerAction::Fold | PlayerAction::Disconnect | PlayerAction::TimedOut => MoveOutcome::Accepted,
        PlayerAction::Check => if bet == highest {
            MoveOutcome::Accepted
        } else {
            MoveOutcome::Rejected(RejectReason::CannotCheck)
        },
        PlayerAction::Call => if bet < highest {
            MoveOutcome::Accepted
        } else {
            MoveOutcome::Rejected(RejectReason::NothingToCall)
        },
        PlayerAction::Bet(Some(a)) => if a >= highest {
            MoveOutcome::Accepted
        } else {
            MoveOutcome::Rejected(RejectReason::BetTooLow)
        },
        PlayerAction::Bet(None) => MoveOutcome::Ignored,
        PlayerAction::Unrecognized => MoveOutcome::Rejected(RejectReason::Unrecognized),
    }
}

/// How a move changes the player and the bet to match: a fold (or leaving,
/// or timing out) makes the player inactive; an accepted call sets their bet
/// to the bet to match; an accepted bet sets their bet to the amount, which
/// becomes the bet to match; anything else changes nothing.
pub open spec fn move_effect(before: Player, after: Player, highest: u32, new_highest: u32, action: PlayerAction) -> bool {
    match action {
        PlayerAction::Fold | PlayerAction::Disconnect | PlayerAction::TimedOut => {
            &&& !after.is_active
            &&& after.current_bet == before.current_bet
            &&& after.name@ == before.name@
            &&& after.winnings == before.winnings
            &&& after.hand@ == before.hand@
            &&& after.face_up_cards@ == before.face_up_cards@
            &&& after.game_statistics@ == before.game_statistics@
            &&& new_highest == highest
        },
        PlayerAction::Call => if before.current_bet < highest {
            bet_post(before, after, highest) && new_highest == highest
        } else {
            after == before && new_highest == highest
        },
        PlayerAction::Bet(Some(a)) => if a >= highest {
            bet_post(before, after, a) && new_highest == a
        } else {
            after == before && new_highest == highest
        },
        _ => after == before && new_highest == highest,
    }
}

/// After an accepted move the player has either left the hand or matched
/// the bet to match, and the bet to match never goes down.
pub proof fn lemma_accepted_move_matches(before: Player, after: Player, highest: u32, new_highest: u32, action: PlayerAction)
    requires
        move_effect(before, after, highest, new_highest, action),
        move_outcome(before.current_bet, highest, action) == MoveOutcome::Accepted,
    ensures
        !after.is_active || after.current_bet == new_highest,
        new_highest >= highest,
{
}

/// Under rules that repeat passes, a betting round only ends when at most
/// one player is left in the hand or every active player's bet matches the
/// highest active bet; and only an active player is asked to act (while at
/// least two are left, under rules that stop when one is left).
pub proof fn lemma_round_ends_settled(players: Seq<Player>, start: int, offset: int, rules: RoundRules)
    requires
        0 <= offset <= players.len(),
        players.len() <= usize::MAX,
        start >= 0,
    ensures
        (rules.repeat_passes && next_turn_result(players, start, offset, rules) is Over) ==> active_count(
            players,
            players.len() as int,
        ) <= 1 || all_active_bets_are(players, max_active_bet(players, players.len() as int)),
        next_turn_result(players, start, offset, rules) matches Turn::Ask(i) ==> i < players.len()
            && players[i as int].is_active,
        (rules.stop_when_one_left && next_turn_result(players, start, offset, rules) is Ask) ==> active_count(
            players,
            players.len() as int,
        ) >= 2,
{
    let n = players.len() as int;
    lemma_first_active_offset(players, start, offset);
    lemma_first_active_offset(players, start, 0);
    let o = first_active_offset(players, start, offset);
    if o >= n && rules.repeat_passes && !pass_ends_round(players) {
        lemma_active_count_positive(players, n);
        let j = choose|j: int| 0 <= j < n && players[j].is_active;
        lemma_every_seat_reached(start, n, j);
        let o2 = choose|o2: int| 0 <= o2 < n && seat_at(start, o2, n) == j;
        assert(first_active_offset(players, start, 0) <= o2);
        lemma_seat_in_range(start, first_active_offset(players, start, 0), n);
    }
    if o < n {
        lemma_seat_in_range(start, o, n);
    }
}

} // verus!
