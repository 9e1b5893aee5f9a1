//! Game logic of a multiplayer poker server: cards and decks, the dealer,
//! players, hand evaluation, the rules of each game variant and the
//! bookkeeping of a game room, all verified with Verus.

pub mod card;
pub mod hand_evaluator;
pub mod player;
pub mod dealer;
pub mod showdown;
pub mod game_state;
pub mod betting;
pub mod game_variants;
pub mod session;
pub mod framing;
pub mod client;
pub mod protocol;
