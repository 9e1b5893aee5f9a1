# rust_poker

The game logic of a multiplayer poker server, written in Verus and verified.

- `src/` — the verified library: cards and decks (`card`), the dealer
  (`dealer`), players (`player`), hand evaluation (`hand_evaluator`),
  showdowns and tie-breaks (`showdown`), betting rounds (`betting`), the
  state sent to clients (`game_state`), the rules of each variant
  (`game_variants`: Texas hold 'em, seven-card stud, five-card draw, razz),
  the bookkeeping of a game room (`session`), splitting incoming text into
  messages (`framing`), the requests a client sends and how the server
  answers them (`protocol`), and what a client keeps of the server's
  messages, which cards it shows and how it takes a bet amount (`client`).
  Calls into `rand`, `itertools` and `serde_json` go through small trusted
  wrappers whose contracts are stated next to them.
- `app/` — the TCP server around the library: sockets, threads, the
  SQLite account store, JSON, and the loops that ask players for their
  moves and hand them to the library (hold 'em over the network; stud,
  draw and razz at the console). Run with `client` as its first argument,
  it opens the macroquad client instead: login, menu and game screens, and
  the connection that feeds the server's lines to the library.
- `tests/` — tests of the library, run against the compiled crate.
