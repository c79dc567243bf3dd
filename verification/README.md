# fimbulfamb

The logic of a party game server in which players take turns, are shown a
word, submit definitions for it and are given scores. The library is written
in Verus: each public function carries a contract, and Verus proves the code
against it.

- `src/game.rs`: the state of one game (players, turns, the shuffled word
  pool, submitted definitions) and the invariant `Game::wf` that every
  operation keeps: there is a player, the owner comes first, names are
  distinct, and the turn and the current word point into their lists.
- `src/server.rs`: what the server decides for each request on a game, the
  messages it sends to the game's clients, and the laws about leaving a game.
- `src/utils.rs`, `src/lib.rs`: reading the word list from its lines, and game
  codes. `src/text.rs`: splitting at tabs, trimming, writing numbers.
- `app/`: the HTTP and WebSocket server around the library (rocket), file
  reading, the clock, and the serde forms of the library's types.
