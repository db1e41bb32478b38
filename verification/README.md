# yonder

The rules engine of Yonder, a simultaneous card-drafting game for 1 to 6
players, with its contracts proved by Verus.

- `src/cards.rs`: the region and sanctuary cards, and the shuffled decks.
- `src/scoring.rs`: right-to-left scoring of a tableau, card by card, with
  the explanation shown for each card.
- `src/game.rs`, `src/game_spec.rs`: a game room as a state machine (joining,
  the advanced setup, playing, sanctuaries dealt during the draft, the end of
  rounds and of the game) and the snapshot each player is sent; the
  `_spec` file holds the mathematical model the contracts are written over.
- `src/faraway.rs`, `src/faraway_spec.rs`: the classic variant, where all
  qualifying players choose their sanctuary before the draft starts.
- `src/records.rs`: placements, leaderboard ranks, win streaks, favourite
  cards, and the lobby's room codes and listings.
- `src/laws.rs`: laws relating several steps (draft order, refused actions
  changing nothing, seats that stay put, what each player is shown, the
  account of sanctuary cards, room to finish a game within 32-bit scores,
  placements and ranks, the end of the game).
- `src/text.rs`: decimal numbers and joined lists as text.
- `app/`: the web server around the library: WebSocket rooms, the lobby, the
  statistics pages and their SQLite storage, and the JSON shapes of the
  protocol.
- `tests/`: the rules tests, the scoring tests and tests of the rest of the
  library.
