# poker_server

The rules engine of a heads-up No Limit Texas Hold'em server, written in
Verus: every function in `src/` carries a contract that Verus proves.

- `models/` — cards and the deck, players, tables, the game state and the
  protocol's message shapes.
- `game_logic/` — the hand evaluator (best five of seven cards), the dealer
  (new hands, blinds, hole cards, streets with burn cards) and the betting
  rules (validation, effects, round completion, offered actions).
- `config.rs` — defaults, reading settings from the environment's values,
  and the consistency rules of a configuration.
- `password_policy.rs`, `accounts.rs` — the account rules: usernames,
  passwords, Argon2 hashing and the checks on stored player rows.
- `text.rs` — decimal text of integers, both ways.

`app/` is the program around the library: environment, logging, the SQLite
database through `sqlx`, and the JSON forms of the messages through `serde`.
