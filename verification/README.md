# poker_ai

Heads-up no-limit hold'em: abstract games, play against a remote server, and
re-solving, as a verified library.

- `src/games/`: Kuhn poker, push/fold, a small hold'em demo and the blueprint
  game with its raise cap, information keys and dense index.
- `src/play/`: the action-string protocol, cards, the tracker that maps real
  bets onto the abstract menu, the bot's decisions, policy files, luck
  accounting, equity run-outs and the HTTP exchange.
- `src/resolving/`: hand ranges, subgames, the opponent gadget and the public
  tree that vector CFR runs on.
- `app/`: what drives the library: the engine and card-abstraction interfaces,
  floating-point solving, files and the network.
- `tests/`: the library's tests.

The engine is not part of the library. Its states, menus and results are plain
values (`src/engine.rs`), and probabilities are stored by their bits.
