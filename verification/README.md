# gambito

Terminal chess: rules, move generation and notation, a game record with
undo and draw detection, the input logic of a terminal front-end, and a
random opponent, as a Verus-verified library.

- `src/` — the library. Positions are modelled as a sequence of 64 squares
  (`position::Model`); move generation (`movegen`) is specified move by move,
  in generation order; FEN, SAN and long algebraic notation are specified as
  texts; `legality` proves that legal moves keep a position playable;
  `screen` and `ui` hold the decisions of the game and menu screens.
- `tests/` — the test suite, including node counts of standard perft
  positions.
- `app/` — the program: command line, terminal drawing and events, and the
  floating-point search and network evaluation.
