# chess_engine

A chess game with a computer opponent, verified with Verus.

The library (`src/`) holds the rules and the engine:

- `pieces` – colors, piece kinds, values and symbols.
- `geometry` – squares, knight and king jumps, line directions.
- `board` – the board, attack detection, making and undoing moves.
- `moves` – move generation (pseudo-legal and legal), checkmate,
  stalemate and the draw rules.
- `evaluation` – material, piece-square tables and mobility.
- `bot` – negamax search with alpha-beta pruning, quiescence search and
  move ordering.
- `timer` – chess clocks and their display.
- `gui` – the game flow: modes, selection, promotion, the bot's turn and
  the end of a game.
- `legality` – laws of legal play from the starting position.

Each public function states what it returns or changes over a
mathematical model of the position (`Position`), and the laws that tie
the functions together are proof functions: undoing a move restores the
position, generated moves keep the board consistent, legal moves never
leave the king in check, the search's answer is the negamax value held to
its window, the bot plays a move of best value, the evaluation is the same
for both colors seen in a mirror and a mate outranks it, whether a square
is attacked does not depend on what stands on it, the king cache follows
the kings in every position reached by legal play, and drawing the board
and reading a click back agree.

`app/` is the window (eframe/egui): drawing, animation and input around
the library. `tests/` runs the library on concrete positions.
