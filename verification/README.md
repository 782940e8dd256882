# gomoku

A Gomoku (Ninuki rules: captures, forbidden double threes, breakable fives) engine whose
rules, heuristics and search bots are verified with Verus.

- `src/` is the verified library: the board and game state (`game`), the evaluation
  functions (`heuristics`), the search bots (`bots`, `algorithms`), players and their
  command-line names (`player`, `args`), and small trusted wrappers around the clock, the
  random generator and the hash map used as a transposition table (`clock`, `random`,
  `bots::cache`).
- `app/` is the program around it: argument parsing, reading coefficient files, the thread
  pool and the arena that plays matches between players, and the Monte-Carlo tree search
  players, which work with floating point.
- `tests/` holds the tests of the library.

The main facts proved: undoing a move restores the game exactly, every move keeps the game
well formed (the distance sums, the stone count, and the counters of stones within distance 2
of each cell), the legal moves are moves the game accepts, the heuristics stay within a bound,
the hand-written heuristic changes sign when the colors are swapped, the coefficient
heuristic is linear in its coefficients, negamax agrees with minimax (and chooses the same move) on searches that reach no finished
position, the iterative-deepening bots play the move their last search in time records for
the orders in which it tried the moves (and, with a transposition table, the answers the
table gave), and the alpha-beta searches return the minimax value whenever it falls
inside their window (and a bound of it on the side it fell on otherwise).
