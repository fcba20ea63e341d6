# Epsilon

A small UCI chess engine whose core is verified with Verus: the board and
its moves, the move generator, perft, the alpha-beta search with its
transposition table, FEN and UCI notation, the UCI command parser, and the
search for magic multipliers of rook attacks.

## Layout

- `src/` — the verified library.
  - `bits`, `types`, `tables`, `slider`: bitboards, the small value types,
    and the attack sets of every piece, each proved equal to its geometric
    definition.
  - `position`, `board`: the mathematical model of a position and the board
    that implements it (making and unmaking moves, attacks, evaluation,
    Zobrist hashing).
  - `movegen`, `tree`, `debug`: pseudo-legal move generation, the tree of
    legal moves, perft and divide.
  - `sound`: positions whose castling rights and en-passant square are
    backed by the board; from them, and from the starting position, the
    tree of legal moves can be walked to any depth without a panic.
  - `transposition_table`, `search`: the table and the negamax search with
    alpha-beta pruning, specified by a functional model of the search.
  - `text`, `fen`, `fen_law`, `uci`, `diagram`: FEN reading and writing,
    UCI moves, the command parser and text diagrams. For a position without
    an en-passant square, reading back what was written gives back every
    piece, the side to move and the castling rights, and the whole position
    when it is well formed. An en-passant square is written as `0` followed
    by the square's index, which reading does not accept.
  - `play`: setting up the position of a `position` command, playing a
    move given in UCI notation and taking a move back.
  - `session`: one step of a UCI session: a parsed command carried out on
    the board and the transposition table, with the reply to print.
  - `magic`, `rng`, `zobrist`: magic bitboards and the random numbers they
    and the Zobrist keys draw from `rand`.
- `app/` — the program: the UCI loop on standard input and output (it
  hands each command to the library's step and prints the reply), coloured
  board printing, timing, and the multi-threaded magic search (`epsilon
  magics`).
- `tests/` — tests of the library on concrete positions and commands.
