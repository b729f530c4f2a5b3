# chessembly_bot

A move generator and search toolkit for chess variants whose pieces are
described in *chessembly*, a small language of movement instructions.

- `src/chessembly/` — the language (`behavior`: instructions and their text
  form), the board (`board`), the interpreter of scripts (`interp`), the
  built-in pieces (`moves`), move generation over a side, attacked squares,
  checks and the legality filter (`movegen`), the mathematical model all
  contracts are stated in (`semantics`), and properties that span several
  operations (`laws`).
- `src/engine.rs`, `src/engine/` — the interfaces a game offers to a
  search, board queries for evaluation (king square, pawn shield, passed
  pawns, attackers, static exchange evaluation) and the search tables
  (killer moves, history, transposition table) with the quiescence search.
- `src/protocol.rs` — the text formats of the move server: board layouts,
  side states and squares in request headers, the board written in answers,
  the legal moves of one piece and the application of a requested move.
- `app/` — the HTTP server around the library, and the negamax search,
  whose node scores are damped in floating point.

Every function under `src/` is verified with Verus against its contract,
except two trusted wrappers whose contracts are taken on the word of their
documentation: `char::is_alphabetic` (`src/chessembly/text.rs`) and
`urlencoding::decode` (`src/protocol.rs`).
`tests/` exercises the library on concrete positions.
