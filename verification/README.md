# lc0_binpack

Converts Leela Chess Zero V6 training records into Stockfish binpack
training entries, optionally correcting game results with Syzygy endgame
tablebases.

The library under `src/` is verified with Verus:

- `record` decodes the fixed 8356-byte record layout (little-endian fields;
  search values kept as raw IEEE-754 bits).
- `fen` rebuilds a standard FEN from the input planes: bit order, board
  orientation, phantom en-passant pawns, castling rights checked against
  the king and rook squares.
- `moves` is the lc0 policy move table, given by the rule that orders it.
- `binpack` turns records into entries (move mirroring, move encoding,
  standard-chess legality through shakmaty), buffers a game, and propagates
  the first tablebase hit through it; the laws of propagation are stated
  and proved there.
- `syzygy` loads tablebases and probes positions; `args`, `scan`, `stats`
  and `progress` hold the command-line options and the decisions and
  counters of a run.
- `bindings` declares the outside types and the trusted wrappers around
  sfbinpack, shakmaty, shakmaty-syzygy and std.

`app/` is the command-line program: file and directory reading (with gzip
through flate2), the binpack output file, printing, and the floating-point
parts (centipawn conversion, averages, policy statistics).
