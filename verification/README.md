# zb_trainer

A cubie-level 3x3x3 cube simulator that classifies last-layer algorithms
(ZBLL / ZBLS) by the case they solve, written in Verus.

Layout of `src/`:

- `model.rs` — the tables of a move or cube state as mathematical sequences,
  and what composing, inverting and applying them means.
- `faces.rs`, `moves.rs` — the face, slice and rotation tables, `FaceMove`
  composition and inverse, the `MoveSet` catalog and the closure of the
  whole-cube rotations.
- `cube.rs` — `CubeState`, applying moves, the F2L and edge-orientation checks.
- `parse.rs` — algorithm strings to fixed-frame face turns (big-cube
  notation anywhere rejects the algorithm; the net cube rotation is dropped).
- `normalize.rs`, `lex.rs` — AUF stripping, the canonical ZBLL/ZBLS
  fingerprints, and what becomes of one algorithm or one known case.
- `rotations.rs` — the 24 whole-cube rotations written out; the rotation
  search finds exactly these.
- `laws.rs`, `case_laws.rs`, `zbll_laws.rs`, `orientation.rs` — the laws of
  the move algebra, of parsing and of classification, and the orientation
  sums; `lemmas.rs`, `counting.rs` support the proofs.

`app/main.rs` reads scraped reconstructions (JSON), groups them by case and
prints a report.
