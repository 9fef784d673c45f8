# num_ext

Decisions behind least-squares regressions and entropies on polars series: which rows and
columns enter a fit, how nulls are treated, which rows train and test in cross-validation,
which fit each row of a moving regression shows, and what the returned series hold. Each
function states what it returns, and Verus proves it.

- `src/` is the library. Tables are described by the spec functions of `views.rs`; the calls
  into polars stand in `tables.rs`, `expressions.rs` and `columns.rs`, with contracts that
  Verus takes as they are. Numbers are given by their 64 bits, and `ieee.rs` orders them.
- `app/` does the arithmetic: matrices, penalties and reports, generic over the solvers.
- `tests/` runs the library with polars.
