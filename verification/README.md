# Rust Loop Vectorizer

A small, correctness-first loop vectorizer for LLVM IR. Loop recognition,
dependence tests, planning and lowering are decided on a plain snapshot of a
function, and are verified with Verus.

## Layout

- `src/` is the verified library.
  - `ir` is the snapshot of a function; `recognize`, `shape`, `memory`, `body`,
    `operations` and `widening` are the legality checks on it, `dependence` and
    `cost` the arithmetic behind them, and `analysis` puts them in order.
  - `lowering` turns an accepted loop into a `recipe`: the instructions of a
    dispatch block, a vector body and its exit.
  - `semantics`, `execution` and `equivalence` say what a loop and its rewrite do
    when they run. The theorem `law_rewrite_preserves_memory` states that both
    leave the same memory.
  - `report` words diagnostics; `command_line`, `driver` and `host` are the
    decisions of the command-line driver; `field`, `session`, `session_laws` and
    `screen` those of the terminal interface; `text` holds text primitives.
- `app/` is ordinary Rust around it: the driver's processes and files, the
  terminal, and the LLVM pass plugin, which takes the snapshots and emits the
  recipes.
- `tests/` runs the library.

A loop that cannot be proved legal stays scalar, with the reason.
