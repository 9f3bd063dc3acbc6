# qedgen

The core of a verification generator for Solana programs, written in Rust and
proved with Verus.

- `parsed`, `mir`, `lower`: a parsed spec, the intermediate representation, and
  the lowering from one to the other.
- `lean_gen_mir`, `lean/`: the `Spec.lean` file of a spec, for every shape of
  state.
- `sidecars`, `lakefile`: the axiom modules, the imports and the lakefile that go
  with it.
- `proptest_gen_mir`: the harness of a spec, as a job to be carried out.
- `verify`, `verify/`: which backends run, what their outcomes are reported as,
  and what the report looks like.
- `pinocchio_profile`, `pinocchio_profile/`: the proof profile of a Pinocchio
  program, read from its source and its ABI schemas.
- `text`, `search`, `split`, `number`, `names`, `pattern`: texts, searches,
  numbers, ordered maps by name and regular expressions.
- `outside`, `pinocchio_profile/syntax`: what is taken from the `regex` and `syn`
  crates and from Unicode's tables.

Every function states in its contract what it returns, as a text or a value built
from its arguments. Properties that hold across functions are public proof
functions beside the functions that they speak of.

`app/` holds what touches files, processes and the terminal. `tests/` runs the
library on concrete inputs.
