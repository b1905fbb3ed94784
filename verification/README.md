# windy

Windy is a two-dimensional esoteric language: instruction pointers drift
across an unbounded grid of arbitrary-precision integers in eight wind
directions, split, turn at random, and halt.

This crate is the language's library, written in Verus. Every function under
`src/` carries a `requires`/`ensures` contract that Verus proves:

- `value`: unbounded integers (arithmetic through `num-bigint`).
- `grid`, `opcodes`, `parser`, `input`: the sparse grid, glyph decoding,
  source normalization and layout, and reading program input from bytes.
- `machine`, `vm`: one instruction pointer's turn, ticks in birth order, runs
  with a step budget, seeded turbulence (`rand_chacha`).
- `session`, `render`, `debugger`, `easter`: the stepper, the debugger's
  panels and decisions, and the signature banner.

The contracts are stated over spec functions (`exec_op`, `ip_turn`, `tick`,
`run_of`, `layout`, `normalize_spec`, ...), and the laws of the language
(read-after-write on the grid, determinism of seeded runs, one warning per
unknown glyph, and others) are public proof functions.

`app/` holds the command-line program (`windy run`, `windy debug`,
`windy version`) and the browser bindings; `tests/` holds the tests.
