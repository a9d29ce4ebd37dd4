# flowlang

A small protocol language with linear resources, and its toolchain, verified
with Verus.

- `src/` is the verified library: lexer (`lexer`, `token`), parser (`parser`,
  `ast`), the checker of linear values, violation handling and contract
  structure (`checker`, `names`), constant evaluation (`consteval`), the
  bytecode compiler and VM steps (`bytecode`), and the native backend that
  emits x86-64 code for constant sums (`native`, `machine`).
- `acceptance` states, rule by rule, which programs the checker accepts, and
  proves that it accepts exactly those.
- `app/` is the command line: `check`, `compile`, `run` and `jit-run` on a
  source file. It reads the file, prints, runs the VM loop and executes the
  native code; the decisions are the library's.
- `tests/` runs the library on concrete programs.
