# zsp

ZSP ("ZSP is Superior to Python") is a small dynamically typed language with
functions, variables, objects, arrays, `for` and `loop` loops, lambdas and
native libraries. This crate is its implementation, written in Verus: the
library under `src/` states what each part computes and is proved to do so.

## Layout

- `src/script.rs` — the line-oriented script interpreter (`let`-free
  assignments, `print`, arithmetic on integers, `if` blocks), with the exact
  lines it prints for a program.
- `src/interpreter/` — the tokenizer of the block language, its integer
  values and operators, and its error reports.
- Errors: where the language raises an exception or panics (which prints a
  report and ends the program), the library returns an error value and the
  program in `app/` prints the report and stops.
- `src/parser/` — the block parser: library loads, function definitions,
  statements and expressions, stated as spec functions over token sequences
  (`rules.rs`, `program.rs`) that the recursive routines (`parse.rs`) meet
  exactly; `laws.rs` holds properties such as how blocks scope variables.
- `src/runtime/` — the walk over statements of the block interpreter: a
  stack of scopes that advances one step at a time and asks its caller to
  evaluate expressions; `laws.rs` states the stack discipline, `break`, and
  how variables are read back; `reference.rs` decides each step of following
  a reference such as `a[i].f`, and what an assignment adds on the way;
  `table.rs` decides which function a name calls (the program's own over
  the libraries' over the builtins).
- `src/builtins.rs` — the string methods of the block interpreter.
- `src/library.rs`, `src/native.rs` — native library manifests and the values
  passed to native code.
- `src/exceptions.rs`, `src/text.rs`, `src/numbers.rs` — error positions and
  reports, text and integer helpers.
- `app/` — the command-line program: file access, native libraries, printing,
  and the evaluation of block-language values, which use single-precision
  floats.

## Running

`zsp FILE` runs a script; `zsp --block FILE` runs a block-language program;
`zsp --manifest FILE` reads a library manifest.
