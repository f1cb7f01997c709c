# picilisp

A small Lisp interpreter whose core is verified with Verus: a garbage-collected heap of cells,
a reader, an evaluator with macros, traps and modules, a printer, and the native functions that
Lisp programs call.

## Layout

- `src/` — the verified library.
  - `memory.rs`: the heap model (cells, handles, ranks), allocation and garbage collection.
  - `modules.rs`: modules, definitions and exports.
  - `util.rs`, `text.rs`, `core_lists.rs`: lists, strings, numbers as text, tree folding.
  - `native/`: the native functions (`read`, `eval`, `print`, lists, numbers, globals,
    reflection, signals, equality) and the one-line step of the read-eval-print loop.
  - `parser.rs`, `highlight.rs`: parser combinators and parenthesis matching for editors.
  - `io.rs`, `debug.rs`: byte streams and the debugger connection between threads.
  - `window.rs`: what the graphical session shows, and how each message from the worker
    thread and the debugger changes it.
  - `laws.rs`: properties that relate several operations, proved once for all inputs.
- `tests/` — tests of the library on concrete values.
- `app/` — the command-line program: an interactive session, `--expression`, `--load`.

The prelude of Lisp definitions is read at start-up from the file named by
`PICILISP_PRELUDE`, or from `prelude.lisp` in the working directory.
