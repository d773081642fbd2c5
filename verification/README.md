# flyp

An interpreter for flyp, a small expression language in which everything is
an expression: `let` bindings, lists `<1; 2>`, objects `[name: "x"]`,
functions `fn(a) a`, `if`, `while` and chains `{a; b}`. The parser and the
evaluator are verified with Verus; the command-line front end is plain Rust.

## Layout

- `src/grammar.rs` — the grammar as spec functions from a text and a position
  to what is read there, the position after it, and the parser's complaints.
- `src/parser.rs` — the recursive-descent parser, proved equal to the grammar.
- `src/semantics.rs` — evaluation as a spec function of the interpreter's
  state, an expression and an amount of fuel.
- `src/runner.rs`, `src/modules.rs` — the evaluator and the built-in modules
  (`io`, `list`, `math`, `Obj`), proved equal to the semantics.
- `src/laws.rs` — properties that hold of every program: what a read gives
  back of a write, how `if`, `while`, chains and calls behave, that
  evaluation only ever adds to the state, and that more fuel changes nothing.
- `src/answers.rs` — evaluating again with more answers changes only what
  waited for them.
- `src/memory.rs` — no value ever names a string, list, object or function
  that does not exist.
- `src/ast.rs`, `src/value.rs`, `src/assoc.rs` — syntax trees, values, and the
  association lists that hold scopes and objects.
- `app/main.rs` — `flyp run FILE` and `flyp repl`.

## Numbers and files

The library holds numbers as the bits of IEEE-754 doubles and does no
floating-point arithmetic itself. When evaluation needs the value of a
literal, a sum, an index or the text of a number, or the contents of a file
to import, it stops with a question (`Stop::NeedFloat`, `Stop::NeedFile`).
The front end answers it, adds the answer to the interpreter's table
(`Runner::floats`, `Runner::files`) and evaluates again from the start;
evaluation is deterministic and only appends to its output, so the front
end prints only the lines it has not printed yet. Fuel bounds
the depth of evaluation and the turns of loops; when it runs out, the front
end doubles it.

## Design notes

- Memory is a set of vectors indexed by id; scopes, globals and objects are
  association lists (`src/assoc.rs`): the first binding of a name is the one
  found, and binding a name again replaces its value in place. Their
  contracts are stated over sequences, which Verus reasons about directly,
  and the order of an object's fields, and so its printed text, is fixed.
- The built-in modules form a closed set (the `Module` and `NativeFunction`
  enums): Verus supports neither function-pointer types nor calls through
  trait objects whose behaviour it cannot see, so a module is added by
  extending these enums and `native_get`, not by registering a function at
  run time.
- There is no graphics module: windows, drawing and input events are I/O
  of an outside library and have no place in the verified core.
- A keyword (`let`, `fn`, `if`, `while`, `else`) counts as one only where
  no letter, digit or `_` follows it, so `fname` and `letter` are names.
- A list, object or function literal evaluates its items first and then
  takes the next free id in its store, so nested literals each get an id of
  their own and no literal replaces one made before it.
