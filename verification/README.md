# kestrel-execution-graph-lowering

The lowering context of the Kestrel compiler's pass from the semantic tree to the
execution graph (MIR), written in Verus with its behaviour stated in contracts
and proved.

The library holds the state of the pass (current function and block, loops,
lexical scopes with the deinit status of their locals, statement temporaries,
counters, diagnostics) and the code that emits MIR from it:

- `mir` — the execution graph being built: interned names and types, functions,
  basic blocks, statements, terminators.
- `context` — the lowering context: statement and terminator emission, locals,
  blocks, loops, scopes, deinit statuses, deinit flags, branch merging, calls.
- `deinit` — which types need deinit and the drop code emitted for a place, at a
  scope's exit, before a return and before a `break`/`continue`. The emitted code
  is specified by a model over the blocks, the current block and the names.
- `name` — qualified names of symbols, type mangling, initializer suffixes,
  names of deinit functions and of closure and bound-method functions.
- `sem` — the parts of the semantic tree that lowering reads, as plain values.
- `error` — lowering errors and the diagnostics they become.
- `match_lowering` — access paths and pattern bindings, and the switch code of
  match lowering: integer and string case tests, two-way branches, enum variant
  switches, the end of a matched arm, and the choice of switch by type.
- `let_pattern` — the decision tree of the last condition of an `if let` or
  `while let` chain, specified by a model of the emitted blocks, locals and
  bindings.
- `call_args` — how a call's arguments are passed (by reference, mutable
  reference, copy, move or clone) and the reference and clone code they need,
  specified by a model of the emitted locals, statements, names and diagnostics.
- `primitive` — calls of primitive methods (operators, string length and
  emptiness, integer absolute value and text) as MIR operations on the lowered
  receiver and argument.
- `format_options` — the fields of the `FormatOptions` value for a format
  specification of a string interpolation.
- `if_join` — the start of an `if` (result temporary, join, else and then
  blocks, status snapshot), the value and end of each branch, and the join: the
  branch merge, the deinit flags and drops at the end of each branch that falls
  through, the jumps to the join block.
- `thunk_cache` — the thunks made for function and witness references, found
  again by every later reference.
- `interpolation` — interpolated strings through `DefaultStringInterpolation`:
  the capacity hints, the instance and its initialization, each literal and
  interpolated part, and the built string.
- `closure_locals` — the locals that closures declare inside a function body.
- `expr`, `closure`, `bound_method`, `item`, `module` — argument passing, cast
  kinds, inference of method type parameters from argument types, closure
  parameters and thick callables, item dispatch, the static
  fields and the static initializer function, its call in `main`, and error
  summaries.
- `mir_assert` — expectations on printed MIR.
- `laws` — facts relating the operations (status writes and reads, snapshots
  and their restoration, loop lookup, name interning, counter-based names,
  branch-merge flags, the order of deinits at scope exit).
- `table` — a small insertion-ordered map with unique keys.

`tests/` exercises the library on concrete values.
