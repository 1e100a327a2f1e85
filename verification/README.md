# hird_check

The checking logic of the Hirð compiler front end that does not depend on
type inference, written in Verus with its behaviour stated in `requires` /
`ensures` contracts and proved.

* `syntax`, `select`, `ast` — the concrete syntax tree (kinds, tokens, byte
  ranges), its mathematical view, and the typed AST projection over it.
* `names` — module names, node keys and spans, tool function naming.
* `namespaces`, `registry`, `env`, `headers` — what the checker records
  about declarations: first definitions per namespace, declared types,
  constructors and effects, and the scoped value environment.
* `bodies`, `actors`, `supervisors` — the closed member and field sets of
  actor and supervisor declarations, handler coverage, child specs.
* `checker`, `graph`, `exhaustive` — the reference graph and its strongly
  connected components, wire representability, match usefulness.
* `program` — import resolution and the module graph of a program.
* `wire`, `replay` — the audit-log wire format, its decoder, and replay.
* `bench` — text helpers of the benchmark harness.

`app/` holds the parts that do I/O or floating point (the benchmark's
process spawning, timing, and reporting). `tests/` exercises the library
on concrete inputs.
