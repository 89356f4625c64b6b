# lean_kernel_rs

A verified model of the Rust half of a Lean 4 kernel: the operations on
universe levels and expressions that the Lean runtime calls through its C
interface, with contracts proved by Verus.

Lean levels and expressions are held as plain Rust values (`src/expr.rs`).
A sort carries two levels, `Sort u @ h`: the universe level and the
hierarchy level; equality compares both, metavariable instantiation
instantiates both, and type inference gives `Sort u @ h` the type
`Sort (u+1) @ h` and `forall x : A, B` (with `A : Sort u @ h`,
`B : Sort v @ k`) the type `Sort (imax u v) @ max h k`.
Names, metadata maps and literal values, which the kernel only compares, are
held by identifiers.  Lean heap objects themselves are modelled in
`src/object.rs` and `src/layout.rs`.

- `src/bvars.rs`, `src/instantiate.rs`: loose bound variables, lifting and
  lowering, instantiation and abstraction.
- `src/equality.rs`, `src/traverse.rs`, `src/expr_util.rs`: equality,
  search and rewriting, and queries on expressions.
- `src/data.rs`, `src/bitfield.rs`, `src/ptr.rs`, `src/lean_nat.rs`: the
  packed data words of levels and expressions, boxed scalars, small natural
  numbers.
- `src/mctx.rs`, `src/level_mvars.rs`, `src/expr_mvars.rs`,
  `src/mvar_spec.rs`, `src/mvar_laws.rs`: metavariable contexts and the
  instantiation of universe and expression metavariables, with what it
  guarantees.
- `src/acyclic.rs`, `src/mvar_check.rs`: deciding whether assignments form
  a cycle, and instantiation that checks its context first.
- `src/declaration.rs`, `src/environment.rs`, `src/local_ctx.rs`,
  `src/type_checker.rs`: views of declarations and the first steps of type
  inference.
- `src/runtime.rs`: string hashing, UTF-8 lengths, byte slices.

`app/` holds the C entry points: they read Lean heap objects into the
library's values, call the library and build Lean objects from its results.
