# compiler-frontend

Parts of the frontend of a PureScript compiler, written in Rust and verified with
Verus. Every function of the library states what it returns or changes, and Verus
proves it.

## The library (`src/`)

- `indexing`: the items of a module, their exports and imports, the pairs between
  items and their sources, and the errors of declarations that repeat each other.
- `documenting`: the doc comments of declarations.
- `diagnostics`: diagnostics as text, with or without colour, and as positions for
  editors.
- `checking`: the state of the type checker and the elaborated tree.
  - `types`, `evidence`, `tree`, `state`: the data, with its models.
  - `terms`, `operator`: applications, equations, guards, blocks and operators. What
    needs the rest of the checker (unification, kinds, the expressions below) is asked
    for in steps: a function tells what to do next, and another one takes the answer
    (`terms/binary`, `terms/blocks`, `terms/form_steps`, `operator_steps`).
  - `type_items`, `term_items`, `groups`: declarations, taken through their steps by
    `type_steps` and `term_steps`; `order`: the order in which they are checked.
  - `derive`: derived instances. The bodies of members are plans, lists of steps that
    `derive::replay` takes one after the other.
  - `pretty`: prints a checked module. What types look like is asked of another
    printer; the layout refers to its answers.
- `collections`, `text`: what the library uses of other crates and of the standard
  library, with the contracts that are believed without proof.

Laws that relate several functions stand as public proof functions next to them
(`indexing/laws.rs`, `indexing/lookups.rs`, `diagnostics/laws.rs`,
`checking/pretty/laws.rs`, `checking/pretty/requests.rs`, `checking/derive/replay.rs`,
`checking/terms/blocks.rs` and others).

## Around it

- `app/`: the loops that drive the steps, the conversions to the types of editors, and
  the traits through which the rest of the checker is reached.
- `tests/`: tests of the library on concrete values.
