# vtable

Builders of path-tagged entries and the `symbol!` code generator, with their behaviour
stated in Verus contracts and proved.

Layout of `src/`:

- `hlist.rs`: lists as sequences: concatenation and reversal.
- `traits.rs`: left and right folds, `map`, `append`, `filter_by` and `as_child` over lists, with the laws
  that relate them (fold over a concatenation, `as_child` as a reordering of the prefixed
  entries).
- `path.rs`: paths as sequences of segment names: their name, debug and serialized texts,
  parents and the child relation.
- `builder.rs`: the entry trait, builders (`new`, `push`, `with`, `init`, `add`) and the size
  of a list of constants (the sum of their sizes).
- `primitives.rs`: constant entries.
- `folds.rs`: the fold steps and the layout of constant values (`instantiate`).
- `tokens.rs`, `syntax.rs`, `symbol.rs`, `interface.rs`: token trees, the calls into `syn`,
  the grammar and expansion of symbol and interface declarations, and the file check of
  `vtable`.

`app/` holds what needs `serde`, `serde_json`, standard output or `proc_macro2` values.
