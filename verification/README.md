# extended_einsum

Compile-time einsum expressions for `ndarray`, as a verified library.

`ein! { a[D1, D2] * b[D2, D3] + c[D3] ~ [D1, D3] }` expands into loops that
read the lengths of the axes from the arrays, check that every axis has one
length, allocate the result and fill it, summing each product over its axes
that are not output axes.

Layout:

- `src/tokens.rs`: token trees and their mathematical view.
- `src/grammar.rs`: the grammar of einsum expressions as spec functions.
- `src/parse.rs`: the syntax tree and the parser, proved to follow the grammar.
- `src/expand_spec.rs`: the code that expansion writes, as spec functions.
- `src/expand.rs`: the expansion, proved to write that code.
- `src/text.rs`: the names and literals that expansion writes.
- `src/outside.rs`: the calls into std, syn and itertools, with their trusted contracts.
- `src/laws.rs`: laws of parsing and expansion, with their proofs.
- `src/scope.rs`: the identifiers that the code of a node uses.
- `src/free.rs`: the free identifiers of that code, those no loop binds.
- `app/lib.rs`: conversion between `proc_macro2` streams and token trees, the
  `ein` entry point and the `block_mat!` macro.
