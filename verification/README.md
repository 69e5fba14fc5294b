# semantics

Static semantics of R programs, verified with Verus: what a syntax tree means,
which variable a name refers to, and what type an expression has.

An item passes through three stages.

1. `lowering::lower_item` turns a syntax tree into an arena of expressions. The
   model of the arena is in `arena`; `trees` shows that it is a tree.
2. `naming::resolve_item` resolves names against the writes that reach them.
   The model of the walk is in `walk`, `passes` holds what every pass keeps, and
   `flow` how the states of two paths meet.
3. `check::check_item` infers and checks types. `table`, `infer`, `unify` and
   `compatible` are the solver, and `agreement` holds what unification
   achieves; `checking` is the model of the checker's state,
   `inference` the model of inference over expressions, and `expressions` the
   code that follows it.

Around them stand `reading` (`#:` annotations, with their model in
`declarations`), `lints`, `metadata` and `description` (the `NAMESPACE` and
`DESCRIPTION` files of a package), and `numbers` (numeric literals).

Every contract equates a result with a function of the arguments over these
models. Laws that relate several functions are public proof functions beside the
models they speak of.

Hash maps and sets are those of `rustc_hash`; what the library takes for granted
of them stands in `fx`. The other functions taken on trust are the case
conversions of `char` in `casing`, and `push` in `text`.

`app/` holds the library's surroundings: syntax trees from `rowan`, settings read
with `serde`, and package metadata as a `salsa` input.
