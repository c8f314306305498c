# Lumber

Lumber is a logic programming language meant to be embedded in Rust programs. This crate
holds its core, verified with Verus: every function in `src/` carries a contract, and the
laws stated for it are proved as proof functions beside the code they speak of (each says
on which inputs it holds).

## Layout

- `src/atom.rs`, `src/scope.rs`, `src/arity.rs`, `src/handle.rs`: atoms, scopes (paths to
  modules and predicates, ordered by enclosure), arities and handles.
- `src/identifier.rs`, `src/variable.rs`, `src/literal.rs`, `src/pattern.rs`: the patterns
  that rules are made of, with their variables and their structural equality.
- `src/matching.rs`: unifying a template (whose variables have no value or a complete
  value) with a complete value, and what both sides apply to afterwards.
- `src/joining.rs`: unifying two templates whose variables have no value, none twice and
  none on both sides, and what both sides apply to afterwards.
- `src/binding.rs`, `src/unify.rs`, `src/apply.rs`, `src/unify_laws.rs`: bindings of
  variables to patterns, unification of two patterns under a binding, the application of a
  binding to a pattern, and the laws of unification.
- `src/handle_set.rs`, `src/module_header.rs`, `src/resolution.rs`, `src/header_errors.rs`,
  `src/context.rs`: the module system: what a module declares, exports and imports; how a
  handle seen from a scope resolves to a predicate; the checks made on every module header;
  and the state kept while a program is compiled.
- `src/database.rs`: the definitions of a compiled program keyed by handle, with aliases,
  native functions, public and mutable entries.
- `src/evaluate.rs`: the rules of a program (clauses, bodies of `;`, `,` and `->` with
  `->>` tails, terms with infix operators and list aggregation) and the answers that a
  query, a body or a term has under them, clause by clause, with the cut of `once` rules.
- `src/limits.rs`: asking for fewer answers gives the first of those that a greater ask
  gives.
- `src/module.rs`: compiling the directives and clauses of a module.
- `src/operation.rs`: operator precedence: the term that operands joined by infix
  operators stand for.
- `src/text.rs`, `src/value.rs`: the textual form of patterns, and the patterns that the
  host's values stand for.
- `tests/`: tests of the library on concrete values.
- `app/`: the host side: native functions bound by a program, the conversion of Rust
  values into Lumber values through serde, and the textual forms of the library's values.

Each recursive search is given a bound on its depth so that it always ends. Application
of a binding and evaluation report running out of it as an error of their own;
unification reports it as a failure to unify. Resolution follows the aliases of a
database for one step more than it has entries, and searches the module headers for one
step more than the number of states such a search can be in; so a chain of aliases, or a
search through aliases and glob imports, runs out only when it comes back to where it has
been. Evaluation asks for a number of answers: a query gives its first answers only, so
that a predicate with endless answers can still give its first ones, and a step whose
later answers are never used does not compute them. A native predicate is answered from
what the host's function gave for the same arguments, which the host supplies when
evaluation asks for it.
