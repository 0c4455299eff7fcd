# cosette

Verified core of a SQL query equivalence prover based on the U-semiring
formalism.

- `src/evaluate/shared.rs`: evaluation environments (`Env`, `Entry`), scalar
  expressions and predicates with their mathematical models, schemas and data
  types; the lookup and renaming functions are proved against the models.
- `src/pipeline/syntax.rs`: U-expressions, their smart constructors
  (`+` drops zero, `*` drops one), copies, and their rendering as text.
- `src/pipeline/unify.rs`: the decision skeletons used to compare normalized
  terms (pointwise and greedy bag unification, related pairs, permutation
  equivalence of scopes, relation and scoped-term unification) and the text that is handed to the external SMT
  solver, with the reading of its answer.
- `src/pipeline/vector.rs`: the persistent vectors of `imbl`, held opaquely
  behind specified wrappers.
- `app/`: the external solver process and the serializable forms of the
  environment types.

Not here: the passes that evaluate a query into normal form and stabilize it
(`evaluate`), the solver-backed unification of two normalized relations
(`unify`, `UnifyEnv`) and the translation of terms into solver formulas. They
rest on the normal-form, partial-evaluation and solver-context modules, which
this source tree does not hold; the decision skeletons above take the
solver's answers as closures instead. For the same reason the `Unify` trait
has no implementor here, and predicates and expressions are rendered by
their `Debug` form.
