# merge_binder

Binding of the SQL `MERGE` statement, verified with Verus.

The library takes a parsed statement and turns it into a bound one. It does not bind names,
relations or expressions itself: it says which one is to be bound next, and takes what came of it.
`binder::MergeBinding` is that conversation. `binder::progress` is its meaning: for a statement and
the answers so far, the next request, the error, or the bound statement.

- `src/` is the library. Start with `binder.rs` and `plan.rs`; `laws.rs` states what follows for
  every statement.
- `app/` runs the conversation against a binder of relations and expressions.
- `tests/` runs it against a small one.
