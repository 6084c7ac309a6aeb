# minisqlite_plan

A query planner for a small SQL engine, verified with Verus.

The planner turns a statement whose names are resolved into a plan: a tree of operators over
scans, with the side tables that the tree names by position. Each compiler states in its
contract the plan it gives and, where several parts of a statement are wrong, which error it
reports.

What binding a name, parsing stored schema text or choosing an access path gave comes to the
planner as a `Result` inside the statement's types, so that every contract speaks of every
outcome of it.

* `src/plan.rs`, `src/window.rs`, `src/access.rs`, `src/expr.rs`: the vocabulary of plans.
* `src/copies.rs`: copies of plans.
* `src/plan_ctx.rs`: the state of planning one statement: its subqueries, its materialized
  bodies and the numbers of its parameters, with savepoints.
* `src/compile/`: the statement compilers, one module per statement or clause.
* `src/compile/order_law.rs`, `minmax_law.rs`, `width_law.rs`: what the plans mean. A scan that
  replaces a sort emits the sorted rows, a seek finds what the aggregate computes, and the rows
  of a plan have one value for each result column.
* `src/compile/binding.rs`: the order in which clauses are bound, which numbers parameters.
* `src/compile/notes.rs`: the notes that a compiled plan and the actions of its triggers get.
* `src/query_planner.rs`: the route from a statement to its plan.
* `app/`: the loop that binds a subquery once or twice, and the views that a thread is
  expanding.
* `tests/`: the planner on concrete statements.
