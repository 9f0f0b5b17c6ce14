# graphkit

A verified library for graph databases, in three parts.

- `graph`: algorithms on graphs. Distances, components, cuts, cores, cliques, colorings, orders,
  centrality measures, communities, link prediction, random walks.
- `planner`: query plans. Plans from queries, rewriting rules, estimates, physical plans, plans as
  nodes of an e-graph, a cache, and the text that explains a plan.
- `procedure`: the interface through which procedures see a database. Values, lists, maps, paths,
  points, dates and durations, graphs and their indices, streams, modules, memory.

Floating point has no place in the proofs. A number that comes out as a double is a `Quantity`: a term
over counts, constants and bit patterns. The caller hands in the functions that compare quantities and
that read them, and `app/numbers.rs` has those of the machine.

`src/` is the library, `tests/` its tests. `app/` is what stands around it: doubles, the clock, the
machine's memory, shared libraries, the storage, equality saturation, and the interface in C.
