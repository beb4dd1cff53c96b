# br-llm-graph

A graph runner for language-model agents: nodes read a typed state and ask
for updates, edges choose where the run goes next, and runs advance in
supersteps that can be paused, resumed, cancelled and saved.

The library under `src/` is written in Verus. Its functions carry contracts,
and Verus proves them:

- `ident`, `keymap`: validated identifiers and the sorted map the state is
  kept in.
- `state`: kinds, schemas, values, the state and the config, and batches of
  updates, applied all or nothing.
- `graph`: nodes, edges, maps over lists, and the builder that validates a
  graph.
- `run`: the decisions of a superstep: which nodes run, how their results
  settle into the state in declaration order, where the edges lead, which
  nodes run next, and how a run ends.
- `session`: what a served session does with each message and each run.
- `react`: the prompt and tool bookkeeping of a model loop.
- `laws`: properties that span several functions, proved once.

`app/` holds the asynchronous side: the runner that awaits nodes and the
inbox, sessions, model and tool nodes over the conversation crate, observers,
and the serde forms of the library's values. `tests/` exercises the library.
