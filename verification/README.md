# jeff-control

The core of a control plane for task graphs, verified with Verus.

A daemon watches registered projects, runs each project's snapshot command
when its `.jeff` directory changes, keeps the last good snapshot, and serves it
to clients over a private Unix socket: one JSON document per line. A client
turns a snapshot into a graph, lays it out and moves a selection through it.

- `src/` is the library: the rules, the state and the documents. Every function
  states what it does in its contract.
  - `project`, `project_json`, `envelope`, `wire`: the documents and how they
    are read and written.
  - `config`, `files`, `lifecycle`, `registry`: settings, file checks, starting
    and stopping, and the project registry.
  - `framing`, `limits`, `protocol`: lines, limits, and the ledger of what is in
    use.
  - `snapshot`, `state`, `tracking`: the snapshot command, what is kept of its
    output, and when it runs.
  - `server`: the daemon's state and what each event makes of it. `server/model`
    gives the state as a value; the other modules step it and state what every
    step keeps.
  - `topology`, `graph_store`, `graph_laws`, `layout`, `viewport`: the graph of a
    snapshot.
- `app/` is the program round it: sockets, processes, threads, file watching,
  reading the registry file into records, the command line, and the drawing,
  which is in floating point.
- `tests/` runs the library with the crates that it calls.

The library calls `serde_json` and `petgraph`. What it takes from them on trust
stands in `json` and `graph_store`; `snapshot` trusts two decoders of the
standard library.
