# arbiter

A multi-agent framework whose core is verified with Verus.

`src/` is the verified library:

- `protocol` — identifiers, envelope metadata, handshake frames and the negotiation a broker
  applies to a hello (protocol version, then the first shared codec);
- `broker` — the broker's routing state: connected nodes, agent routes, groups, drop counters,
  and the decision taken on every frame a node sends;
- `routing` — the in-memory network's routing table;
- `lifecycle` — how an actor's loop answers control signals and handled messages;
- `supervision` — restart policies and the bookkeeping that applies them;
- `agent`, `runtime`, `letter` — the synchronous agent model: a container that takes an agent
  through its lifecycle, and a single-threaded runtime that routes replies down a pipeline of
  agents;
- `observe`, `replay`, `time`, `clock`, `ids`, `handler`, `messager` — events, replay logs,
  durations and timers, timestamps, identifiers and the traits applications implement.

`tests/` exercises the library. `app/` holds what Verus does not check: Tokio tasks, sockets,
channels, files, serialization, and the loops that feed events to the library's decisions.

Not part of this crate: the Ethereum middleware (built on `revm` and `ethers`, which this
project does not depend on), the `World` and `Fabric` designs, the networked `Agent` loop and
the WebAssembly bindings.
