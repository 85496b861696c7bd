# switchboard

A pub/sub message broker with a binary wire protocol, broadcast and
consumer-group delivery, wildcard topic patterns, a shared-memory ring
transport, dataflow graphs whose edges are topics, and a client adapter for
LLM runtimes.

The decisions are a Verus-verified library (`src/`):

- `protocol` — frame parser and encoders, with round-trip laws;
- `connection` — admitting stream frames and WebSocket messages, framing
  deliveries;
- `state` — connection and message state machines;
- `router` — topic registry, consumer groups and round-robin dispatch;
- `trie_router`, `segments` — wildcard pattern trie;
- `transport` — shared-memory ring buffers and their subscribers;
- `flow` — graph building, node wiring, fan-in buffers, output routing,
  YAML graph validation;
- `runtime` — runtime configuration and lifecycle;
- `llm` — the LLM adapter's topics and frames;
- `cli`, `bench` — command lines of the broker and of the benchmark.

`app/` is the executable around it: sockets, tokio tasks and channels,
WebSocket, Prometheus metrics, YAML (de)serialisation and files. `tests/`
exercises the library.
