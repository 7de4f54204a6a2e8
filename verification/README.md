# data-studio-agent

The decision logic of an LLM agent loop for a data studio, verified with
Verus: MCP permission policies, context-compaction planning, the projection
of stored conversation rows into the messages sent to the model, the
streamed-reply decoder and accumulator, and the loop's budgets, retries,
runaway guard and tool-call gate.

Layout:

- `src/` — the verified library. Each public function states what it returns
  over spec functions and views; the laws of the library are public proof
  functions (`lemma_*`) next to the functions they speak of.
  - `capabilities/` — risk levels, source kinds, MCP permission modes and
    per-connection policies.
  - `compact.rs`, `model.rs` — compaction thresholds and split planning.
  - `conversation.rs` — when to compact, boundary rows, in-flight registry.
  - `projection.rs`, `payloads.rs` — stored rows to LLM messages and the JSON
    payloads stored as message content.
  - `stream.rs` — server-sent-event framing and reply accumulation.
  - `agent_loop.rs` — the agent loop as a state machine: each event gives
    the next state and the one action to perform, with its laws (request
    cap, runaway stop, only confirmed calls executed).
  - `providers.rs` — the compaction summary and the Anthropic request body
    and text deltas.
  - `loop_control.rs` — error classification, retries, budgets, runaway
    guard, parse failures, tool-call gate, execution batches, messages.
  - `harness.rs` — removing an API key from error text.
  - `json.rs`, `text.rs` — a plain JSON model (parsing through `serde_json`)
    and character-level string helpers.
- `tests/` — tests of the library.
- `app/` — the I/O around it: the loop driver, compaction runs, SQLite
  storage, HTTP requests, events, channels, clocks and ids, and serde forms
  of the library's types.
