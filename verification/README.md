# cortiq-gateway

A universal LLM gateway with intelligent routing: clients speak OpenAI or
Anthropic wire formats (or MCP), the gateway asks cortiq-router for a task
label and complexity tier, picks a model from its pool, fails over along the
tier's list, and records statistics.

## Layout

- `src/` — the verified library (Verus). Configuration model and its
  validation, the routing table and registry, the pipeline's decisions (text
  to classify, route decision, candidate list, failover), SSE framing and
  stream translation, token tallies, request statistics, the promotion
  lifecycle of the self-warming loop, secrets lookup, admin-panel rules
  (config edits, routing healing, keys, tokens), the inbound protocol
  adapters' rules (switches, text flattening, `/route`, MCP dispatch), string
  ordering, import planning and job records, and the managed local CMF
  servers (their status and their start-up lifecycle as a state machine). Each public function
  states its behaviour in `requires` / `ensures`; the `law_*` proof functions
  state properties that span several operations.
- `tests/` — tests of the library on concrete values.
- `app/` — the executable around the library: HTTP server (axum), provider
  and router calls (reqwest), TOML config files, processes and downloads,
  and the floating-point parts (prices, Wilson bounds, the semantic cache).

Calls into `serde_json`, `toml`, `getrandom`, `std::path` and the clock made by the
library go through small trusted wrappers whose contracts are stated in their
doc comments.
