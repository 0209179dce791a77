# chat_bridge

Conversions between three chat protocols, with machine-checked proofs of what they do:

- Anthropic Messages requests and responses to and from Chat Completions (`src/anthropic`),
- Responses API requests and responses to and from Chat Completions (`src/responses`),
- streaming decoders in both directions between Messages and Chat Completions (`src/codec`).

`src/headers.rs` reads the API key and the protocol from request headers. `src/json.rs` holds the
JSON type that the conversions work on, with its mathematical model; contracts speak of that model.
The `laws.rs` and `*_laws.rs` files state what holds of every conversion or stream.

What the library takes from `serde_json`, `axum`, `uuid` and `chrono` stands behind functions and
declarations whose doc comments start with "Trusted" or name the outside type; Verus believes their
contracts and proves the rest.

`app/` offers the conversions on `serde_json::Value`. `tests/` runs the library on concrete values.
