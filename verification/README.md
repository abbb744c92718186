# card_proxy

An OpenAI-compatible endpoint that catches the hidden character definition a
chat front end sends, stores it under a random id, and answers with a link to
it. The decisions, the reading of request bodies and the stored documents are
a Verus-verified library; the binary around it does the network, file,
randomness and clock work.

- `src/ids.rs` — capture ids: base64url encoding of 72 random bits, `valid_id`,
  and the laws that generated ids are valid, distinct for distinct bits, and
  path-safe.
- `src/tags.rs` — `characters_of`: the `<Name>…</Name>` blocks of the system
  messages, with the law that names are well formed and never repeated.
- `src/proxy.rs` — routing, capture links, and the exact JSON / server-sent
  event replies; the law that a capture link routes back to its capture.
- `src/config.rs` — flags, environment fallbacks, port parsing, URL trimming.
- `src/capture.rs` — reading a chat request body (serde_json) and the exact
  document stored for a capture.
- `src/store.rs` — expiry of stored captures.
- `src/json.rs`, `src/text.rs`, `src/clock.rs` — JSON strings (via serde_json),
  decimal numbers, character helpers, and the wall clock.
- `app/main.rs` — the HTTP loop (tiny_http), the store on disk, randomness,
  and the fractional-hours lifetime.
