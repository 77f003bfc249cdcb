# antigravity_tools

The Android core of the Antigravity account manager, written in Verus: the
logic is in `src/` with machine-checked contracts, the I/O around it in `app/`.

## Layout

- `src/client_hello.rs` — TLS ClientHello normalization: parsing the record,
  Chromium's extension order, GREASE injection, length fix-up. Proved: the
  patched record parses back to exactly the reordered extension list, and its
  record and handshake lengths match its size.
- `src/token_store.rs` — the in-memory token pool with LRU eviction (capacity
  10), the active account, and the refresh decision.
- `src/upstream.rs` — the `v1internal` endpoints, URL building, the fallback
  run over sandbox, daily and production endpoints, request headers, e-mail
  masking and the machine-id choice.
- `src/stealth.rs` — which caller headers reach the uTLS sidecar, the
  injected token and the fingerprint headers.
- `src/payload.rs` — JSON request payloads and the Android fixes
  (`googleSearch` removal, client metadata).
- `src/ip_filter.rs` — IPv4 CIDR matching and black/white-list decisions.
- `src/protobuf.rs` — field lookup in protobuf messages by the wire format.
- `src/oauth_state.rs` — the refresh token inside an IDE state database
  value (base64, nested protobuf fields, UTF-8).
- `src/fingerprint.rs` — the time-based client fingerprint.
- `src/accounts.rs`, `src/services.rs` — database rows and the Android
  service forms.
- `src/text.rs` — decimal/hex rendering and string splitting with specs.
- `app/` — SQLite storage, HTTP clients, the local proxy, logging,
  configuration files and the UI commands, all calling into the library.
- `tests/` — executable tests of the library.
