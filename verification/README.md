# double_riichi_server

The server-side rules of the double-riichi game server, written in Verus:
credentials and sessions, the OAuth authorization server, agent and MCP
sessions, character packs, configuration, rate limits and request checks.
The game engine itself is not part of this crate. Functions in `src/` carry
`requires`/`ensures` contracts over mathematical models (`Seq`, `Map`,
`Set`, integers), and Verus proves the code against them. The exceptions are
the trusted wrappers around outside crates and the clock, and the few
functions whose result rests only on the clock, randomness or the state of
a channel (such as `queue_output`), which state nothing of that result.

## Layout

- `src/` — the verified library.
  - `auth/` — admin password hashing and login, admin sessions, bot tokens,
    the audit-log summaries, and the `.env` secrets file.
  - `characters/` — character packs: their manifests, assets and the
    registry built from the pack folders.
  - `config.rs`, `net.rs`, `origins.rs` — runtime settings and their ranges,
    trusted proxies and client addresses, the public origin.
  - `oauth.rs`, `grants.rs`, `pending.rs`, `gateway.rs` — the OAuth
    authorization server for the ChatGPT connector and the gateway in front
    of its MCP endpoint.
  - `mcp_sessions.rs`, `mcp_views.rs`, `agents.rs` — MCP and MJAI agent
    sessions, what they are shown, and the names they use.
  - `human_socket.rs`, `admin_rooms.rs` — the step function of a human
    player's socket, and the plans of the admin room commands.
  - `replays.rs` — where a replay file may lie below the replay root.
  - `guests.rs`, `connections.rs`, `ranked.rs`, `rate.rs`, `server.rs`,
    `outbound.rs` — guest sessions, live sockets, the ranked queue, rate
    limits, admission decisions and the bounded outbound queue of a socket.
  - `responses.rs`, `web.rs`, `protocol.rs`, `writer.rs` — problem
    documents, response headers, frontend paths and request helpers.
  - `json.rs`, `keyed.rs`, `textmap.rs`, `text.rs` — JSON as plain values,
    maps kept as vectors of entries with distinct keys, and string helpers.
  - `crypto.rs`, `codec.rs`, `time.rs` — the calls into `sha2`, `base64`,
    `rand`, `argon2`, `serde_json`, `url` and the clock, each behind a
    trusted wrapper whose contract says what the crate computes.
  - `laws.rs` (and `auth/laws.rs`, `characters/laws.rs`) — properties that
    span several functions, stated and proved as proof functions.
- `tests/` — ordinary Rust tests of the library.
- `app/` — the command-line program: argument handling, reading the
  configuration, the secrets file and the pack folders from disk.
