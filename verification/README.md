# aipg — verified core of the AIPowerLink LAN compute-sharing gateway

A leader machine shares its AI model backends (mock, DeepSeek, Kimi, Zhipu,
CodeBuddy, custom OpenAI-compatible endpoints) with the members of its LAN.
Members find the leader by UDP announcements and call it through a local
member gateway, in the OpenAI or the Anthropic dialect.

## Layout

- `src/` — the library, verified with Verus. Every decision of the gateway is
  here, with its contract:
  - `api.rs`: the leader's HTTP answers (admission, quota 429, load-whitelist
    403, model routing, usage metering, member/quota/model/info lists);
  - `request.rs`, `protocol.rs`, `stream.rs`: Anthropic ⇄ OpenAI conversion,
    event-stream replay and assembly;
  - `auth.rs`, `member.rs`, `usage.rs`, `quota.rs`, `policy.rs`, `health.rs`:
    tokens and bans, members, metering, quotas, the mining/deepfake redline,
    backend health;
  - `registry.rs`, `backend.rs`, `backend_store.rs`, `admin.rs`, `rules.rs`:
    backends, routing, configuration entries (keys shown as `sk-***abcd`),
    connection tests, rule sets;
  - `link.rs`, `link_crypto.rs`, `gateway.rs`: negotiated AES-256-GCM link
    encryption (`off` / `aes-gcm` / `enforce`, where unencrypted `/v1/*` gets
    426) and the member gateway's forwarding;
  - `discovery.rs`, `broadcast.rs`, `coord.rs`, `account.rs`, `strategy.rs`:
    LAN discovery, the coordination server, the optional account, the
    member's strategy mirror;
  - `punch.rs`, `p2p.rs`: hole-punching candidates and certificate pinning,
    and the signalling decisions of the leader's punching session and of a
    member joining it (sockets and QUIC are the caller's part);
  - `settings.rs`, `config.rs`, `vault.rs`, `roles.rs`, `boot.rs`, `events.rs`,
    `cli.rs`, `launch.rs`, `i18n.rs`, `tray.rs`: configuration merging and
    redaction, the settings store and its sealed secrets, roles and module
    boot order, the command line, messages, the tray menu.
  - The public `law_*` proof functions state properties that span calls.
- `tests/` — tests run against the compiled library.
- `app/` — the program: argument parsing, files, SQLite, sockets, HTTP
  (axum/reqwest), the system tray and start-at-login.
