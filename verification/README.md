# solnet_orchestrator

Control-plane library of the Solnet orchestrator, verified with Verus.

- `src/orchestration/` — the node registry (`NodeManager`) and the priority
  task scheduler (`TaskScheduler`, `Task`), with the laws they keep.
- `src/event_bus/` — the broadcast event bus over tokio.
- `src/mesh/yggdrasil.rs` — Yggdrasil admin API types, endpoint URLs and the
  rules by which a synchronisation updates the registry.
- `src/wireguard/` — WireGuard data types and X25519 key pairs in Base64.
- `src/api/server.rs` — the decisions taken on REST and WebSocket requests.
- `app/` — the process around the library: HTTP client, axum server,
  WebSocket loop, serde copies of the data types, heartbeat loop.
