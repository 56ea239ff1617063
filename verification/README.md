# usque_transport

The transport logic of a CONNECT-IP (MASQUE) tunnel client, written in Verus:
every function in `src/` carries a contract that Verus proves.

## Layout

- `src/` — the verified library.
  - Wire formats: `varint`, `capsule`, `http_datagram`, `packet`, `dns`,
    `doh_media_type`; the HTTP/2 receive path in `h2_receive`.
  - Userspace NAT for direct flows: `direct_nat` (parsing and checksum-correct
    rewriting), `nat_table` (bounded flow table), `direct_router` (per-packet
    decisions).
  - Resolver policy: `direct_dns` (bootstrap selection, retries, pooled
    connections, DoH header checks), `dns_resolution`, `dns_stream_pool`.
  - Routing and probing: `geo_route`, `diagnostic_probe`.
  - HTTP/2 and HTTP/3 decisions: `h2_control`, `h3_connect`, `h3_limits`,
    `h3_migration`, `wire_queue`, `datagram_pool`, `control_queue`.
  - Failures and faults: `error`, `failure`, `fault_injection`, `clock`.
  - Calls into `bytes`, `http`, `tokio-util` and the parts of `std` that
    Verus has no specification for go through trusted wrappers and type
    declarations (`buffers`, `clock`, `error`, `nat_table`,
    `datagram_pool`); each one's doc comment says what it
    assumes of the outside code. `h3_migration` declares the `tokio` channel
    and instant types its migration handle carries.
- `tests/` — tests run against the compiled library with the real outside
  crates linked.
- `app/` — the I/O around the library: `std::net` conversions, the UDP DNS
  exchange, DoH header extraction, error types with `Display`, the system
  clock, and sending a migration request to the HTTP/3 actor.

Each module's laws are public proof functions named `lemma_*`; their doc
comments state the law in words.
