# cachecannon admin

The admin endpoint of a cache benchmark. The library in `src/` states its
behaviour in contracts, which Verus proves.

The proofs rest on trusted items: small functions and declarations that stand for
what the library calls in `metriken`, `histogram`, `metriken-exposition`,
`rmp-serde` and the standard library. Verus believes their contracts without
proof. Each one's doc comment says what is claimed and what is left open.

Verus does not see `app/`. Threads, sockets, files and logging are there, and so
are the quantiles of a histogram, which are floating point. Nothing is proved of
them.

- `src/text.rs`: decimal numbers, first fields and words.
- `src/request.rs`: the path that an HTTP request line names.
- `src/response.rs`: the framing of a body as an HTTP/1.1 response.
- `src/exposition.rs`: the Prometheus exposition text.
- `src/labels.rs`: key-value labels, each key at most once.
- `src/registry.rs`: what is read of the registered metrics.
- `src/scrape.rs`: the exposition text of the registered metrics.
- `src/snapshot.rs`: snapshots of the registered metrics, and their encoding.
- `src/server.rs`: routing, and the answer to a request.
- `src/recorder.rs`: the decisions of the snapshot recorder, and its paths.
- `app/`: the admin thread, which listens, serves and writes files.
- `tests/`: tests of the library from outside.

| Path              | Served                                  |
|-------------------|-----------------------------------------|
| `/`, `/metrics`   | the exposition text                     |
| `/metrics/binary` | a snapshot, encoded as msgpack          |
| any other         | 404                                     |
