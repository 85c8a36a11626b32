# dns_server

A DNS server library written in Verus: authoritative zones, a recursive
resolver with its caches and name server address store, and the framing of
DNS over TCP. Every function in `src/` carries a contract that Verus proves,
except the few trusted ones marked `#[verifier::external_body]`: the calls
into the `lru` crate in `src/lru_store.rs` and the clock read in
`src/clock.rs`, whose contracts are taken as given.

Layout:

- `src/name.rs`, `src/rr.rs`, `src/message.rs`: domain names, record sets and
  messages, each with an abstract view used by the contracts.
- `src/datasrc/`: record sets of a name (`Rdataset`), in-memory zones with
  lookup, delegation, wildcard and glue handling, and zone loading.
- `src/auth/`: the set of served zones, answering queries from them, and
  dynamic changes to them.
- `src/cache/`: the record set and message caches, bounded and least recently
  used, on top of the `lru` crate (`src/lru_store.rs`).
- `src/resolver/`: response classification, the resolver cache, the name
  server address store (`nsas/`) and the state machine of a recursive query.
- `src/server/`: the length-prefixed framing of DNS over TCP as a state
  machine, and the query handed to handlers.
- `app/`: the program around the library: argument handling, sockets, zone
  files and the wire format.
- `tests/`: tests of the library on concrete values.
