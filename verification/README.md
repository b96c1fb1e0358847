# lazydns plugins

The plugin logic of a DNS forwarder, written in Verus. Verus checks every
function in `src/`; the public ones state in their contracts what they do,
and a few small helpers and the trusted wrappers around outside crates
(whose contracts are believed, not proved) say less.

## Layout

- `src/` — the verified library.
  - `text.rs`, `ip.rs`, `dns.rs`, `config.rs`, `error.rs`: characters and
    splitting, IP addresses and networks, the parts of a DNS message the
    plugins use, plugin arguments and errors.
  - Matching data sets: `domain_rules.rs` (domain sets), `ip_set.rs`,
    `hosts.rs`, `geoip.rs`, `geosite.rs`, `arbitrary.rs`.
  - Query handling: `acl.rs`, `redirect.rs`, `black_hole.rs`, `records.rs`
    (TTL rewriting, IPv4 preference, response dropping, return flag),
    `ecs.rs`, `domain_validator.rs`, `ratelimit.rs`, `reverse_lookup.rs`,
    `sets.rs` (ipset/nftset entries), `ros_addrlist.rs`.
  - Caching: `cache.rs` (an LRU cache of responses with stale serving and
    lazy refresh) and `cache_dump.rs` (its on-disk format).
  - Upstreams: `forward.rs` (upstream selection, health counters, retries).
  - Auditing and metrics: `audit.rs`, `query_log.rs`, `metrics.rs`.
  - Each module also states its laws as public proof functions (for
    example, that a stored cache entry is what the next lookup finds, or
    that decoding a cache dump gives back what was encoded).
- `tests/` — tests of the library on concrete values.
- `app/` — what the library leaves to ordinary Rust: reading configuration
  files, sockets and HTTP, clocks, timers and background tasks, file
  watching, external commands, Prometheus registries, and the few
  decisions that rest on floating-point fractions.

Outside crates the library calls through trusted wrappers: `regex`,
`ipnet`, `lru`, `dashmap`, `serde_json` and `time`.
