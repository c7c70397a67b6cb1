# workload

What a mesh proxy knows about the workloads around it: it takes updates from a
discovery service, or workloads from a local file, and finds the upstream for an
address.

- `src/` is the verified library. `information.rs` holds the state and its
  operations, `workload.rs` and `xds.rs` the data, `net.rs`, `ip_parse.rs` and
  `ip_text.rs` addresses and their text, `laws.rs` and `ip_laws.rs` what holds
  across operations. `bytes_spec.rs` is what is relied on of the `bytes` crate.
- `app/` is ordinary Rust around it: files, locks, logging, serde.
- `tests/` runs the library.
