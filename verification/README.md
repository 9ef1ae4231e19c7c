# feo

The logic of the FEO (fixed execution order) framework as a verified library:
the scheduler that starts, steps and shuts down activities in dependency order,
the workers that run them, the relays and connectors between processes, the
receive buffer of socket connections, the shared memory access control and
topic registry, the data recorder's decisions, and the conversion of trace
records into Perfetto packets. Each public function states its behaviour in
`requires`/`ensures` and is proved by Verus; the laws that relate several
calls are public proof functions beside the functions they speak of.

Layout:

- `src/` — the verified library; one module per part of the framework.
- `tests/` — tests of the library on concrete values.
- `app/` — the runtime around it: sockets (mio), shared memory (nix),
  serialized forms of signals and records (serde, postcard), the loops that
  drive the scheduler, workers, relays and recorder, and OS signal handling.
