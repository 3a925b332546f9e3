# refractium

A layer-4 proxy that multiplexes several protocols on one port: the first
bytes of a TCP connection (or the first packet of a UDP session) tell which
protocol it carries, and the traffic goes to a healthy backend of that
protocol's route, chosen round robin, or to a fallback backend.

## Layout

- `src/` — the library, verified with Verus:
  - `protocols/` — the identifiers (HTTP, HTTPS with SNI extraction, SSH,
    DNS, FTP, byte patterns), built-in identifiers with interception hooks
    attached, the trait for protocols of the user's own, and the registry
    that probes them in order;
  - `engine/` — health table, load balancer, router, connection limits,
    UDP session table, the builder and the engine that holds them;
  - `config.rs`, `commands/` — the configuration file's content, its
    defaults, command-line overrides, security warnings, and the routing
    tables built from a configuration;
  - `util.rs` — byte prefixes, strings and association lists.
- `app/` — the program around the library: argument parsing, reading and
  writing the configuration file, the TCP and UDP servers, backend probes,
  hot reload and signal handling.
- `tests/` — tests of the library.
