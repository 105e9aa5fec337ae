# server_status

The verified core of a server-monitoring service (a server that collects
status reports and a client that samples its machine).

- `src/` is the library, verified with Verus:
  - `config.rs`: hosts, host groups and the server configuration; the rules
    that complete a freshly parsed configuration (numbering, weights, aliases,
    month starts, minimum thresholds, default credentials, the name indexes);
    the host, group and admin credential checks; and the laws that hold of a
    completed configuration.
  - `text.rs`: whitespace, unsigned number parsing, trimming, word and line
    splitting, each specified over the characters of the input.
  - `meminfo.rs`, `netdev.rs`, `disk.rs`, `status.rs`: readers for
    `/proc/meminfo`, `/proc/net/dev`, `df` output, `/proc/uptime`,
    `/proc/stat` and command counts.
  - `ping.rs`: the sliding window of probe outcomes and the loss rate.
- `tests/` runs the library on concrete inputs, including comparisons with
  the standard library and with the `regex` crate on the line patterns.
- `app/` holds the input and output around the library: TOML and JSON,
  files under `/proc`, shell commands, network probes and sampling threads.
