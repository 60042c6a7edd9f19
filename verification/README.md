# gai — getaddrinfo inspector, verified core

`gai` shows the decision path the OS walks to turn a host name into
addresses — `/etc/hosts`, mDNS, systemd-resolved, DNS — and cross-checks it
against an independent DNS query to catch where that path silently diverges.

## Layout

- `src/` — the library, verified with Verus. It does no I/O: the parsers
  take file text, the mDNS code takes packet bytes, the resolver decides
  which query each NSS source needs and interprets the outcome it is handed,
  and the diagnosis rules take the simulated path and the reality check.
  - `config/` — `nsswitch.conf`, `resolv.conf`, `gai.conf`, `/etc/hosts`.
  - `sim.rs` — the walk of the `hosts:` chain, with `[STATUS=action]`.
  - `mdns.rs` — DNS wire format: query packets, name skipping/decoding,
    A/AAAA answers.
  - `resolver.rs`, `resolved.rs`, `reality.rs`, `diagnosis.rs` — how each
    source is answered and what `doctor` concludes.
  - `runtime.rs` — spotting statically linked Go binaries.
  - `style.rs` — colours, word wrapping and boxed panels for the terminal.
  - `ip.rs`, `notation.rs`, `text.rs` — addresses, address notation, text.
- `app/` — the command-line program: argument parsing, file reads, D-Bus,
  DNS queries (hickory-resolver on tokio), the multicast probe, printing.
- `tests/` — tests of the library.
