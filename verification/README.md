# sccm_rc

A client for SCCM Remote Control: it connects to a managed Windows machine on TCP port
2701, authenticates as the current user, negotiates an RDP session inside the sealed
channel, renders the server's drawing orders and sends input back.

The parts that decide and compute are a library verified with Verus. The rest is
ordinary Rust around it.

- `src/` is the library.
  - `wire`, `text`: numbers, strings and characters on the wire.
  - `protocol`: framing, the security handshake's messages, the clipboard channel and
    bulk decompression.
  - `session`: how a session comes up, and what arrives on it.
  - `orders`: RDP drawing orders, their caches and the canvas that they paint.
  - `rdp`: the active session, its channels, its PDUs and the picture that it composes.
  - `viewer`: the window's events, its painting, and the files that the viewer keeps.
  - `diag`, `capture`, `dump`, `probe`: pre-flight checks and the offline tools.
- `tests/` runs the library on concrete values.
- `app/` is the program: sockets, files, the window, and the calls into Windows and
  IronRDP. The viewer and live sessions run on Windows; there the program also needs
  `ironrdp-session` and an `ironrdp-connector` that hands out its activation state and
  the server's share id.

Properties that relate several functions are public proof functions whose names start
with `law_`.

Calls into other crates stand behind small functions marked `external_body`. Their doc
comments say what is taken on trust.
