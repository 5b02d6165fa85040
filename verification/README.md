# nomadterm

The logic of NomadTerm, a remote PTY daemon that lets a phone watch and
drive command-line AI tools over a WebSocket, written in Verus and proved
against its contracts.

- `src/` is the verified library:
  - `paths` resolves the NomadTerm directory from an environment snapshot
    and names the files under it; flag counters are read and advanced here.
  - `session` keeps the table of live PTY sessions (one per id) and
    `protocol` decides what the daemon does on each client message.
  - `server` holds the connection decisions: bearer-token authentication,
    Tailscale/LAN host choice (with a verified IPv4 reader), the trust
    prompt answer, connection URLs and the server configuration.
  - `ids` makes bearer tokens and UUIDs, `qr` turns pairing URLs into QR
    images and terminal text, `gui` and `desktop` hold the state and view
    logic of the two desktop front ends, `registry` a map with text keys,
    `runtime_env` the self-invocation helpers, `usage` the energy counter
    readings and `text` the character-level helpers they share.
- `app/` is the daemon around it: argument handling, the axum server, PTY
  processes, SQLite, the file system, the usage tracker (floating point)
  and the egui and Tauri front ends.
- `tests/` runs the library on concrete inputs.
