# busy_term

The logic of a macOS menu-bar indicator that watches iTerm2 sessions and shows
which commands have been running for a while, verified with Verus.

- `src/text.rs` — whitespace, the program name of a command line, trimming,
  the lexicographic order of whitelist entries and a sort into it.
- `src/whitelist.rs` — the whitelist of programs to leave out: loading,
  adding, removing, hiding, and the requests to write its file.
- `src/events.rs` — the table of running commands kept from the daemon's
  event stream, its start-time order, and which commands to show.
- `src/daemon.rs` — the state of the daemon child process: starting,
  polling, stopping, and the state shown to the user.
- `src/icon.rs` — which tray icon to show, and the busy animation.
- `src/json.rs` — the calls into `serde_json`.
- `app/` — the Tauri application around the library: windows, tray, the
  socket reader, the daemon process, and the whitelist file.
