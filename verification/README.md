# tlock

The logic of a plugin host's terminal front end and storage, verified with
Verus.

- `src/metadata.rs` — the trust metadata that plugins declare, its
  pessimistic defaults, the restriction predicate and the trust channels,
  with laws relating them.
- `src/hdk_metadata.rs` — the plugin kit's metadata builder, the
  transparency check and the plain-text rendering.
- `src/database.rs` — record keys, an in-memory key/value store, the file
  naming (the key bytes in hexadecimal) and the outcome decisions of the
  file-backed store, with read-after-write, key-separation and
  one-file-per-key laws.
- `src/keyed.rs` — the list-backed map for maps keyed by texts or bytes.
- `src/page.rs` — flattening of a plugin's component tree into page rows.
- `src/host_view.rs` — the root menu, request candidates and resolutions,
  computed from a snapshot of the host.
- `src/tui.rs` — the front end's state machine: cursor movement, every key
  on every screen, page refreshes, the selection and order of plugin files,
  and the texts and row styles of every list it draws.
- `src/text.rs` — text helpers: prefixes, decimal notation, the order of
  texts.
- `app/` — the program around the library: terminal drawing and input,
  the asynchronous storage trait and file system calls, JSON manifests,
  fetching plugin code, and the link to the plugin host.
