# cliphop

A clipboard history manager for the macOS menu bar. Its decisions are
written in Verus and proved against their contracts; the macOS user
interface around them is ordinary Rust.

## Layout

- `src/` — the verified library:
  - `clipboard` — the history (most recent first, deduplicated, bounded by a
    configurable limit) and the pinned list, modelled by `HistoryModel`;
  - `config` — the `key=value` configuration file, read and written;
  - `crypto` — AES-256-GCM through `aes-gcm`, and the hexadecimal key form;
  - `history` — the history file's JSON text and its encrypted,
    base64-encoded records, saved and loaded back;
  - `json` — JSON values read and written through `serde_json`, and the
    lookup of an object's members;
  - `hotkey` — hotkey combo strings: parsing, canonical form, display, and
    which combo stays in force after a registration attempt;
  - `log` — the log lines and logging settings;
  - `popup`, `tray` — what the popup and the tray menu show, what a click
    or a key asks for, and what the popup loop does after each action;
  - `text` — character-level helpers shared by the parsers.
- `app/` — the application: the event loop, the pasteboard, the Keychain,
  files, the global hotkey registration and the AppKit windows.
- `tests/` — tests of the library.

Each module states the laws it keeps as public proof functions, named
`law_...` (and, in `config`, `lemma_render_then_parse`); `save_records`
states in its contract that loading what it writes gives the entries back.
