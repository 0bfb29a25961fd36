# core_browser

The logic of Core, a minimal paper-and-ink web reader built on Tauri, as a
Verus-verified library, with the window work around it in `app/`.

- `src/text.rs` — character-level helpers (search, replace, trim, decimal numerals).
- `src/json.rs` — JSON string literals written by `serde_json`.
- `src/web_url.rs` — the address bar: search-query encoding, address or search, URL parsing, the home page.
- `src/ink.rs` — theme colours, the ink style sheet and its page script.
- `src/adblock.rs` — advertising domains and the blocker script.
- `src/tabs.rs` — the tab list, the active tab, the theme and downloads in flight, with their laws.
- `src/downloads.rs` — download names, the free names tried in turn, download speed.
- `src/notify.rs` — the calls sent to the interface.
- `src/menu.rs` — menu entries and the command that opens a downloaded file.
- `app/main.rs` — the Tauri application: windows, webviews, threads, files and processes.
