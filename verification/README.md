# reading_steiner

A watcher for web pages and JSON APIs: it fetches each configured source on a
cron schedule, extracts items (CSS selectors, JSONPath, regular text), compares
them with the previous round, records the change and notifies a Telegram chat.

## Layout

- `src/` — the verified library (Verus). Scheduling and cron handling,
  extraction, the differ, fingerprints, notification templates and retry
  plans, the network guard, configuration validation, the store's schema plan,
  backups, the control protocol and the views of the web console and the TUI.
  Calls into outside crates (cron, chrono, scraper, serde_json, url, sha2,
  blake3, image, encoding_rs, mime_guess, uuid, iana-time-zone) go through
  small trusted wrappers whose contracts are stated next to them.
- `tests/` — tests of the library, run against the real outside crates.
- `app/` — the program around the library: command line, YAML and JSON
  (serde), SQLite store, HTTP fetching, Telegram, the web server, the control
  socket, the terminal UI and the daemon loop.
