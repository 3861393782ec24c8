# herdr_badges

Keyed badges for a terminal workspace sidebar: short text with a color,
stacked by key.

- `src/` is the verified library (Verus):
  - `badges` — badge types, the sorted in-memory store, merging file badges
    with the store, display truncation, and the laws they keep;
  - `badge_file` — the three accepted shapes of a badge file's JSON;
  - `json` — the JSON document model and the parse through `serde_json`;
  - `color` — color strings to terminal colors and styles;
  - `schema`, `handlers` — the `badge.set` / `badge.clear` / `badge.list`
    requests applied to the store;
  - `cli` — the `badge` command line verb;
  - `click` — the notification-click launch and handler decisions;
  - `http` — framing, routing and answers of the agent-report listener;
  - `request_head` — what reading a whole request head gives, line by line;
  - `listen` — which address the agent-report listener binds;
  - `text` — character-level helpers (order, trimming, UTF-8 length).
- `app/` is the program side: serde forms of the types, reading the badge
  file, terminal colors, the sockets, threads, logging and printing.
- `tests/` runs the library on concrete values.
