# hyprtrace

The logic of a window-usage tracker for Hyprland. Its daemon records which
app is focused, when the user is idle or away, resource use, notifications
and clipboard activity, and reminds about goals, breaks and late hours; its
server side answers with summaries, insights and an AI assistant over the
recorded data. This crate holds that logic as a verified library, and the
daemon program around it. The HTTP server itself (routes, middleware, the
agent's streaming loop) is not part of this crate: the library offers the
decisions those make, as functions from plain values to plain values.

## Layout

- `src/` — the verified library (Verus). Every function carries a contract;
  `law_*` proof functions state properties that span several functions.
  - `daemon/` — idle and focus state machine, session end figures, goal
    milestones, wellbeing reminders, notification parsing, `/proc` parsing,
    shutdown reasons, configuration defaults.
  - `server/` — request guard and token check, rule and project matching,
    `.desktop` entry parsing and the lookup table built from it, stream
    (SSE / NDJSON) decoding and tool-call accumulation, the agent's tool
    table and round decisions, insight counts (transitions, fragmentation,
    co-occurrence, weekly rhythm, disruption buckets), schedule decisions.
  - `text.rs`, `paths.rs` — character-level helpers and path joining.
- `tests/` — tests of the library.
- `app/` — the daemon program around the library: configuration file,
  SQLite storage, Hyprland/evdev/D-Bus listeners, timers, the tool table in
  the providers' JSON form, and the floating-point parts of the insight
  reports.
