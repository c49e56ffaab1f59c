# pvped

A tracker of player-versus-player fights in Elite Dangerous, built around a
library verified with Verus.

- `src/` is the verified library: UTC timestamps and their days (through
  chrono), ships, frags, the scan of journal entries into frags, the choice
  and order of journal files, running statistics, per-day plot series,
  settings, and the state machine of the two screens.
- `app/` is the desktop program: it reads the journals directory and the
  journal files (edjr, tokio), loads and saves the settings file (serde_json),
  performs the tasks that the state machine asks for and draws the screens
  (iced).
- `tests/` runs the library on concrete values.
