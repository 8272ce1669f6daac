# chess_notifier

Watches live computer-chess broadcasts — the rooms of ccrl.live and the TCEC board —
and posts to Discord when a game starts between engines that users follow, pinging
those users.

- `src/` is the library, verified with Verus: engine-name matching, the per-user
  tournament rules, the configuration summaries and their diffs, PGN reading, the
  Discord messages, the seen-games state file, and the decisions of both polling
  loops (what to log, whom to ping, what to record). Regular expressions and URL
  parsing are called through the `regex` and `url` (as re-exported by `reqwest`)
  crates, behind trusted wrappers in `src/pattern.rs` and `src/web.rs`.
- `app/` is the program around it: environment variables, HTTP, JSON5 configuration
  files, the SQLite database, the console, and the two polling threads.
- `tests/` runs the library on concrete values.
