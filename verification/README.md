# rl_stats_overlay

A session tracker and overlay for Rocket League, built on the game's Stats
API. The logic is a Verus-verified library (`src/`); the desktop shell
around it (windows, tray, HTTP server, SQLite history, files) lives in
`app/`.

## Library modules (`src/`)

- `session` – the live win/loss tally, its streaks and its six-hour expiry.
- `storage` – streaks over a match history, the history session rotation
  rule, and the boot-time reconciliation of the tally with the history.
- `ws_client` – the Stats API decisions: cutting the TCP byte stream into
  JSON envelopes, decoding `UpdateState` ticks, recognising the local player,
  learning its identity, settling `MatchEnded`, reconnect backoff and jitter,
  event classification and live-stats debouncing.
- `match_recorder` – integer bookkeeping of a match being recorded.
- `platform_detect` – Steam `loginusers.vdf` parsing, Epic account ids and the
  `PrimaryId` prefixes they yield.
- `ini_patcher` – which `DefaultStatsAPI.ini` a pick designates, whether it
  is already patched, and the patch itself on an `ini::Ini` document.
- `http_server` – theme-name sanitising, user-theme path rules, `<base>`
  injection.
- `theme_manifest` – bundled/user theme discovery rules, merging and ordering.
- `commands` – the validation and geometry rules behind the UI commands.
- `rl_process`, `text`, `clock`, `stats_api`, `state`, `settings` – helpers
  and plain data types.

Laws stated over these (for example: replaying a history onto a fresh session
gives the history's streaks; a replayed `MatchEnded` is never counted twice;
jitter stays within ±20 %; a patched document is recognised as patched; user
themes win on id conflicts) are proof functions or `ensures` clauses in the
modules above.
