# rlr-tools

Rocket League replay verification and analysis. The library (`src/`) holds
the logic with Verus contracts; `app/` is the interactive program and the
HTTP API around it.

## Library modules

- `digest`, `merkle`, `signing` — SHA3-256 Merkle tree over a replay's
  sections, verification that pinpoints the first changed section, and the
  sidecar signed with Ed25519 and ML-DSA-65.
- `parser`, `cache` — replay bytes to cached JSON text (boxcars), and the
  cache file's path.
- `replay` — the parts of a parsed replay the analyses read, object lookup
  and player linkage.
- `kickoff`, `boost`, `bot`, `synchrony` — kickoff windows and reactions,
  boost tracking and pad pickups, input diversity, input timing facts.
- `dribble`, `rotation` — the integer state machines of dribble and rotation
  analysis (windows, events, challenges, cooldowns, counters).
- `overview` — game mode names, forfeits, platforms and team rosters.

Laws that span several calls are public proof functions named `law_*`.

## Application

`app/` reads replay files, converts the parsed JSON into the library's
types, computes the floating-point scores and geometry, prints the reports
and serves the web API.
