# server_game

The game core of a multiplayer word-game server, verified with Verus, and
the HTTP server around it.

## Layout

- `src/` — the verified library.
  - `game_state.rs`: a game session — seating, turn order, placing a word,
    passing, exchanging, resigning, timeouts, the end-of-game adjustment,
    chat, who may see what (`resolve_viewer_access`, `redact_game_state`) and
    the invitation status of unclaimed seats.
  - `rules.rs`: tiles, racks, the bag, the board and a variant's rule table
    (including the official variant).
  - `convert.rs`: tiles, moves, the board and whole games as clients see
    them.
  - `stats.rs`: per-seat outcomes, bingo counts and the decisions of the
    rating step.
  - `persistence.rs`: stored records, the stored form of a variant's rules,
    and the decisions around claiming an invitation.
  - `email.rs`: the sender configuration and template rendering.
  - `server.rs`: the checks and decisions the request handlers make.
  - `text.rs`, `dto.rs`, `clock.rs`: text helpers, client shapes, and the
    clock and identifier sources.
- `tests/` — tests of the library.
- `app/` — the server program: configuration, the SQLite store, the HTTP and
  WebSocket handlers, email delivery and the floating-point rating update.

## Running the server

Configuration comes from the environment: `TILE_LITE_ELITE_DATABASE_URL`,
`TILE_LITE_ELITE_BIND`, `TILE_LITE_ELITE_PUBLIC_BASE_URL`, `RESEND_API_KEY`,
`RESEND_FROM_ADDRESS`, and `TILE_LITE_ELITE_EMAIL_TEMPLATES` (the directory
holding `invitation.txt`, `join-invitation.txt` and `move-reminder.txt`; each
is a `Subject: ...` line, then the body, with `{{key}}` placeholders).

## What the server does not serve

The server covers seating (reordering, adding, removing and withdrawing
seats), passing, exchanging and resigning, forced resignation, timeouts,
chat, invitations, the event stream, player and engine stats, and the admin
endpoints. It does not yet create, start or list games, register players or
sign them in (sessions are looked up by token but never issued), search
players, abort or preview games, or play words and engine turns: placing a
word needs the rules engine's verdict, which the library takes as an
argument (`apply_place_move_at`) but nothing here computes. Email
templates are read from the directory above at run time rather than
compiled in.
