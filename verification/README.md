# cosmic_cassette_deck

A 1980s portable cassette player for a local music library, as a verified
library with a thin program around it.

`src/` holds the player's logic with its contracts, proved by Verus:

- `deck` — the player's state machine: screens, the loaded tape, transport,
  winding, media keys, the clock, and the effects it asks for;
  `deck_laws` — what holds across messages.
- `library`, `shelf`, `order` — which files are audio, how a track's artist,
  album, title and number are settled, and how tracks group into cassettes.
- `state` — the session file: writing it and reading it back.
- `artscrape`, `coverfetch` — cover lookups: which release group to trust,
  which image to take, the lookup as a sequence of requests, retries and the
  on-disk cache.
- `raster`, `cases`, `label` — pixel buffers, the case sprites, the label's
  rule and quarter turn.
- `controls`, `rack`, `screens` — the deck's keys, the fan browser, and what
  the screens say.
- `text` — clock text, truncation, cache names, URL encoding.

`app/` performs what the library asks for: audio (rodio), media keys
(mpris-server), the scan (walkdir, lofty), HTTP (ureq, serde_json), label
lettering (ab_glyph) and the state file, behind a console front end. The
deck's mechanical sound cues are FLAC clips read from `assets/sfx`
(`key_press`, `tape_seat`, `end_clack`, and `wind_loop`, which repeats while a
wind lasts).
