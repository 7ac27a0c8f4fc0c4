# nsc-work-man

A signal bot for one trader. It watches price against the levels he draws,
says on Telegram what a finished candle did at them, warns ahead of economic
releases, and places no trades.

## Layout

- `src/` — the library, verified with Verus: which candles have finished and
  when a pair is next worth a request; what has already been said and which
  zones are owed a card; the greeting owed once a session; the heartbeat's
  memory; the economic calendar's memory and words; noticing a changed levels
  folder; the history a setup is judged on; the watcher's own decisions; how
  a job is tried again; what Telegram's replies and troubles come to; the
  settings hash; and reading a bad `.env` line without ever handing back its
  value. `src/laws.rs` states what holds across calls.
- `app/` — the program around it: reading files and the environment, the
  price line, the feed, drawing cards and sending them, and waiting.
- `tests/` — the library's tests, run against the compiled crate.

The library works on its own plain types (`Price`, `Bar`, `Band`, `Moment`);
`app/convert.rs` turns the feed's and the levels' types into them.

The library keeps its few small maps and sets — what was said, when to ask
again, who was greeted, the refusals — as lists of entries (`memory::Keyed`,
`news::Spoken`, and the sorted list in `refusals::Refusals`) rather than as
`HashMap`, `HashSet` or `BTreeMap`. Their keys are text, and with a
`String` key vstd's specifications of those collections do not even prove
that one insert into an empty `HashMap` leaves one entry; the
lists are verified with exact map and set views, and the refusals are kept
sorted by symbol, as a `BTreeMap` keeps them.
