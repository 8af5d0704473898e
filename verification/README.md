# hotaru

The decision logic of the Hotaru paper-trading services, written in Verus
and proved against its contracts.

- `src/` — the verified library: text and decimal parsing (`text`,
  `number`), the Fear & Greed status line (`fng`), the symbol map and the
  engine's book of positions with its entry gates and the closing of a
  position on the exit verdicts (`symbol_map`, `engine`), the market symbol rules (`market`), the oracle's snapshot
  (`oracle`), the news sentry's keywords and memory (`news`), log lines
  (`report`) and service addresses (`endpoints`).
- `app/` — the five services (`engine`, `analyzer`, `oracle`, `scraper`,
  `news-sentry`): network, database and file I/O, and the floating-point
  rules (indicators, the exit verdicts from profit and loss, order-book
  pressure, ranking).
- `tests/` — tests of the library on concrete values.
