# scodex

Renders the Codex account table of `scodex` as a box-drawn terminal table.
The table logic is proved in Verus; what `chrono` and `unicode-width`
compute, and `String::push`, are trusted through the contracts of the few
items that call them (in `src/timefmt.rs`, `src/width.rs` and
`src/text.rs`).

- `src/table.rs` — generic tables: column widths, aligned cells, rows whose
  last value spans several columns, and the borders between rows (which lose
  their junctions where a span has no vertical line).
- `src/codex.rs` — the account table: accounts ordered by type, then e-mail
  (a stable sort), quota columns coloured by threshold, API accounts shown
  with one merged `N/A` cell, and a footer counting usable subscriptions.
- `src/state.rs` — accounts, usage snapshots and the usage cache (a map by
  account id).
- `src/messages.rs` — interface texts in English and Chinese.
- `src/ansi.rs`, `src/width.rs` — colour escapes and terminal column widths
  (through `unicode-width`).
- `src/timefmt.rs` — reset times (epoch seconds or RFC 3339, through
  `chrono`) shown as local `MM-DD HH:MM`.
- `src/text.rs` — string helpers: trimming, case-insensitive comparison,
  lexicographic order, decimal formatting and parsing.
- `app/lib.rs` — picks the language and colour support from the environment.

`tests/` holds the executable tests.
