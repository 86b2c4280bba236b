# ledgera

The backend of Ledgera, a desktop app for [hledger](https://hledger.org)
journals, with its journal logic verified by Verus.

## Layout

- `src/` — the verified library: reading and writing journal text
  (transaction blocks, postings, periodic rules, `include` lines), routing new
  transactions in split journals, recurring-rule dates, search and ranking,
  the accounts overview, which posting a transaction is shown by and where
  its money moved, dashboard summaries, amount styles, settings, logs,
  git status parsing and the update check. Each public function states what it
  returns in its contract; the laws that relate several functions (for
  example, that a written transaction reads back as entered, or that a new
  `include` line keeps the inclusions in order) are proof functions.
- `app/` — the desktop backend around the library: files, processes (hledger,
  git, curl), settings and logs on disk, and the amount arithmetic done in
  floating point.
- `tests/` — tests of the library on concrete values.

Calls into `chrono` and `serde_json` stand behind small trusted wrappers in
`src/` whose contracts say what the library relies on.
