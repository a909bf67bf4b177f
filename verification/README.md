# wordle

A Wordle game whose rules are a library verified with Verus.

- `src/` — the verified library: coloring a guess (`feedback`), the
  keyboard summary (`keyboard`), hard-mode rules (`hard_mode`), the
  candidate filter and pattern buckets used by the solver (`solver`), word
  lists and answer selection (`word_list`, `game`), statistics (`stats`),
  saved games (`record`), settings and the reading of a JSON
  configuration file (`options`), a game in progress
  (`round`) and the state machine of the terminal screen (`screen`).
- `app/` — the program around it: command line, files, terminal drawing,
  colored output and the entropy-based solver, which works in floating
  point.
- `tests/` — tests of the library on concrete values.

Word lists are read from files given with `--acceptable-set` and
`--final-set`.
