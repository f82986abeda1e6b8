# trail

An evidence-backed changelog generator: it reads git history, correlates
each commit with the witness recordings made on its day and with the other
evidence sources of the project, and writes changelogs, summaries, commit
details and source lists as text or JSON.

## Layout

- `src/` — the library, verified with Verus.
  - `text.rs`: texts as character sequences; splitting, `splitn`, lines,
    trimming, searching, joining, with lemmas on texts put together.
  - `numbers.rs`: decimal numerals, written and read back.
  - `order.rs`: the code-point order of texts and sorted sets of texts.
  - `git.rs`: the git command lines, reading `git log` and `--numstat`
    output, commits and their totals; read-back laws for both listings.
  - `evidence.rs`: evidence sources, witness recordings of a commit's day,
    the latch note.
  - `report.rs`: the text of every report and the summary figures.
  - `cli.rs`, `error.rs`: the command-line model and the error kinds.
- `tests/` — tests of the library on concrete values.
- `app/` — the `trail` program: argument parsing, running git, reading
  files, JSON output.
