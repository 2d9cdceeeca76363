# revier-analysis

The analysis library behind a local Git review tool: it lists the files a filtered range of
commits changed, lays out a side-by-side diff of each file, groups the changed lines into
blocks, and attributes each block to the commits and authors that wrote it. An index of
commits kept in DuckDB answers the range queries; a cache keeps finished analyses.

## Layout

- `src/` is the library, verified with Verus. Its functions state their behaviour in
  `requires`/`ensures` over spec functions and views; where a step rests on a repository
  read handed in as a closure, the contract says what is asked of the read and what follows
  from each answer it may give, not what the repository holds.
  - `overlay/`: the line diff (a longest common subsequence by divide and conquer, with its
    optimality proved in `overlay/lcs.rs`), the side-by-side rows, the change blocks, and the
    file overlay.
  - `attribution/`: patch inference, blame resolution, merge tracing, deletion tracing,
    first-parent source validation, path history, and whether the index can serve a range.
  - `git/`: commits, tree changes, rename closure, blame lines and repository identity, as
    plain values.
  - `index/`: migrations and schema decisions, the commit filter and time window, glob rules,
    the file list order, and which commits a prune keeps (exactly those reachable from the
    protected ones).
  - `cache/`, `commands/`, `spike.rs`, `execution.rs`, `text.rs`, `text_encoding.rs`.
- `tests/` runs the library on concrete values.
- `app/` is the command line: argument parsing, reading the repository with `gix`, the
  DuckDB index and analysis cache, the attribution context that hands repository and index
  reads to the library's attribution steps, and JSON output. It hands plain values to the
  library and takes its decisions back.
