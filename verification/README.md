# file-parser

A parser for large structured text files, verified with Verus. A file is
split into sections by header lines (pass 1); each section is then searched
with the content patterns of its kind and every pattern's matches are
aggregated into one value (pass 2).

## Layout

- `src/` — the verified library
  - `sections.rs`, `sections/handlers.rs`, `sections/finalizers.rs`: the
    section registry and the aggregations (sum, count, first, collect)
  - `matching.rs`: compiled regular expressions (the `regex` crate) and what
    their searches return
  - `patterns.rs`: compiling the content patterns of the registry
  - `boundaries.rs`, `boundaries/priority.rs`: pass 1, header hits (one per
    position, the section listed first winning) and section boundaries
  - `worker.rs`: pass 2, the results of one section
  - `order.rs`: stable ordering by key (a merge sort)
  - `state.rs`: progress and results shared with the displays
  - `pipeline/local.rs`: the whole pass over a file held in memory
  - `pipeline/remote.rs`: scanning behind a writer that streams a remote source
  - `source.rs`, `args.rs`, `storage.rs`, `tui.rs`, `text.rs`: inputs, options,
    filesystem recognition, display text, decimal numbers and text helpers
- `app/` — the program around it: command line, memory maps, network and
  staging-file I/O, threads, terminal and GUI displays
- `tests/` — tests of the library

## Adding or removing sections

Edit `sections()` in `src/sections.rs`, and `registry()` beside it, which
states what `sections()` returns.
