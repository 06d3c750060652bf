# dlt_grep

A regular-expression search through DLT (Diagnostic Log and Trace) files,
with its logic verified by Verus.

- `src/` is the verified library: the model of a parsed message
  (`message.rs`), its one-line rendering (`format.rs`, with decimal, padded and
  hexadecimal text in `text.rs` and the UTC calendar in `calendar.rs`), the
  search pattern (`pattern.rs`, the `regex` crate behind a few trusted
  wrappers), the per-file scan (`scan.rs`), the order of matches and its merge
  sort (`order.rs`, `sort.rs`), the rendering of output lines (`output.rs`)
  and the layout of the results of several files (`layout.rs`).
- `app/` is the `dg` program: argument parsing, walking directories, opening
  (and decompressing) files, reading messages with `dlt_core`, running files
  in parallel and printing.
- `tests/` exercises the library on concrete values.
