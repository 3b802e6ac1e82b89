# yfix

Clean and copy terminal text: ANSI escapes, line-number gutters, hard
wraps, common indentation, trailing blanks and bare shell prompts are
removed, and the result goes to the clipboard, a multiplexer buffer,
OSC 52 or standard output.

## Layout

- `src/` is the library, written in Verus. Every transformer is stated
  over a model of the text as a sequence of lines (`text.rs`), and the
  executable code is proved to compute that model. Proof functions named
  `lemma_*` state the properties that hold across inputs (no run of three
  blank lines survives compression, no bare prompt survives prompt
  stripping, and so on).
- `src/output/` decides where the text goes for a detected environment;
  `src/input.rs` decides where the text and the wrap width come from;
  `src/debug_log.rs` builds and rewrites the entries of the debug log.
- Calls into `anstream`, `regex`, `unicode-width` and `base64` are made
  through small trusted wrappers whose contracts say what the library
  relies on.
- `app/` is the command-line program: argument parsing, configuration and
  log files, process and terminal queries, and delivery to the targets.
- `tests/` runs the library on concrete inputs.
