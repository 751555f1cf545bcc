# uzumaki

The text-editing core and command-line logic of the uzumaki desktop UI
framework, written in Verus and proved against its contracts.

## Layout

- `src/` — the verified library.
  - `text_model.rs`: a line buffer addressed by grapheme clusters, with
    selection, editing, word and line movement and key handling;
    `edit_spec.rs` and `layout.rs` hold the mathematical model its
    contracts speak of, `words.rs` the word scans, `graphemes.rs` and
    `strings.rs` the Unicode and string operations it is built from.
  - `input.rs`: the text-input widget state around a `TextModel`.
  - `clipboard.rs`: text access to the system clipboard.
  - `paths.rs`, `cli.rs`, `boot.rs`, `vfs.rs`, `release.rs`: the command
    line's decisions — lexical paths, argument routing, build and pack
    settings, release names and downloads, standalone launch directories,
    and the payload listing.
  - `laws.rs`: properties that span several operations.
- `tests/` — tests of the library on concrete values.
- `app/` — the `uzumaki` program: argument parsing with clap, files,
  processes, network and the renderer's floating-point scroll state.
