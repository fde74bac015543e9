# makepresent

The logic of MakePresent, a live presentation tool for worship services
(playlists of slides, a song library, scripture, stage display, external
triggers), as a library verified with Verus.

- `src/` is the verified library. Each public function states what it returns
  or changes in its `ensures`, over spec functions and views; the laws that
  relate several functions are public proof functions named `law_*`.
  Calls into outside crates (`uuid`, `sha2`, `quick-xml`, `rosc`) go through
  a few trusted wrappers and type declarations, each with a doc comment that
  says what is assumed of it.
- `tests/` runs the library on concrete values.
- `app/` is ordinary Rust around the library: files on disk, serde copies of
  the library's types, media tools, the log file and device input.
