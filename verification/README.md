# slint-terminal

A terminal with tabs. The library under `src/` decides; the program under `app/`
runs the emulator, the shells and the window, and draws.

Every item of the library is verified with [Verus](https://github.com/verus-lang/verus).

- `src/terminal/`: keys, mouse and pastes as bytes for the program, the frames of
  changed cells, the mailbox between a worker and the window, search, SSH.
- `src/renderer/`: the cells that are kept for drawing, what has to be drawn anew,
  runs of text and their clusters, the pages that hold glyphs.
- `src/app/`: tabs, shortcuts, the settings with their checks, and what the window
  asks of them.
- `src/text.rs`, `src/ordering.rs`: text and stable sorting.

What holds of several functions together is stated as a public proof function
beside them. For example: a partial frame leaves the screen as a full one would
(`renderer/incremental.rs`), a paste cannot close its brackets from inside
(`terminal/backend.rs`), and settings that were accepted stay accepted
(`app/settings/stability.rs`).

`app/` needs a backend of Slint for the machine it runs on.
