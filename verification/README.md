# winesmeeper

A terminal Minesweeper. The game logic is a Verus library under `src/`:

- `board`, `field`: the grid, bomb placement away from the start square,
  what each square shows, and the board's text form;
- `save`, `xml`: the XML form of a board, read and written over a plain
  element model;
- `observer`, `game`: a registry of event listeners and the calls a turn makes;
- `commands`, `tui`: the help text and the state of the terminal front end
  (modes, overlays, input line and cursor, key handling);
- `text`: decimal numbers, line splitting and string comparison;
- `random`: the draws from the `rand` crate.

`app/` holds the terminal program: it reads keys with crossterm, draws with
ratatui, and converts between `xmltree` elements and the library's element
model.
