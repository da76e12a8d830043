# robotfindskitten

A verified library for the game robotfindskitten: robot (`#`) wanders a
board of items looking for kitten; touching an item shows its description,
touching kitten wins, Escape quits.

- `src/board.rs` — the board, its abstract state `BoardState`, placement of
  robot and items (`Board::new`, `Board::new_location`) and the step function
  (`Board::attempt_move`, `Board::handle_input`).
- `src/laws.rs` — properties of every game, proved over `BoardState`.
- `src/screen.rs`, `src/console.rs` — what the curses screen and the Windows
  console buffer show.
- `src/input.rs`, `src/phrases.rs` — key codes and item files.
- `src/rng.rs` — the calls into the `rand` crate.
- `app/` — the terminal program: argument handling, files, curses/console
  I/O and the main loop.
