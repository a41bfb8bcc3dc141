# tictactoe

A tic-tac-toe game for a bare-metal x86 text-mode console, with its logic
verified by Verus.

- `src/game/` — moves and players (`event.rs`), the board, its rules and
  the winning lines (`table.rs`), and one round of the turn loop
  (`mod.rs`), with the laws that every round keeps: turns alternate, marks
  stay, wins stay.
- `src/vga/` — the 80x25 console the game is drawn on: cursor, line breaks,
  scrolling, and the drawing of the board, the strike through a winning
  line, the errors and the winner.
- `src/vga_buffer.rs` — a DOS-style prompt that writes on the bottom line.
- `src/interrupts/keyboard.rs` — keyboard scancodes to moves, through the
  `pc-keyboard` decoder.
- `app/` — the program around the library: it shows the screen on a
  terminal, turns typed digits into scancodes, and runs the turn loop.
