//! A tic-tac-toe game for a bare-metal text-mode console: the board and its
//! rules, the turn loop's decisions, the keyboard-to-move mapping and the
//! VGA text-buffer renderers, verified. Scancode decoding itself is done by
//! the `pc-keyboard` crate, whose behaviour the keyboard module states and
//! trusts.

pub mod game;
pub mod interrupts;
pub mod vga;
pub mod vga_buffer;
