//! Conway's Game of Life on a small torus, drawn on a terminal with ANSI
//! escape sequences.
//!
//! * [`torus`]: coordinates, wrap-around and the eight neighbours of a cell.
//! * [`life`]: the rule of the game and the step to the next generation.
//! * [`ansi`]: the character sequences that move the cursor, clear the
//!   screen, and draw cells and the border.
//! * [`render`]: frames, which turn a screen that shows one generation into
//!   a screen that shows the next.
//! * [`game`]: a run of the game, one frame at a time.
//!
//! The library writes into buffers and keeps no clock. The program around
//! it writes the buffers to the terminal and waits between frames.

pub mod ansi;
pub mod game;
pub mod life;
pub mod render;
pub mod torus;
