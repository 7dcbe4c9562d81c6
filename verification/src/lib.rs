//! A full-screen terminal countdown timer, split into a verified core and a
//! thin terminal shell.
//!
//! The core converts a remaining-second count into decimal digit sequences,
//! chooses between a horizontal and a vertical arrangement of the ASCII-art
//! digit blocks for the current terminal size, and renders one frame as a list
//! of positioned line writes. The shell owns the terminal: it polls events,
//! feeds them to the verified loop step, and executes the frames.

pub mod clock;
pub mod engine;
pub mod glyphs;
pub mod layout;
pub mod render;
