//! A fake terminal drawn inside a desktop window: typed-out messages, ascii art
//! and line input. This crate holds the terminal's logic: text reflow into a
//! character grid, the blink timer, color brightness and art placement.

/// Colors and their perceived brightness.
pub mod color;

/// The blink timer of the cursor and prompts.
pub mod flash;

/// Word splitting and line reflow.
pub mod text;

/// Where art and text go in the window.
pub mod layout;

/// The terminal's state and how events change it.
pub mod terminal;
