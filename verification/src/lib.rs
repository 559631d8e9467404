//! A minimal interactive command launcher library.
//!
//! The library holds the verified logic of a small read-parse-spawn loop:
//! splitting an input line on whitespace into a command token and argument
//! tokens, trimming surrounding whitespace, recognising the exit keyword,
//! detecting the background marker `&` among the arguments, and building the
//! announcement printed for a background launch. The surrounding program
//! performs the actual reading, spawning and waiting.

pub mod digits;
pub mod parse;
pub mod repl;
pub mod text;
