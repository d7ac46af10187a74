//! A verified parser and store for a section-less, INI-like configuration
//! format.
//!
//! Text is parsed line by line: blank lines, comment lines (`#` or `;`) and
//! section headers (`[...]`) are skipped; every other line must hold exactly
//! one `key = value` pair after inline comments are stripped. Keys are
//! case-folded and have their spaces removed; values are trimmed. Lookups
//! return the most recently appended entry for a key, so loading a second
//! text overrides the first where keys collide.

pub mod chars;
pub mod config;
pub mod laws;
pub mod parse;
pub mod strings;

pub use config::Config;
pub use config::ConfigError;
