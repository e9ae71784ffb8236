//! Extraction of manual pages embedded in source-code comments.
//!
//! A page is announced by the start token followed by its name in braces and
//! is closed by the end token. The text in between is cleaned of comment
//! decoration line by line. All text is handled as sequences of `char`.

pub mod clean;
pub mod config;
pub mod extract;
pub mod text;
pub mod walk;
