//! Inline markup parsing and selection layout for a plain-text editor.
pub mod document;
pub mod grammar;
pub mod round_trip;
pub mod layout;
pub mod storage;
