//! Core of a dictionary language server: session lifecycle, word
//! location, and rendering of lexical senses, with verified contracts.
pub mod config;
pub mod render;
pub mod sense;
pub mod session;
pub mod text;
pub mod unicode;
pub mod word;
