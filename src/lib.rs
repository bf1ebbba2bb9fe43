//! A small interactive-fiction world whose entity descriptions are
//! templates: literal text mixed with `#`-introduced expressions that
//! query the world's state.

pub mod scanner;
pub mod text;
pub mod template;
pub mod types;
pub mod eval;
pub mod laws;
pub mod error;
pub mod command;
pub mod world;
