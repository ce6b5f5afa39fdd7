//! Chess puzzle generation core: notation validation, engine protocol
//! handling, and blunder-based puzzle selection.

pub mod board;
pub mod engine;
pub mod notation;
pub mod pgn;
pub mod puzzle;
pub mod selector;
pub mod text;
pub mod validate;
