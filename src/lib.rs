//! Lexical scanner for spreadsheet-style formulas, with a batch planner and
//! a compact structural byte encoding of token streams.

pub mod token;
pub mod cursor;
pub mod grammar;
pub mod number;
pub mod scanner;
pub mod encoder;
pub mod batch;
pub mod laws;
pub mod universe;

pub use token::{Token, TokenType};
pub use cursor::TokenizingChars;
pub use number::NumberPattern;
pub use scanner::{tokenize, tokenize_with};
pub use encoder::encode_tokens_to_bytes;
pub use batch::{chunk_ranges, join_chunks, tokenize_range, DEFAULT_WORKERS};
pub use universe::{Universe, WasmUniverse};
