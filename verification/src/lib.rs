//! Token counting, encoding and decoding for the OpenAI encodings.
//!
//! The library resolves model names to encodings, reads `.tiktoken`
//! vocabulary files, builds each encoding's decoder and ordered list of
//! special tokens, checks text for special tokens before encoding it,
//! finds the special tokens that stand for themselves, and decodes tokens
//! back to text. The ordinary text between special tokens is tokenized by
//! the `tiktoken` crate.

pub mod text;
pub mod pairs;
pub mod number;
pub mod rank_map;
pub mod registry;
pub mod special_tokens;
pub mod special;
pub mod vocab;
pub mod encoding;
pub mod scanner;
pub mod cache;
pub mod calls;
pub mod output;
pub mod laws;
