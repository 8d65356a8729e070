//! Fuzzy search for C function declarations: query parsing, type-spelling
//! normalisation, edit distance and ranking.

pub mod candidate;
pub mod distance;
pub mod include_paths;
pub mod normalise;
pub mod query;
pub mod rank;
pub mod text;
pub mod tokenizer;
