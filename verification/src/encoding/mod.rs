//! Encodings of nested layouts.
pub mod nested;
