//! A compiler for a small line-oriented language: each source line declares a
//! typed variable, exits with a status code, prints a value, or names an
//! arithmetic statement that is accepted but not lowered. The pipeline has two
//! stages: `tokenizer` turns the whole source text into an ordered sequence of
//! statement tokens, and `parser` turns that sequence into textual x86-64
//! assembly with a static data section and a code section.

pub mod laws;
pub mod parser;
pub mod text;
pub mod tokenizer;
pub mod utilities;
