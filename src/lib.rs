//! Inline markup engine: a tokenizer and a recursive-descent tree builder that
//! turn one span of lightweight markup into a tree of emphasis, code, link and
//! footnote nodes, plus the line classifier and purifier that produce the spans.
pub mod fragment;
pub mod inline_tokens;
pub mod md_block;
pub mod md_inline;
pub mod md_line_purifier;
pub mod md_line_reader;
pub mod text;
