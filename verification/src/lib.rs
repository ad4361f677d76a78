//! A glosser for constructed languages: a small lexicon with inflection, and a
//! sound-change engine that rewrites a word through an ordered cascade of
//! context-sensitive rules.

pub mod category;
pub mod codec;
pub mod error;
pub mod lex;
pub mod pattern;
pub mod phon;
pub mod rewrite;
pub mod rule;
pub mod table;
pub mod text;
