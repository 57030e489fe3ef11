//! A small web-page indexer core: an HTML lexer and recursive-descent parser,
//! a plain-text extractor, a crawl-queue engine, and a fuzzy line matcher
//! based on sliding-window edit distance.

pub mod engine;
pub mod extract;
pub mod lexer;
pub mod matcher;
pub mod parser;
pub mod text;
