//! A small relational table engine: typed fixed-width schemas, a row-oriented
//! append-only byte store, and a SQL-subset query pipeline (lexer, parser,
//! resolver, executor) evaluated directly over row bytes.

pub mod bytes;
pub mod db;
pub mod lex;
pub mod numtext;
pub mod parse;
pub mod query;
pub mod schema;
pub mod store;
pub mod text;
pub mod uuidtext;
