//! A small SQL-like query engine over CSV tables.
//!
//! A command (INSERT, UPDATE, DELETE or SELECT) arrives as text; the
//! tokenizer turns it into tokens, the parsers build a command
//! descriptor, and the engine applies it to the lines of a table file,
//! producing the lines to write back or to print.  File reading and
//! writing stay outside this crate: the engine works on plain values.

pub mod error;
pub mod text;
pub mod tokenizer;
pub mod value_map;
pub mod expression;
pub mod expression_parser;
pub mod command_parser;
pub mod row;
pub mod row_parser;
pub mod engine;
