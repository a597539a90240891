//! Front end of a small command-oriented scripting language.
//!
//! The lexer (`tokenizer`) turns raw source text into a sequence of
//! classified tokens; the grammar parser (`parser`) turns raw source text
//! into an abstract syntax tree of one module invocation plus trailing
//! signatures; the minimal front end (`command`) knows the `say`
//! command alone.  Around that core stand the small standard-library
//! modules the language offers to scripts — lists, text, HTTP response
//! handling — and the command-line modifier clauses.

pub mod chars;
pub mod token;
pub mod tokenizer;
pub mod laws;
pub mod ast;
pub mod scan;
pub mod parser;
pub mod modifier;
pub mod list;
pub mod text;
pub mod command;
pub mod http;
