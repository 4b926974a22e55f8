//! Template compilation for RsHtml: a verified template grammar that turns
//! `.rs.html` sources into an intermediate code description, plus the
//! naming, hashing and diagnostic helpers that surround it.

pub mod ast;
pub mod classes;
pub mod compile;
pub mod code;
pub mod context;
pub mod counting;
pub mod derive;
pub mod diagnostics;
pub mod directives;
pub mod escaping;
pub mod grammar;
pub mod inline_stmt;
pub mod lexer;
pub mod markup;
pub mod names;
pub mod order;
pub mod outcome;
pub mod rust_code;
pub mod syntax;
pub mod template;
pub mod text;
pub mod tokens;
pub mod view_file;
