//! A parser for localization-resource source text.
//!
//! Source text such as `greeting = Hello` binds identifiers to pattern
//! values.  A value is either written on the identifier's own line, inside
//! double quotes, or spread over several continuation lines that each begin
//! with `|`.  [`parse::Parser::parse`] turns a whole source text into the
//! ordered list of entries it declares, or reports the first syntax error.
//!
//! The grammar itself is written down as spec functions over sequences of
//! characters in [`grammar`]; the executable parser is proved to return
//! exactly what those functions describe, and [`laws`] derives the
//! grammar-level guarantees from them.

pub mod ast;
pub mod grammar;
pub mod laws;
pub mod parse;

pub use parse::ParseError;
pub use parse::Parser;
