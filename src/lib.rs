//! A scanner for the compact tool-call notation: `call`, braces, brackets,
//! numbers, literals, identifiers and strings delimited by escape markers.
pub mod grammar;
pub mod laws;
pub mod lexer;
pub mod token;
