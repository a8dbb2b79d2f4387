//! Parsers for a small imperative language with references and heap
//! allocation, working on a stream of tokens.
pub mod ast;
pub mod dispatch;
pub mod embedding;
pub mod grammar;
pub mod laws;
pub mod parser;
pub mod printing;
pub mod token;
