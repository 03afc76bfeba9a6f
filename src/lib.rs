//! Regular expressions compiled to automata: a precedence-climbing parser
//! that drives a pluggable builder, character classes, a small NFA builder
//! and a DFA executor with leftmost-longest and shortest match semantics.

pub mod class;
pub mod label;
pub mod table;
pub mod matching;
pub mod dfa;
pub mod input;
pub mod grammar;
pub mod parser;
pub mod ast;
pub mod nfa;
pub mod engines;
