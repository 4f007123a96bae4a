//! A front end and evaluator for a small nested-tag scripting notation in which
//! every construct has the shape `[left : right]`.
//!
//! The pipeline is: characters -> tokens ([`lexer`]) -> one root tag tree
//! ([`streaming_parser`]) -> a final value and a global store ([`evaluator`]).
pub mod chars;
pub mod tag;
pub mod lexer;
pub mod streaming_parser;
pub mod name_map;
pub mod evaluator;
