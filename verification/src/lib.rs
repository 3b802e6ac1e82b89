//! Cleaning of text copied out of a terminal: ANSI escapes, line-number
//! gutters, hard wraps, indentation, trailing blanks and bare prompts.

pub mod config;
pub mod debug_log;
pub mod error;
pub mod input;
pub mod multiplexer;
pub mod output;
pub mod pattern;
pub mod process_tree;
pub mod processor;
pub mod text;
pub mod transformer;
