//! The errors of transforming text, writing output and talking to a multiplexer.

use vstd::prelude::*;

verus! {

#[verifier::external_type_specification]
#[verifier::external_body]
pub struct ExRegexError(regex::Error);

#[verifier::external_type_specification]
#[verifier::external_body]
pub struct ExIoError(std::io::Error);

#[verifier::external_type_specification]
#[verifier::external_body]
pub struct ExFromUtf8Error(std::string::FromUtf8Error);

/// A transformer could not run: one of its patterns was refused.
#[derive(Debug)]
pub enum TransformerError {
    Regex(regex::Error),
}

/// Writing the cleaned text to a target failed.
#[derive(Debug)]
pub enum OutputError {
    Clipboard(String),
    Io(std::io::Error),
    Multiplexer(MultiplexerError),
}

/// A tmux or screen command failed.
#[derive(Debug)]
pub enum MultiplexerError {
    Io(std::io::Error),
    CommandFailed(String),
    NotInSession,
    Utf8(std::string::FromUtf8Error),
}

} // verus!
