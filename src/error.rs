//! The ways in which a log line can fail to parse.
use vstd::prelude::*;

verus! {

/// A parse failure; each one aborts the scan of the whole run.
#[derive(Debug, Clone, Copy, PartialEq, Eq, Structural)]
pub enum ParseError {
    /// A bracketed line with no `]` delimiter.
    MalformedLine,
    /// A message with no `:` delimiter.
    MalformedMessage,
    /// A payload that mentions `Platform HTTP` but does not follow the request grammar.
    UnrecognizedHttpFormat,
}

} // verus!
