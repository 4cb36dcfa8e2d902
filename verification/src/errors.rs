//! The closed set of failures the pipeline can report. Grammar failures are
//! raised by the parser itself; file failures are constructed by the caller
//! that performs the I/O, with the path and the underlying cause rendered as
//! text; token failures come from the command tokenizer.

use vstd::prelude::*;
use crate::tokenizer::TokenErr;

verus! {

/// Why a file could not be used.
#[derive(Debug, PartialEq, Eq)]
pub enum FileErr {
    /// No path for the backing file could be resolved.
    Path,
    /// A file could not be opened: the path and the cause.
    Open(String, String),
    /// The backing file could not be written: the path and the cause.
    Write(String, String),
}

/// The mathematical shape of a file failure.
pub enum FileErrSpec {
    Path,
    Open(Seq<char>, Seq<char>),
    Write(Seq<char>, Seq<char>),
}

impl View for FileErr {
    type V = FileErrSpec;

    open spec fn view(&self) -> FileErrSpec {
        match self {
            FileErr::Path => FileErrSpec::Path,
            FileErr::Open(p, c) => FileErrSpec::Open(p@, c@),
            FileErr::Write(p, c) => FileErrSpec::Write(p@, c@),
        }
    }
}

/// Everything that can make the pipeline abort.
#[derive(Debug, PartialEq, Eq)]
pub enum ParseErr {
    /// The argument vector was empty.
    NoArguments,
    /// `-j` or `--jobs` stood last, with no value following it.
    JobsNoValue,
    /// A job-count value was neither an integer nor an integer ending in
    /// `%`: the offending token.
    Jobs(String),
    /// An unknown option, or a bare `-`: the offending token.
    InvalidArgument(String),
    /// A file failure, tagged with path and cause.
    File(FileErr),
    /// A malformed placeholder in the command template.
    Token(TokenErr),
}

/// The mathematical shape of a pipeline failure.
pub enum ParseErrSpec {
    NoArguments,
    JobsNoValue,
    Jobs(Seq<char>),
    InvalidArgument(Seq<char>),
    File(FileErrSpec),
    Token(int),
}

impl View for ParseErr {
    type V = ParseErrSpec;

    open spec fn view(&self) -> ParseErrSpec {
        match self {
            ParseErr::NoArguments => ParseErrSpec::NoArguments,
            ParseErr::JobsNoValue => ParseErrSpec::JobsNoValue,
            ParseErr::Jobs(t) => ParseErrSpec::Jobs(t@),
            ParseErr::InvalidArgument(t) => ParseErrSpec::InvalidArgument(t@),
            ParseErr::File(f) => ParseErrSpec::File(f@),
            ParseErr::Token(e) => ParseErrSpec::Token(e.pos as int),
        }
    }
}

} // verus!
