//! The error value shared by the four stages: scanner, parser, resolver and
//! interpreter.
use vstd::prelude::*;
use vstd::string::StringExecFns;

verus! {

/// An error of one of the four stages: what kind it is, the message, and the
/// source line where one is known.
#[derive(Clone, Debug, PartialEq)]
pub struct Error {
    pub kind: String,
    pub msg: String,
    pub line: Option<usize>,
}

/// The mathematical content of an [`Error`].
pub struct ErrorModel {
    pub kind: Seq<char>,
    pub msg: Seq<char>,
    pub line: Option<usize>,
}

impl View for Error {
    type V = ErrorModel;

    open spec fn view(&self) -> ErrorModel {
        ErrorModel { kind: self.kind@, msg: self.msg@, line: self.line }
    }
}

/// An error of the scanner at `line`.
pub open spec fn scan_error(msg: Seq<char>, line: usize) -> ErrorModel {
    ErrorModel { kind: "scan error"@, msg, line: Some(line) }
}

/// An error of the parser at `line`.
pub open spec fn parse_error(msg: Seq<char>, line: usize) -> ErrorModel {
    ErrorModel { kind: "parse error"@, msg, line: Some(line) }
}

/// An error of the resolver; `line` is the line of the offending token.
pub open spec fn resolve_error(msg: Seq<char>, line: usize) -> ErrorModel {
    ErrorModel { kind: "resolve error"@, msg, line: Some(line) }
}

/// An error raised while a program runs; `line` is the line of the token
/// nearest to the failing construct, where there is one.
pub open spec fn runtime_error(msg: Seq<char>, line: Option<usize>) -> ErrorModel {
    ErrorModel { kind: "runtime error"@, msg, line }
}

impl Error {
    pub fn scan(msg: String, line: usize) -> (e: Error)
        ensures
            e@ == scan_error(msg@, line),
    {
        Error { kind: String::from_str("scan error"), msg, line: Some(line) }
    }

    pub fn parse(msg: String, line: usize) -> (e: Error)
        ensures
            e@ == parse_error(msg@, line),
    {
        Error { kind: String::from_str("parse error"), msg, line: Some(line) }
    }

    pub fn resolve(msg: String, line: usize) -> (e: Error)
        ensures
            e@ == resolve_error(msg@, line),
    {
        Error { kind: String::from_str("resolve error"), msg, line: Some(line) }
    }

    pub fn runtime(msg: String, line: Option<usize>) -> (e: Error)
        ensures
            e@ == runtime_error(msg@, line),
    {
        Error { kind: String::from_str("runtime error"), msg, line }
    }

    /// The text shown for this error: its message.
    pub fn to_string(&self) -> (s: String)
        ensures
            s@ == self.msg@,
    {
        self.msg.clone()
    }

    /// A copy of this error.
    pub fn duplicate(&self) -> (e: Error)
        ensures
            e@ == self@,
    {
        Error { kind: self.kind.clone(), msg: self.msg.clone(), line: self.line }
    }
}

} // verus!
