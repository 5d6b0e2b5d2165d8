//! What can go wrong while a record is decoded or encoded.

use vstd::prelude::*;

verus! {

/// An error of the library. Each variant names the step that failed and
/// carries that step's own description of the failure.
#[derive(Debug, Clone)]
pub enum Error {
    /// A record could not be written as a line.
    Csv(String),
    /// A line could not be split into fields.
    QuickCsv(String),
    /// The first field is not a timestamp.
    ChronoParse(String),
    /// The second field is not an encoded message, or a message could not
    /// be encoded.
    SerdeJson(String),
    /// A field or a line is not valid UTF-8.
    Utf8(String),
    /// Any other failure.
    String(String),
}

impl Error {
    /// The description that the error carries.
    pub open spec fn text(self) -> Seq<char> {
        match self {
            Error::Csv(m) => m@,
            Error::QuickCsv(m) => m@,
            Error::ChronoParse(m) => m@,
            Error::SerdeJson(m) => m@,
            Error::Utf8(m) => m@,
            Error::String(m) => m@,
        }
    }

    /// The description that the error carries.
    pub fn message(&self) -> (m: &str)
        ensures
            m@ == self.text(),
    {
        match self {
            Error::Csv(m) => m.as_str(),
            Error::QuickCsv(m) => m.as_str(),
            Error::ChronoParse(m) => m.as_str(),
            Error::SerdeJson(m) => m.as_str(),
            Error::Utf8(m) => m.as_str(),
            Error::String(m) => m.as_str(),
        }
    }
}

/// An error that carries `s` as its description.
pub fn from_str(s: &str) -> (e: Error)
    ensures
        e matches Error::String(m) && m@ == s@,
{
    Error::String(s.to_owned())
}

} // verus!
