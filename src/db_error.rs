//! The error type of the storage layer.
use vstd::prelude::*;
use vstd::string::*;

verus! {

/// A storage failure.
///
/// Each variant holds the failure's own message. What caused it is held as
/// the cause's debug text, exactly as `{:?}` renders that cause (a string
/// cause in double quotes, with Rust's escapes). An I/O failure is its own
/// cause: it holds its message and its debug text.
pub enum Error {
    BackendError(String, Option<String>),
    IoError(String, String),
    Other(String, Option<String>),
}

impl Error {
    pub open spec fn spec_description(&self) -> Seq<char> {
        match self {
            Error::BackendError(s, _) => s@,
            Error::IoError(s, _) => s@,
            Error::Other(s, _) => s@,
        }
    }

    pub open spec fn spec_cause(&self) -> Option<Seq<char>> {
        match self {
            Error::BackendError(_, Some(c)) => Some(c@),
            Error::IoError(_, d) => Some(d@),
            Error::Other(_, Some(c)) => Some(c@),
            _ => None,
        }
    }

    /// The message of the error itself.
    pub fn description(&self) -> (r: &str)
        ensures
            r@ == self.spec_description(),
    {
        match self {
            Error::BackendError(s, _) => s.as_str(),
            Error::IoError(s, _) => s.as_str(),
            Error::Other(s, _) => s.as_str(),
        }
    }

    /// The debug text of what caused it: an I/O error is its own cause.
    pub fn cause(&self) -> (r: Option<&str>)
        ensures
            match r {
                Some(c) => self.spec_cause() == Some(c@),
                None => self.spec_cause() is None,
            },
    {
        match self {
            Error::BackendError(_, Some(c)) => Some(c.as_str()),
            Error::IoError(_, d) => Some(d.as_str()),
            Error::Other(_, Some(c)) => Some(c.as_str()),
            _ => None,
        }
    }

    /// The full text: `database error: <description>`, then on a new line
    /// `caused by: ` and the cause as `{:?}` renders an optional cause:
    /// `None`, or `Some(<debug text of the cause>)`.
    pub fn to_string(&self) -> (r: String)
        ensures
            r@ == "database error: "@ + self.spec_description() + "\ncaused by: "@ + match self.spec_cause() {
                Some(c) => "Some("@ + c + ")"@,
                None => "None"@,
            },
    {
        let mut r = String::from_str("database error: ");
        r.append(self.description());
        r.append("\ncaused by: ");
        match self.cause() {
            Some(c) => {
                r.append("Some(");
                r.append(c);
                r.append(")");
            },
            None => r.append("None"),
        }
        r
    }
}

} // verus!
