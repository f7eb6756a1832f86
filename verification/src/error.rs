use vstd::prelude::*;

verus! {

/// The library's error: an unhandled failure, carrying the text of its source.
#[derive(Debug)]
pub enum Error {
    Unhandled(String),
}

impl Error {
    /// Wraps a source failure, given by its message, as an unhandled error.
    pub fn unhandled(source: String) -> (e: Error)
        ensures
            e == Error::Unhandled(source),
    {
        Error::Unhandled(source)
    }

    /// The text the error displays: every unhandled error shows as "unhandled error".
    pub fn display_text(&self) -> (s: String)
        ensures
            s@ == unhandled_text(),
    {
        let s = String::from_str("unhandled error");
        proof {
            reveal_strlit("unhandled error");
        }
        s
    }

    /// The message of the failure this error wraps.
    pub fn source_message(&self) -> (s: &String)
        ensures
            *s == match *self {
                Error::Unhandled(m) => m,
            },
    {
        match self {
            Error::Unhandled(m) => m,
        }
    }
}

/// What every error of the library displays.
pub open spec fn unhandled_text() -> Seq<char> {
    "unhandled error"@
}

} // verus!
