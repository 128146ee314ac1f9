use vstd::prelude::*;

verus! {

/// Ways in which parsing a request can fail.
#[derive(Debug, Clone, Copy, PartialEq, Eq, Structural)]
pub enum Error {
    /// The method word is not one of `GET`, `SET`, `ADJ`. For example "FETCH x".
    UnknownRequestType,
    /// The value is present but does not follow the method's grammar.
    /// For example "GET shoesize".
    InvalidValue,
    /// A known method word with no value portion. For example "SET".
    MissingValue,
    /// The request is empty.
    Empty,
}

impl Error {
    /// The one-line, human-readable message of each error.
    pub open spec fn spec_message(self) -> Seq<char> {
        match self {
            Error::Empty => "empty request"@,
            Error::UnknownRequestType => "unknown request type"@,
            Error::InvalidValue => "invalid value"@,
            Error::MissingValue => "missing value"@,
        }
    }

    /// A short, stable, lower-case message describing the error.
    pub fn message(&self) -> (r: &'static str)
        ensures
            r@ == self.spec_message(),
    {
        match self {
            Error::Empty => "empty request",
            Error::UnknownRequestType => "unknown request type",
            Error::InvalidValue => "invalid value",
            Error::MissingValue => "missing value",
        }
    }

    /// The message as an owned `String`.
    pub fn to_string(&self) -> (r: String)
        ensures
            r@ == self.spec_message(),
    {
        String::from_str(self.message())
    }
}

} // verus!
