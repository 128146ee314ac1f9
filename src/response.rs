use vstd::prelude::*;

use crate::error::Error;

verus! {

/// A reply to a request: a success payload, or the error that ended it.
#[derive(Debug, Clone, PartialEq, Eq)]
pub enum Response {
    Success(String),
    Failure(Error),
}

impl Response {
    /// The numeric status of the reply: `0` for success, `1` for an error.
    pub open spec fn spec_code(&self) -> u8 {
        match self {
            Response::Success(_) => 0,
            Response::Failure(_) => 1,
        }
    }

    pub fn code(&self) -> (r: u8)
        ensures
            r == self.spec_code(),
    {
        match self {
            Response::Success(_) => 0,
            Response::Failure(_) => 1,
        }
    }
}

} // verus!
