//! An error that is nothing but its message.

use vstd::prelude::*;
use vstd::std_specs::convert::FromSpecImpl;
use vstd::string::*;
use crate::substitutions::Text;

verus! {

/// An error that carries a message and nothing else.
#[derive(Debug, Clone)]
pub struct StringError {
    message: String,
}

impl View for StringError {
    type V = Text;

    /// The message of the error.
    closed spec fn view(&self) -> Text {
        self.message@
    }
}

impl StringError {
    /// An error with the given message.
    pub fn new(message: &str) -> (error: Self)
        ensures
            error@ == message@,
    {
        StringError { message: message.to_owned() }
    }

    /// The message of the error.
    pub fn to_string(&self) -> (message: String)
        ensures
            message@ == self@,
    {
        self.message.clone()
    }
}

impl<'a> From<&'a str> for StringError {
    /// An error with the given message.
    fn from(message: &'a str) -> (error: Self)
        ensures
            error@ == message@,
    {
        StringError { message: message.to_owned() }
    }
}

impl<'a> FromSpecImpl<&'a str> for StringError {
    open spec fn obeys_from_spec() -> bool {
        false
    }

    open spec fn from_spec(message: &'a str) -> Self {
        arbitrary()
    }
}

impl From<String> for StringError {
    /// An error with the given message.
    fn from(message: String) -> (error: Self)
        ensures
            error@ == message@,
    {
        StringError { message }
    }
}

impl FromSpecImpl<String> for StringError {
    open spec fn obeys_from_spec() -> bool {
        false
    }

    open spec fn from_spec(message: String) -> Self {
        arbitrary()
    }
}

} // verus!
