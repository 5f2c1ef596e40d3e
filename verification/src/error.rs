use vstd::prelude::*;

verus! {

/// The failures a session can end with.
///
/// `DeserializationError` is raised by the host before the navigator is ever
/// constructed, when the input document is malformed; `UnexpectedError`
/// covers failures of the terminal collaborators during a session.
#[derive(Clone, Copy, PartialEq, Eq, Structural, Debug)]
pub enum Errors {
    UnexpectedError,
    DeserializationError,
}

impl Errors {
    /// A short description of the error, for hosts that print it.
    pub fn describe(&self) -> (r: &'static str)
        ensures
            *self is UnexpectedError ==> r@ == "unexpected error"@,
            *self is DeserializationError ==> r@ == "deserialization error"@,
    {
        match self {
            Errors::UnexpectedError => "unexpected error",
            Errors::DeserializationError => "deserialization error",
        }
    }
}

} // verus!
