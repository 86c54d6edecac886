use vstd::prelude::*;

verus! {

/// Error type for Nix serialisation.
///
/// The encoder itself is total on well-typed [`crate::Value`] trees, so
/// [`crate::encode`] always returns `Ok`; this type carries failures that
/// arise on the boundary where host values describe themselves to the
/// encoder (a reflection step failing, or a raw-expression payload that is
/// not text).
#[derive(Debug, Clone, PartialEq, Eq)]
pub enum Error {
    Message(String),
}

impl Error {
    /// The message carried by this error.
    pub fn message(&self) -> (r: &str)
        ensures
            r@ == self.spec_message(),
    {
        match self {
            Error::Message(m) => m.as_str(),
        }
    }

    /// The message carried by this error, as a sequence of characters.
    pub open spec fn spec_message(&self) -> Seq<char> {
        match self {
            Error::Message(m) => m@,
        }
    }
}

} // verus!
