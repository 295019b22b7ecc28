use vstd::prelude::*;

verus! {

/// What went wrong.
#[derive(Clone, Copy, Debug, PartialEq, Eq, Structural)]
pub enum ErrorKind {
    /// A byte range reached past the end of the data it was applied to.
    Bounds,
    /// The bytes cannot be read as the declared type of an attribute.
    Cast,
    /// A worker gave up on a layer.
    Decode,
    /// A module could not be loaded.
    Load,
    /// A queue was closed or a thread was lost.
    Shutdown,
}

/// An error with a description for the reader.
#[derive(Clone, Debug)]
pub struct Error {
    kind: ErrorKind,
    description: String,
}

impl Error {
    /// The kind of the error.
    pub closed spec fn spec_kind(&self) -> ErrorKind {
        self.kind
    }

    /// The text of the error.
    pub closed spec fn spec_description(&self) -> Seq<char> {
        self.description@
    }

    /// A decode error with the given description.
    pub fn new(description: &str) -> (e: Error)
        ensures
            e.spec_kind() == ErrorKind::Decode,
            e.spec_description() == description@,
    {
        Error { kind: ErrorKind::Decode, description: description.to_owned() }
    }

    /// An error of the given kind.
    pub fn with_kind(kind: ErrorKind, description: &str) -> (e: Error)
        ensures
            e.spec_kind() == kind,
            e.spec_description() == description@,
    {
        Error { kind, description: description.to_owned() }
    }

    /// The error of a byte access out of range.
    pub fn out_of_bounds() -> (e: Error)
        ensures
            e.spec_kind() == ErrorKind::Bounds,
            e.spec_description() == "out of bounds"@,
    {
        Error { kind: ErrorKind::Bounds, description: "out of bounds".to_owned() }
    }

    /// The error of bytes that do not hold a value of the wanted type.
    pub fn wrong_type() -> (e: Error)
        ensures
            e.spec_kind() == ErrorKind::Cast,
            e.spec_description() == "wrong type"@,
    {
        Error { kind: ErrorKind::Cast, description: "wrong type".to_owned() }
    }

    #[verifier::when_used_as_spec(spec_kind)]
    pub fn kind(&self) -> (k: ErrorKind)
        ensures
            k == self.spec_kind(),
    {
        self.kind
    }

    pub fn description(&self) -> (s: &str)
        ensures
            s@ == self.spec_description(),
    {
        self.description.as_str()
    }
}

} // verus!
