use vstd::prelude::*;

verus! {

/// The stage of a call at which a failure arose.
#[derive(Clone, Copy, PartialEq, Eq, Structural, Debug)]
pub enum ErrorKind {
    /// The runtime environment or a collaborator of it failed: engine
    /// initialization, or the persistence layer refusing to store a
    /// compiled artifact.
    EnvironmentSetup,
    /// The module bytes could not be compiled.
    Compile,
    /// The module could not be instantiated against its imports, or its
    /// memory could not be grown or addressed.
    Instantiation,
    /// The guest entry point did not conform to the calling convention.
    CallProtocol,
    /// The guest's output bytes could not be decoded.
    Serialization,
    /// The decoded envelope carried an error reported by the guest itself.
    GuestReported,
}

/// A typed failure carrying a human-readable description.
#[derive(Debug)]
pub struct Error {
    pub kind: ErrorKind,
    pub description: String,
}

impl Error {
    /// Builds a failure of the given kind from its description.
    pub fn new(kind: ErrorKind, description: String) -> (r: Error)
        ensures
            r.kind == kind,
            r.description@ == description@,
    {
        Error { kind, description }
    }

    /// The stage of the call at which this failure arose.
    pub fn kind(&self) -> (k: ErrorKind)
        ensures
            k == self.kind,
    {
        self.kind
    }

    /// The human-readable description, for callers that render failures.
    pub fn message(&self) -> (m: &String)
        ensures
            m@ == self.description@,
    {
        &self.description
    }
}

} // verus!
