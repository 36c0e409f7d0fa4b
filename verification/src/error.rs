use vstd::prelude::*;

verus! {

/// Everything that can go wrong while creating or reading a credential.
#[derive(Clone, Copy, Debug, PartialEq, Eq, Structural)]
pub enum AuthError {
    /// The identity already has a stored credential.
    DuplicateIdentity,
    /// The hashing primitive refused its input.
    Hashing,
    /// Stored bytes do not have the width of a digest.
    MalformedCredential,
    /// The credential store could not be reached; the caller may retry.
    Store,
}

} // verus!
