//! The errors that end a call of the account or of the registry.

use vstd::prelude::*;

verus! {

/// Why a call failed. Every error is terminal for the call in which it
/// occurs: the state the call was given is left as it was.
#[derive(Copy, Clone, Debug, PartialEq, Eq, Structural)]
pub enum Error {
    /// The entity was initialized before.
    AlreadyInitialized,
    /// The entity is used before it was initialized.
    NotInitialized,
    /// The asset, key or id is unknown.
    NotFound,
    /// The current owner of the asset has not authorized the call.
    Authorization,
    /// An account is already recorded under this key.
    DuplicateDeployment,
    /// A counter is exhausted.
    Overflow,
}

} // verus!
