use vstd::prelude::*;

verus! {

/// What the vault reports when it refuses an operation.
#[derive(Clone, Copy, Debug, PartialEq, Eq, Structural)]
pub enum VaultError {
    /// The transform key holds no bytes.
    InvalidKey,
}

} // verus!
