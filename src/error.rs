use vstd::prelude::*;

verus! {

/// The ways in which an operation of the registry or of the deployer fails.
#[derive(Clone, Copy, Debug, PartialEq, Eq, Structural)]
pub enum ContractError {
    /// The DID set would have been seeded with no identifier.
    EmptyDIDs,
    /// The deploying identity did not authorize the call.
    Unauthorized,
    /// An instance already lives at the derived address.
    AlreadyDeployed,
    /// No module with the given identifier was uploaded.
    ModuleNotFound,
    /// The constructor of the new instance reported a failure.
    ConstructorFailed,
}

} // verus!
