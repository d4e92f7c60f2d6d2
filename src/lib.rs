// Deployment of identity modules and the DID registry of an identity vault.
pub mod deployer;
pub mod did;
pub mod error;
pub mod pairs;
