//! Token-vesting vaults: schedule arithmetic, the vault registry and its
//! lifecycle operations, and the documentation helpers used to check the
//! project's security notes.

pub mod math;
pub mod error;
pub mod curves;
pub mod vault;
pub mod registry;
pub mod contract;
pub mod docs;
pub mod grant;
