//! Update and configuration-integrity subsystem.
//!
//! The library discovers new software versions, verifies update payloads
//! against their manifest digests, tracks update history, and protects
//! persisted configuration through a backup/restore vault.  All decision
//! logic lives here, verified; the surrounding process performs the
//! network and filesystem effects that the contracts describe.

pub mod clock;
pub mod config_vault;
pub mod digest;
pub mod errors;
pub mod history;
pub mod slot;
pub mod text;
pub mod update_config;
pub mod updater;

pub use errors::UpdateError;
