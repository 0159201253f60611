//! Verified core of a tool that backs up and migrates a hosted database
//! project: dump planning, secret files, vault and storage bookkeeping.

pub mod text;
pub mod secrets;
pub mod error;
pub mod numbers;
pub mod dump;
pub mod vault;
pub mod transfer;
pub mod backup;
pub mod transform;
pub mod restore;
