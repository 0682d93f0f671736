//! Restoring the state of a pass-through file system.

pub mod deserialization;
pub mod error;
pub mod file_handle;
pub mod laws;
pub mod passthrough;
pub mod restore;
pub mod serialized;
pub mod table;
pub mod text;
