//! Channel and version lifecycle engine of a runtime version manager.
//!
//! The crate keeps the record of installed builds and channels, decides what
//! an install, an update or a garbage collection has to do, and checks
//! archive entries before they are unpacked.  Everything that touches the
//! network or the disk is left to the caller, who hands in plain values and
//! carries out the actions that the engine returns.

pub mod string_map;
pub mod error;
pub mod versions_db;
pub mod config_file;
pub mod operations;
pub mod command_update;
pub mod command_add;
pub mod command_default;
pub mod paths;
pub mod archive;
