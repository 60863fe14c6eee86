//! The ways in which an engine operation can fail.

use vstd::prelude::*;

verus! {

/// Why an operation was refused or given up.
#[derive(Clone, Copy, Debug, PartialEq, Eq, Structural)]
pub enum EngineError {
    /// The configuration record could not be read or written.
    ConfigIO,
    /// The configuration record exists but cannot be parsed.
    ConfigCorrupt,
    /// The version catalog could not be fetched or parsed.
    CatalogIO,
    /// The catalog has no download location for the version.
    CatalogEntryMissing,
    /// The catalog does not list the channel.
    CatalogChannelMissing,
    /// The channel is not among the installed channels.
    ChannelNotInstalled,
    /// The channel is already among the installed channels.
    ChannelAlreadyInstalled,
    /// A linked channel was asked to change.
    LinkedChannelImmutable,
    /// An archive entry's path is not a plain relative path.
    UnsafeArchiveEntry,
    /// A directory, archive or alias operation failed.
    FileSystemError,
}

} // verus!
