use vstd::prelude::*;

verus! {

/// Why an operation of the transfer core did not succeed.
#[derive(Debug, Clone, PartialEq, Eq)]
pub enum SyncError {
    /// The store reported no object group at all under the queried prefix.
    EmptyBucket,
    /// The store listed an object whose metadata could not be read (its key is kept).
    MalformedListing(String),
    /// A failure in the network or store protocol layer.
    RemoteTransport(String),
    /// A local file could not be found, opened, created or written.
    LocalIo(String),
    /// An archive could not be read.
    ArchiveRead(String),
    /// An archive could not be written.
    ArchiveWrite(String),
    /// An operation was asked to send no file at all.
    NoFiles,
    /// Two files of one bundle share a display name (the name is kept).
    DuplicateName(String),
}

} // verus!
