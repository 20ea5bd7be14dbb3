//! Error taxonomy of the snapshot database manager.

use vstd::prelude::*;

verus! {

/// Everything that a manager operation can refuse to do, and why.
///
/// `WouldBlock` is not a failure of the threaded system: it marks a
/// suspension point.  A blocking semaphore acquisition with no permit free,
/// or an open that lands in the drain window of a closing database, would
/// park the calling thread; this sequential core instead hands the condition
/// back to the driver, which waits a few milliseconds and calls again.
#[derive(Debug, Clone, Copy, PartialEq, Eq, Structural)]
pub enum Error {
    /// The registry already holds the path on a create or write-open path.
    SnapshotAlreadyExists,
    /// The target directory is absent at open-for-write, rename or merge.
    SnapshotNotFound,
    /// A non-blocking open would have had to wait for a permit.
    SemaphoreTryAcquire,
    /// A blocking acquisition or a drain window must suspend; retry later.
    WouldBlock,
    /// Copy-on-write was demanded (`force_cow`) but the platform cannot do it.
    SnapshotCowCreation,
    /// An isolated MPT database was expected on the read path, and neither
    /// the per-epoch directory nor the `latest` directory can serve it.
    MptMissing,
    /// The snapshot database should carry its MPT table inline, or the
    /// manager is not configured for isolated MPT databases at all.
    MptTableNotInSnapshot,
    /// A reader of the current `latest` MPT was refused because the single
    /// writer permit is taken.
    LatestMptHeldForWrite,
    /// The operation needs a database that is currently open for exclusive
    /// write (for example destroying it, or finalizing under a live writer).
    SnapshotHeldForWrite,
    /// A directory name was not `sqlite_` followed by 64 lower-case hex
    /// digits, so no epoch identifier can be read back out of it.
    InvalidSnapshotDbName,
}

impl Error {
    /// A short description, for drivers and logs.
    pub fn describe(&self) -> (r: &'static str)
        ensures
            r@.len() > 0,
    {
        proof {
            reveal_strlit("snapshot already exists");
            reveal_strlit("snapshot not found");
            reveal_strlit("semaphore try-acquire failed");
            reveal_strlit("operation would block; retry");
            reveal_strlit("copy-on-write unavailable but forced");
            reveal_strlit("MPT snapshot missing");
            reveal_strlit("MPT table not in snapshot database");
            reveal_strlit("latest MPT is held for writing");
            reveal_strlit("snapshot is open for exclusive write");
            reveal_strlit("not a snapshot db name");
        }
        match self {
            Error::SnapshotAlreadyExists => "snapshot already exists",
            Error::SnapshotNotFound => "snapshot not found",
            Error::SemaphoreTryAcquire => "semaphore try-acquire failed",
            Error::WouldBlock => "operation would block; retry",
            Error::SnapshotCowCreation => "copy-on-write unavailable but forced",
            Error::MptMissing => "MPT snapshot missing",
            Error::MptTableNotInSnapshot => "MPT table not in snapshot database",
            Error::LatestMptHeldForWrite => "latest MPT is held for writing",
            Error::SnapshotHeldForWrite => "snapshot is open for exclusive write",
            Error::InvalidSnapshotDbName => "not a snapshot db name",
        }
    }
}

} // verus!
