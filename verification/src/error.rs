//! Errors of the storage engine and their codes on the wire.

use crate::hash::Hash32;
use vstd::prelude::*;

verus! {

/// What an acknowledgement reports in its `sync_error` field.
#[derive(Clone, Copy, Debug, PartialEq, Eq, Structural)]
pub enum SyncError {
    Success,
    Quota,
    Resource,
    FragmentHash,
    FragmentOffset,
    FragmentOutOfRange,
    BlobNotFound,
    Internal,
}

/// Why the storage engine refused an operation.
#[derive(Clone, Copy, Debug, PartialEq, Eq, Structural)]
pub enum StorageError {
    /// The account lacks quota; the payload is the number of bytes by which
    /// the request exceeds it, capped at `u64::MAX`.
    Quotas(u64),
    /// No blob has the given id, or the requested part of it is not stored.
    BlobNotFound(Hash32),
    /// The offset (first) is not below the blob's fragment count (second).
    FragmentOutOfRange(u64, u64),
    /// The fragment's digest (second) differs from the declared one (first).
    FragmentHash(Hash32, Hash32),
    /// The blob expects the fragment at the first offset, not at the second.
    FragmentOffset(u64, u64),
    /// The body declares the first number of bytes and holds the second;
    /// what was sent does not fit between the two.
    FragmentLength(u64, u64),
    /// The backend failed.
    Internal,
}

impl StorageError {
    /// The wire code that reports this error.
    pub open spec fn spec_sync_error(self) -> SyncError {
        match self {
            StorageError::Quotas(_) => SyncError::Quota,
            StorageError::BlobNotFound(_) => SyncError::BlobNotFound,
            StorageError::FragmentOutOfRange(_, _) => SyncError::FragmentOutOfRange,
            StorageError::FragmentHash(_, _) => SyncError::FragmentHash,
            StorageError::FragmentOffset(_, _) => SyncError::FragmentOffset,
            StorageError::FragmentLength(_, _) => SyncError::FragmentOutOfRange,
            StorageError::Internal => SyncError::Internal,
        }
    }

    /// The wire code that reports this error.
    pub fn sync_error(&self) -> (code: SyncError)
        ensures
            code == self.spec_sync_error(),
    {
        match self {
            StorageError::Quotas(_) => SyncError::Quota,
            StorageError::BlobNotFound(_) => SyncError::BlobNotFound,
            StorageError::FragmentOutOfRange(_, _) => SyncError::FragmentOutOfRange,
            StorageError::FragmentHash(_, _) => SyncError::FragmentHash,
            StorageError::FragmentOffset(_, _) => SyncError::FragmentOffset,
            StorageError::FragmentLength(_, _) => SyncError::FragmentOutOfRange,
            StorageError::Internal => SyncError::Internal,
        }
    }
}

} // verus!
