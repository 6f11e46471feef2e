use vstd::prelude::*;

verus! {

/// The kinds of failure the store surfaces to its callers.
///
/// Every failure is a fault of the storage medium; the mere absence of a key
/// is not an error (a read reports it as `None`, a blocking read waits).
/// None of them is retried internally: each propagates to the caller of the
/// operation that met it.
#[derive(Clone, Copy, Debug, PartialEq, Eq, Structural)]
pub enum StoreError {
    /// The storage medium could not be created or opened.
    OpenFailure,
    /// An upsert could not commit; no notification is fired for it.
    WriteFailure,
    /// A lookup could not execute; it ends any wait loop in progress.
    ReadFailure,
}

} // verus!
