//! The errors of storage, and logs of errors.

use vstd::prelude::*;

verus! {

/// Errors surfaced by the logical block backend and mapped to SCSI sense data.
#[derive(Copy, Clone, Debug, PartialEq, Eq, Structural)]
pub enum StorageError {
    NotReady,
    MediumError,
    WriteProtect,
    HardwareError,
}

/// A log of errors records exactly what a call returned: an error it ended in is appended, and
/// a call that succeeded leaves the log alone.
pub open spec fn error_logged<T, E>(before: Seq<E>, after: Seq<E>, r: Result<T, E>) -> bool {
    after == extend_log(before, r)
}

/// The log after a call that returned `r`.
pub open spec fn extend_log<T, E>(log: Seq<E>, r: Result<T, E>) -> Seq<E> {
    match r {
        Ok(_) => log,
        Err(e) => log.push(e),
    }
}

} // verus!
