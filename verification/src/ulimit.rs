//! The file-descriptor budget: raise the process's soft limit on request
//! and derive a batch size that the limit can carry. The batch size governs
//! concurrently open sockets; passing the budget makes probe errors look
//! like filtered ports and poisons the scan.
use crate::input::Opts;
use vstd::prelude::*;

verus! {

// Average value for Ubuntu
pub const DEFAULT_FILE_DESCRIPTORS_LIMIT: u64 = 8000;

// Safest batch size based on experimentation
pub const AVERAGE_BATCH_SIZE: u16 = 3000;

/// Relies on rlimit's Resource::NOFILE.set: raise the soft and hard
/// file-descriptor limits to the value; whether the system accepted.
#[verifier::external_body]
fn set_nofile_limit(limit: u64) -> (r: bool) {
    rlimit::Resource::NOFILE.set(limit, limit).is_ok()
}

/// Relies on rlimit's Resource::NOFILE.get: the process's current soft
/// file-descriptor limit, when the system reports one.
#[verifier::external_body]
fn nofile_soft_limit() -> (r: Option<u64>) {
    match rlimit::Resource::NOFILE.get() {
        Ok((soft, _)) => Some(soft),
        Err(_) => None,
    }
}

/// When the user asked for a file-descriptor limit, try to raise the
/// process limits to it; then report the soft limit that resulted. `None`
/// means the system would not even say what the limit is — the caller
/// treats that as fatal, since the scan cannot budget its sockets blind.
pub fn adjust_ulimit_size(opts: &Opts) -> (r: Option<u64>) {
    if let Some(limit) = opts.ulimit {
        let _raised = set_nofile_limit(limit);
    }
    nofile_soft_limit()
}

/// The batch size a soft limit of `ulimit` can carry, as `infer_batch_size`
/// computes it: the requested batch when the limit covers it; half of a
/// very small limit; the safe average under a generous limit; otherwise
/// the limit less a margin of 100 descriptors.
pub open spec fn spec_infer_batch_size(batch_size: u16, ulimit: u64) -> int {
    if ulimit < batch_size {
        if ulimit < AVERAGE_BATCH_SIZE as u64 {
            ulimit as int / 2
        } else if ulimit > DEFAULT_FILE_DESCRIPTORS_LIMIT {
            AVERAGE_BATCH_SIZE as int
        } else {
            ulimit - 100
        }
    } else {
        batch_size as int
    }
}

/// Reconcile the requested batch size with the file-descriptor soft limit.
/// The result always fits the socket budget, so no probe ever attempts to
/// open a socket past it.
pub fn infer_batch_size(opts: &Opts, ulimit: u64) -> (r: u16)
    ensures
        r == spec_infer_batch_size(opts.batch_size, ulimit),
{
    let batch_size: u64 = opts.batch_size as u64;

    // Adjust the batch size when the ulimit value is lower than the
    // desired batch size
    if ulimit < batch_size {
        if ulimit < AVERAGE_BATCH_SIZE as u64 {
            // the user must have a very small ulimit: halve it
            (ulimit / 2) as u16
        } else if ulimit > DEFAULT_FILE_DESCRIPTORS_LIMIT {
            AVERAGE_BATCH_SIZE
        } else {
            (ulimit - 100) as u16
        }
    } else {
        opts.batch_size
    }
}

} // verus!
