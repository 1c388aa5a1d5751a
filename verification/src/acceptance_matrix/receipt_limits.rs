//! Shared receipt and claims resource limits.
use crate::text::cat;
use vstd::prelude::*;

verus! {

pub const MAX_RECEIPT_FILES: usize = 4096;

pub const MAX_EXECUTION_RECEIPTS: usize = 64;

pub const MAX_RECEIPT_BYTES: u64 = 1048576;

pub const MAX_TOTAL_RECEIPT_BYTES: u64 = 16777216;

/// One receipt or claims file may not exceed the per-file limit.
pub fn validate_file_size(label: &str, bytes: u64) -> (r: Result<(), String>)
    ensures
        r is Ok <==> bytes <= MAX_RECEIPT_BYTES,
        r matches Err(e) ==> e@ == label@ + " exceeds 1048576 bytes"@,
{
    if bytes > MAX_RECEIPT_BYTES {
        return Err(cat(label, " exceeds 1048576 bytes"));
    }
    Ok(())
}

/// Adds `bytes` to a running total that may not exceed the aggregate limit;
/// the total is unchanged when the addition is refused.
pub fn add_total_bytes(label: &str, total: &mut u64, bytes: u64) -> (r: Result<(), String>)
    ensures
        r is Ok <==> *old(total) + bytes <= MAX_TOTAL_RECEIPT_BYTES,
        r is Ok ==> *final(total) == *old(total) + bytes,
        r is Err ==> *final(total) == *old(total),
        r matches Err(e) ==> e@ == label@ + (if *old(total) + bytes > u64::MAX {
            " byte count overflowed"@
        } else {
            " exceeds 16777216 bytes"@
        }),
{
    let next = match total.checked_add(bytes) {
        Some(n) => n,
        None => {
            return Err(cat(label, " byte count overflowed"));
        },
    };
    if next > MAX_TOTAL_RECEIPT_BYTES {
        return Err(cat(label, " exceeds 16777216 bytes"));
    }
    *total = next;
    Ok(())
}

} // verus!
