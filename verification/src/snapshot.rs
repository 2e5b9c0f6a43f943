//! Point-in-time readings of the process: what a failed read counts as,
//! and the change in memory between two readings.

use vstd::prelude::*;

verus! {

/// One reading of the process: its resident memory in bytes, and its CPU
/// usage in percent as the bit pattern of an IEEE-754 single-precision
/// number.
#[derive(Clone, Copy, Debug, PartialEq, Eq, Structural)]
pub struct ProcessSnapshot {
    pub resident_memory_bytes: u64,
    pub cpu_percent_bits: u32,
}

/// The snapshot that two reads give. A read that failed counts as zero:
/// no bytes, and the bit pattern of `0.0`.
pub open spec fn snapshot_of(memory: Option<u64>, cpu_bits: Option<u32>) -> ProcessSnapshot {
    ProcessSnapshot {
        resident_memory_bytes: match memory {
            Some(bytes) => bytes,
            None => 0,
        },
        cpu_percent_bits: match cpu_bits {
            Some(bits) => bits,
            None => 0,
        },
    }
}

impl ProcessSnapshot {
    /// Builds a snapshot from the outcome of the two reads, `None` standing
    /// for a read that failed. A failed read degrades to a zero reading and
    /// does not fail the snapshot.
    pub fn from_readings(memory: Option<u64>, cpu_bits: Option<u32>) -> (snapshot: ProcessSnapshot)
        ensures
            snapshot == snapshot_of(memory, cpu_bits),
    {
        let resident_memory_bytes: u64 = match memory {
            Some(bytes) => bytes,
            None => 0,
        };
        let cpu_percent_bits: u32 = match cpu_bits {
            Some(bits) => bits,
            None => 0,
        };
        ProcessSnapshot { resident_memory_bytes, cpu_percent_bits }
    }
}

/// The change in resident memory from `baseline` to `after`, in bytes. It
/// is negative when the process holds less memory than at the baseline.
pub fn memory_delta_bytes(baseline: &ProcessSnapshot, after: &ProcessSnapshot) -> (delta: i128)
    ensures
        delta == after.resident_memory_bytes - baseline.resident_memory_bytes,
{
    after.resident_memory_bytes as i128 - baseline.resident_memory_bytes as i128
}

} // verus!
