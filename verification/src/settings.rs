//! Derivation of default concurrency and timeout from host capability
//! figures.  The figures themselves (CPU count, RAM size) come from the
//! caller; these are policy defaults that explicit flags override.

use vstd::prelude::*;

verus! {

/// Suggested scan settings for a host.
#[derive(Clone, Copy, PartialEq, Eq, Structural, Debug)]
pub struct SuggestedSettings {
    /// Maximum concurrent probes.
    pub workers: usize,
    /// Per-probe timeout in milliseconds.
    pub timeout_ms: u64,
    /// Runtime worker threads.
    pub worker_threads: usize,
}

/// The documented tiers: at least 16 GB of RAM suggests 10000 concurrent
/// probes, at least 8 GB suggests 5000, at least 4 GB suggests 2000, and
/// less suggests 1000.  The timeout is 300 ms on a high-end host (16 GB
/// and 8 cores), 500 ms on a mid-range one (8 GB and 4 cores), else
/// 1000 ms.  Worker threads use every core, at least 4 and at most 16.
pub open spec fn suggested_spec(cpu_count: int, total_memory_gb: int) -> SuggestedSettings {
    SuggestedSettings {
        workers: if total_memory_gb >= 16 {
            10000
        } else if total_memory_gb >= 8 {
            5000
        } else if total_memory_gb >= 4 {
            2000
        } else {
            1000
        },
        timeout_ms: if total_memory_gb >= 16 && cpu_count >= 8 {
            300
        } else if total_memory_gb >= 8 && cpu_count >= 4 {
            500
        } else {
            1000
        },
        worker_threads: if cpu_count > 16 {
            16
        } else if cpu_count < 4 {
            4
        } else {
            cpu_count as usize
        },
    }
}

/// Derives the default settings from the detected CPU count and RAM size
/// in whole gigabytes.
pub fn suggest_settings(cpu_count: usize, total_memory_gb: u64) -> (r: SuggestedSettings)
    ensures
        r == suggested_spec(cpu_count as int, total_memory_gb as int),
        r.workers >= 1,
{
    let workers: usize = if total_memory_gb >= 16 {
        10000
    } else if total_memory_gb >= 8 {
        5000
    } else if total_memory_gb >= 4 {
        2000
    } else {
        1000
    };
    let timeout_ms: u64 = if total_memory_gb >= 16 && cpu_count >= 8 {
        300
    } else if total_memory_gb >= 8 && cpu_count >= 4 {
        500
    } else {
        1000
    };
    let worker_threads: usize = if cpu_count > 16 {
        16
    } else if cpu_count < 4 {
        4
    } else {
        cpu_count
    };
    SuggestedSettings { workers, timeout_ms, worker_threads }
}

} // verus!
