//! CPU sampling of the focused window's process: when two readings of
//! `/proc/<pid>/stat` belong to the same process, and the jiffies between
//! them.
use vstd::prelude::*;

verus! {

/// The previous reading: pid, process start time (to detect a reused pid)
/// and utime + stime in clock ticks.
#[derive(Debug, Clone, Copy, PartialEq, Eq)]
pub struct CpuReading {
    pub pid: i32,
    pub starttime: u64,
    pub jiffies: u64,
}

/// Clock ticks spent since the previous reading, when it was of the same
/// process (same pid and start time); `None` otherwise (the CPU share is
/// then reported as 0). A counter that went backwards counts as 0.
pub fn jiffies_since(last: Option<CpuReading>, current: CpuReading) -> (d: Option<u64>)
    ensures
        match last {
            Some(l) => if l.pid == current.pid && l.starttime == current.starttime {
                d == Some((if current.jiffies >= l.jiffies {
                    current.jiffies - l.jiffies
                } else {
                    0
                }) as u64)
            } else {
                d is None
            },
            None => d is None,
        },
{
    match last {
        Some(l) => if l.pid == current.pid && l.starttime == current.starttime {
            Some(current.jiffies.saturating_sub(l.jiffies))
        } else {
            None
        },
        None => None,
    }
}

/// Samples are taken at least five seconds apart.
pub fn sample_interval_secs(configured: u64) -> (s: u64)
    ensures
        s == (if configured < 5 {
            5
        } else {
            configured
        }),
{
    if configured < 5 {
        5
    } else {
        configured
    }
}

/// At least one CPU is assumed when the parallelism is unknown.
pub fn cpu_count(available: Option<usize>) -> (n: usize)
    ensures
        n == (match available {
            Some(k) => if k < 1 {
                1
            } else {
                k
            },
            None => 1,
        }),
{
    match available {
        Some(k) => if k < 1 {
            1
        } else {
            k
        },
        None => 1,
    }
}

} // verus!
