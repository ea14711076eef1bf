//! The data of one sampling round: processes, their cumulative I/O counters
//! and the system-wide statistics derived from them.

use vstd::prelude::*;

verus! {

/// Why a per-process fact is missing.
#[derive(Debug, PartialEq, Eq)]
pub enum Error {
    /// The fact could not be read from the process-information source;
    /// `reason` is what the system reported.
    Unreadable { reason: String },
    /// The counters text was read but does not have the expected form.
    InvalidFormat,
}

impl Error {
    /// A description of the failure for display.
    pub fn message(&self) -> (m: String)
        ensures
            match *self {
                Error::Unreadable { reason } => m@ == reason@,
                Error::InvalidFormat => m@ == "Invalid io file format"@,
            },
    {
        match self {
            Error::Unreadable { reason } => reason.clone(),
            Error::InvalidFormat => "Invalid io file format".to_owned(),
        }
    }
}

/// The I/O counters of one process.
///
/// The totals are cumulative since the process started. `read_bytes` and
/// `write_bytes` are the bytes accumulated since the previous sample; they
/// are `0` until the sample has been compared with its predecessor.
#[derive(Clone, Copy, Debug, PartialEq, Eq)]
pub struct IoStats {
    pub total_read_bytes: u64,
    pub total_write_bytes: u64,
    pub read_bytes: u64,
    pub write_bytes: u64,
}

/// One live process at sample time. Its name and its counters are read
/// independently, and either may be missing.
#[derive(Debug, PartialEq, Eq)]
pub struct Process {
    pub pid: u64,
    pub name: Result<String, Error>,
    pub io_stats: Result<IoStats, Error>,
}

/// System-wide statistics of one sampling round.
#[derive(Clone, Copy, Debug, PartialEq, Eq)]
pub struct DiskStats {
    pub total_read: u64,
    pub total_write: u64,
    pub maximum_read: u64,
    pub maximum_write: u64,
}

/// The outcome of one sampling round: the processes in enumeration order
/// and the statistics over them.
#[derive(Debug, PartialEq, Eq)]
pub struct ProcessesList {
    pub processes: Vec<Process>,
    pub disk_stats: DiskStats,
}

/// The pids of `processes`, in order.
pub open spec fn pids_of(processes: Seq<Process>) -> Seq<u64> {
    processes.map_values(|p: Process| p.pid)
}

/// The read rate of a process, where its counters are known.
pub open spec fn read_rate_of() -> spec_fn(Process) -> Option<u64> {
    |p: Process|
        match p.io_stats {
            Ok(stats) => Some(stats.read_bytes),
            Err(_) => None,
        }
}

/// The write rate of a process, where its counters are known.
pub open spec fn write_rate_of() -> spec_fn(Process) -> Option<u64> {
    |p: Process|
        match p.io_stats {
            Ok(stats) => Some(stats.write_bytes),
            Err(_) => None,
        }
}

/// The read rates of the processes whose counters are known, in order.
pub open spec fn read_rates(processes: Seq<Process>) -> Seq<u64> {
    processes.filter_map(read_rate_of())
}

/// The write rates of the processes whose counters are known, in order.
pub open spec fn write_rates(processes: Seq<Process>) -> Seq<u64> {
    processes.filter_map(write_rate_of())
}

/// The sum of `rates`.
pub open spec fn sum(rates: Seq<u64>) -> nat
    decreases rates.len(),
{
    if rates.len() == 0 {
        0
    } else {
        sum(rates.drop_last()) + rates.last() as nat
    }
}

/// The largest of `rates`; `0` where there is none.
pub open spec fn maximum(rates: Seq<u64>) -> u64
    decreases rates.len(),
{
    if rates.len() == 0 {
        0
    } else if maximum(rates.drop_last()) >= rates.last() {
        maximum(rates.drop_last())
    } else {
        rates.last()
    }
}

/// `n`, or the largest 64-bit number where `n` is larger than that.
pub open spec fn capped(n: nat) -> u64 {
    if n > u64::MAX {
        u64::MAX
    } else {
        n as u64
    }
}

/// The statistics that belong to `processes`: totals and maxima of the
/// rates of those processes whose counters are known. A total that does not
/// fit in 64 bits is capped.
pub open spec fn disk_stats_of(processes: Seq<Process>) -> DiskStats {
    DiskStats {
        total_read: capped(sum(read_rates(processes))),
        total_write: capped(sum(write_rates(processes))),
        maximum_read: maximum(read_rates(processes)),
        maximum_write: maximum(write_rates(processes)),
    }
}

impl ProcessesList {
    /// Whether no two processes share a pid and the statistics are those of
    /// the processes.
    pub open spec fn well_formed(&self) -> bool {
        &&& pids_of(self.processes@).no_duplicates()
        &&& self.disk_stats == disk_stats_of(self.processes@)
    }

    /// The snapshot without processes.
    pub fn new() -> (list: Self)
        ensures
            list.processes@ == Seq::<Process>::empty(),
            list.disk_stats == (DiskStats {
                total_read: 0,
                total_write: 0,
                maximum_read: 0,
                maximum_write: 0,
            }),
            list.well_formed(),
    {
        let list = Self {
            processes: Vec::new(),
            disk_stats: DiskStats {
                total_read: 0,
                total_write: 0,
                maximum_read: 0,
                maximum_write: 0,
            },
        };
        list
    }
}

} // verus!
