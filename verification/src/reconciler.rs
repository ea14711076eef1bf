//! Comparison of a sampling round with the previous one: the bytes that each
//! process read and wrote since its previous sample, and the statistics
//! over all processes of the round.

use crate::processes::{
    capped, disk_stats_of, maximum, pids_of, read_rate_of, read_rates, sum, write_rate_of,
    write_rates, DiskStats, IoStats, Process, ProcessesList,
};
use vstd::prelude::*;

verus! {

/// The counters against which a new sample of the process `pid` is
/// measured: those of the first process of `previous` with that pid, where
/// there is one and its counters were known.
pub open spec fn baseline(previous: Seq<Process>, pid: u64) -> Option<IoStats>
    decreases previous.len(),
{
    if previous.len() == 0 {
        None
    } else if previous.first().pid == pid {
        match previous.first().io_stats {
            Ok(stats) => Some(stats),
            Err(_) => None,
        }
    } else {
        baseline(previous.drop_first(), pid)
    }
}

/// Whether `current` continues `base`: neither total is smaller than it
/// was. A smaller total means that the pid now belongs to another process.
pub open spec fn continues(base: IoStats, current: IoStats) -> bool {
    &&& base.total_read_bytes <= current.total_read_bytes
    &&& base.total_write_bytes <= current.total_write_bytes
}

/// `current` with its rates set.
///
/// Against a baseline that it continues, the rates are the growth of the
/// totals. Without one, or against one that it does not continue, the
/// sample is a first observation and the rates are the totals themselves.
pub open spec fn with_rates(current: IoStats, base: Option<IoStats>) -> IoStats {
    match base {
        Some(b) if continues(b, current) => IoStats {
            read_bytes: (current.total_read_bytes - b.total_read_bytes) as u64,
            write_bytes: (current.total_write_bytes - b.total_write_bytes) as u64,
            ..current
        },
        _ => IoStats {
            read_bytes: current.total_read_bytes,
            write_bytes: current.total_write_bytes,
            ..current
        },
    }
}

/// The sampled process `p` after comparison with the round `previous`: its
/// counters, where known, get their rates; nothing else changes.
pub open spec fn reconciled(previous: Seq<Process>, p: Process) -> Process {
    Process {
        io_stats: match p.io_stats {
            Ok(current) => Ok(with_rates(current, baseline(previous, p.pid))),
            Err(e) => Err(e),
        },
        ..p
    }
}

/// The sampled processes after comparison with the round `previous`.
pub open spec fn reconciled_all(previous: Seq<Process>, sampled: Seq<Process>) -> Seq<Process> {
    Seq::new(sampled.len(), |i: int| reconciled(previous, sampled[i]))
}

/// Whether `i` is the first position of `previous` that holds a process
/// with the pid `pid`.
pub open spec fn is_first_with_pid(previous: Seq<Process>, pid: u64, i: int) -> bool {
    &&& 0 <= i < previous.len()
    &&& previous[i].pid == pid
    &&& forall|k: int| 0 <= k < i ==> previous[k].pid != pid
}

/// Whether no process of `previous` has the pid `pid`.
pub open spec fn is_absent(previous: Seq<Process>, pid: u64) -> bool {
    forall|i: int| 0 <= i < previous.len() ==> previous[i].pid != pid
}

/// A pid that the previous round does not hold has no baseline.
pub proof fn lemma_baseline_absent(previous: Seq<Process>, pid: u64)
    requires
        is_absent(previous, pid),
    ensures
        baseline(previous, pid) is None,
    decreases previous.len(),
{
    if previous.len() > 0 {
        let rest = previous.drop_first();
        assert forall|i: int| 0 <= i < rest.len() implies rest[i].pid != pid by {
            assert(rest[i] == previous[i + 1]);
        }
        lemma_baseline_absent(rest, pid);
    }
}

/// The baseline of a pid is decided by the first process of the previous
/// round that has it: its counters where they were known, none where they
/// were not.
pub proof fn lemma_baseline_first(previous: Seq<Process>, pid: u64, i: int)
    requires
        is_first_with_pid(previous, pid, i),
    ensures
        baseline(previous, pid) == match previous[i].io_stats {
            Ok(stats) => Some(stats),
            Err(_) => None::<IoStats>,
        },
    decreases previous.len(),
{
    if i > 0 {
        let rest = previous.drop_first();
        assert forall|k: int| 0 <= k < i - 1 implies rest[k].pid != pid by {
            assert(rest[k] == previous[k + 1]);
        }
        lemma_baseline_first(rest, pid, i - 1);
    }
}

/// First observation: where the previous round does not hold the pid of a
/// sampled process, or holds it first with counters that could not be
/// read, the rates of the process are its cumulative totals.
pub proof fn lemma_first_observation(previous: Seq<Process>, p: Process)
    requires
        p.io_stats is Ok,
        is_absent(previous, p.pid) || exists|i: int|
            is_first_with_pid(previous, p.pid, i) && previous[i].io_stats is Err,
    ensures
        reconciled(previous, p).io_stats is Ok,
        reconciled(previous, p).io_stats->Ok_0.read_bytes == p.io_stats->Ok_0.total_read_bytes,
        reconciled(previous, p).io_stats->Ok_0.write_bytes == p.io_stats->Ok_0.total_write_bytes,
{
    if is_absent(previous, p.pid) {
        lemma_baseline_absent(previous, p.pid);
    } else {
        let i = choose|i: int|
            is_first_with_pid(previous, p.pid, i) && previous[i].io_stats is Err;
        lemma_baseline_first(previous, p.pid, i);
    }
}

/// Steady state: where the previous round holds the pid of a sampled
/// process first with known counters, and neither total has shrunk since,
/// the rates of the process are the growth of its totals.
pub proof fn lemma_steady_state(previous: Seq<Process>, p: Process, i: int)
    requires
        p.io_stats is Ok,
        is_first_with_pid(previous, p.pid, i),
        previous[i].io_stats is Ok,
        continues(previous[i].io_stats->Ok_0, p.io_stats->Ok_0),
    ensures
        reconciled(previous, p).io_stats is Ok,
        reconciled(previous, p).io_stats->Ok_0.read_bytes == p.io_stats->Ok_0.total_read_bytes
            - previous[i].io_stats->Ok_0.total_read_bytes,
        reconciled(previous, p).io_stats->Ok_0.write_bytes == p.io_stats->Ok_0.total_write_bytes
            - previous[i].io_stats->Ok_0.total_write_bytes,
{
    lemma_baseline_first(previous, p.pid, i);
}

/// Counter regression: where the previous round holds the pid of a sampled
/// process first with known counters, and one of the totals has shrunk
/// since, the pid has been reused and the rates of the process are its
/// cumulative totals.
pub proof fn lemma_counter_regression(previous: Seq<Process>, p: Process, i: int)
    requires
        p.io_stats is Ok,
        is_first_with_pid(previous, p.pid, i),
        previous[i].io_stats is Ok,
        !continues(previous[i].io_stats->Ok_0, p.io_stats->Ok_0),
    ensures
        reconciled(previous, p).io_stats is Ok,
        reconciled(previous, p).io_stats->Ok_0.read_bytes == p.io_stats->Ok_0.total_read_bytes,
        reconciled(previous, p).io_stats->Ok_0.write_bytes == p.io_stats->Ok_0.total_write_bytes,
{
    lemma_baseline_first(previous, p.pid, i);
}

/// Comparison with the previous round changes the rates of a process and
/// nothing else: pid, name and totals stay, a failure to read the counters
/// stays a failure, and no rate exceeds its total.
pub proof fn lemma_reconciled_keeps(previous: Seq<Process>, p: Process)
    ensures
        reconciled(previous, p).pid == p.pid,
        reconciled(previous, p).name == p.name,
        p.io_stats is Err ==> reconciled(previous, p).io_stats == p.io_stats,
        p.io_stats is Ok ==> {
            let before = p.io_stats->Ok_0;
            let after = reconciled(previous, p).io_stats->Ok_0;
            &&& reconciled(previous, p).io_stats is Ok
            &&& after.total_read_bytes == before.total_read_bytes
            &&& after.total_write_bytes == before.total_write_bytes
            &&& after.read_bytes <= after.total_read_bytes
            &&& after.write_bytes <= after.total_write_bytes
        },
{
}

/// The rates of a concatenation are the rates of its parts, in order.
pub proof fn lemma_rates_concat(a: Seq<Process>, b: Seq<Process>)
    ensures
        read_rates(a + b) == read_rates(a) + read_rates(b),
        write_rates(a + b) == write_rates(a) + write_rates(b),
    decreases b.len(),
{
    if b.len() > 0 {
        lemma_rates_concat(a, b.drop_last());
        assert((a + b).drop_last() =~= a + b.drop_last());
    }
}

/// Aggregate exclusion: a process whose counters could not be read
/// contributes to none of the statistics. The statistics are the same as
/// if the process were not there.
pub proof fn lemma_failed_process_excluded(processes: Seq<Process>, i: int)
    requires
        0 <= i < processes.len(),
        processes[i].io_stats is Err,
    ensures
        disk_stats_of(processes) == disk_stats_of(processes.remove(i)),
{
    let head = processes.take(i);
    let one = seq![processes[i]];
    let tail = processes.skip(i + 1);
    assert(processes =~= head + one + tail);
    lemma_rates_concat(head, one);
    lemma_rates_concat(head + one, tail);
    lemma_rates_concat(head, tail);
    Seq::<Process>::lemma_filter_map_singleton(processes[i], read_rate_of());
    Seq::<Process>::lemma_filter_map_singleton(processes[i], write_rate_of());
}

/// Comparison with the previous round keeps the pids of the sampled
/// processes and their order, so no two processes of the snapshot share a
/// pid where no two sampled processes do.
pub proof fn lemma_reconciled_pids(previous: Seq<Process>, sampled: Seq<Process>)
    ensures
        pids_of(reconciled_all(previous, sampled)) == pids_of(sampled),
        pids_of(sampled).no_duplicates() ==> pids_of(
            reconciled_all(previous, sampled),
        ).no_duplicates(),
{
    assert(pids_of(reconciled_all(previous, sampled)) =~= pids_of(sampled));
}

/// Looks up the counters against which a new sample of `pid` is measured.
pub fn find_baseline(previous: &Vec<Process>, pid: u64) -> (base: Option<IoStats>)
    ensures
        base == baseline(previous@, pid),
{
    let mut i: usize = 0;
    assert(previous@.skip(0) =~= previous@);
    while i < previous.len()
        invariant
            i <= previous.len(),
            baseline(previous@, pid) == baseline(previous@.skip(i as int), pid),
        decreases previous.len() - i,
    {
        assert(previous@.skip(i as int).drop_first() =~= previous@.skip(i as int + 1));
        if previous[i].pid == pid {
            return match &previous[i].io_stats {
                Ok(stats) => Some(*stats),
                Err(_) => None,
            };
        }
        i += 1;
    }
    None
}

/// Sets the rates of `current` by comparison with `base`.
pub fn rate(current: IoStats, base: Option<IoStats>) -> (rated: IoStats)
    ensures
        rated == with_rates(current, base),
{
    match base {
        Some(b) => {
            if b.total_read_bytes <= current.total_read_bytes && b.total_write_bytes
                <= current.total_write_bytes {
                IoStats {
                    total_read_bytes: current.total_read_bytes,
                    total_write_bytes: current.total_write_bytes,
                    read_bytes: current.total_read_bytes - b.total_read_bytes,
                    write_bytes: current.total_write_bytes - b.total_write_bytes,
                }
            } else {
                IoStats {
                    total_read_bytes: current.total_read_bytes,
                    total_write_bytes: current.total_write_bytes,
                    read_bytes: current.total_read_bytes,
                    write_bytes: current.total_write_bytes,
                }
            }
        },
        None => IoStats {
            total_read_bytes: current.total_read_bytes,
            total_write_bytes: current.total_write_bytes,
            read_bytes: current.total_read_bytes,
            write_bytes: current.total_write_bytes,
        },
    }
}

/// Appending a rate adds it to the sum.
pub proof fn lemma_sum_push(rates: Seq<u64>, rate: u64)
    ensures
        sum(rates.push(rate)) == sum(rates) + rate,
{
    assert(rates.push(rate).drop_last() =~= rates);
}

/// Appending a rate raises the maximum to it, if it is larger.
pub proof fn lemma_maximum_push(rates: Seq<u64>, rate: u64)
    ensures
        maximum(rates.push(rate)) == if maximum(rates) >= rate {
            maximum(rates)
        } else {
            rate
        },
{
    assert(rates.push(rate).drop_last() =~= rates);
}

/// The statistics over `processes`.
pub fn disk_stats(processes: &Vec<Process>) -> (stats: DiskStats)
    ensures
        stats == disk_stats_of(processes@),
{
    let mut stats = DiskStats { total_read: 0, total_write: 0, maximum_read: 0, maximum_write: 0 };
    let mut i: usize = 0;
    while i < processes.len()
        invariant
            i <= processes.len(),
            stats == disk_stats_of(processes@.take(i as int)),
        decreases processes.len() - i,
    {
        proof {
            let before = processes@.take(i as int);
            let after = processes@.take(i as int + 1);
            processes@.lemma_filter_map_take_succ(read_rate_of(), i as int);
            processes@.lemma_filter_map_take_succ(write_rate_of(), i as int);
            match processes[i as int].io_stats {
                Ok(s) => {
                    assert(read_rates(after) =~= read_rates(before).push(s.read_bytes));
                    assert(write_rates(after) =~= write_rates(before).push(s.write_bytes));
                    lemma_sum_push(read_rates(before), s.read_bytes);
                    lemma_sum_push(write_rates(before), s.write_bytes);
                    lemma_maximum_push(read_rates(before), s.read_bytes);
                    lemma_maximum_push(write_rates(before), s.write_bytes);
                },
                Err(_) => {},
            }
        }
        match &processes[i].io_stats {
            Ok(s) => {
                stats.total_read = stats.total_read.saturating_add(s.read_bytes);
                stats.total_write = stats.total_write.saturating_add(s.write_bytes);
                if s.read_bytes > stats.maximum_read {
                    stats.maximum_read = s.read_bytes;
                }
                if s.write_bytes > stats.maximum_write {
                    stats.maximum_write = s.write_bytes;
                }
            },
            Err(_) => {},
        }
        i += 1;
    }
    assert(processes@.take(i as int) =~= processes@);
    stats
}

/// The snapshot of a sampling round.
///
/// `sampled` holds the processes of the round in enumeration order, as
/// sampled; it is `None` where the process-information root could not be
/// listed, and the snapshot is then empty, whatever `previous` holds.
/// Otherwise the snapshot holds the sampled processes in the same order,
/// each compared with `previous`, and the statistics over them. No two of
/// its processes share a pid unless two of the sampled ones do.
pub fn refresh_processes(previous: &ProcessesList, sampled: Option<Vec<Process>>) -> (current:
    ProcessesList)
    ensures
        match sampled {
            None => current.processes@ == Seq::<Process>::empty() && current.disk_stats
                == (DiskStats { total_read: 0, total_write: 0, maximum_read: 0, maximum_write: 0 }),
            Some(raw) => current.processes@ == reconciled_all(previous.processes@, raw@),
        },
        current.disk_stats == disk_stats_of(current.processes@),
        match sampled {
            None => current.well_formed(),
            Some(raw) => pids_of(raw@).no_duplicates() ==> current.well_formed(),
        },
{
    let raw = match sampled {
        None => {
            return ProcessesList::new();
        },
        Some(raw) => raw,
    };
    let ghost all = raw@;
    let mut processes: Vec<Process> = Vec::new();
    for p in it: raw
        invariant
            it.seq() == all,
            processes.len() == it.index(),
            forall|j: int|
                0 <= j < processes.len() ==> #[trigger] processes[j] == reconciled(
                    previous.processes@,
                    all[j],
                ),
    {
        let io_stats = match p.io_stats {
            Ok(current) => Ok(rate(current, find_baseline(&previous.processes, p.pid))),
            Err(e) => Err(e),
        };
        processes.push(Process { pid: p.pid, name: p.name, io_stats });
    }
    assert(pids_of(processes@) =~= pids_of(all));
    let disk_stats = disk_stats(&processes);
    ProcessesList { processes, disk_stats }
}

} // verus!
