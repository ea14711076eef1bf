//! Reconciliation of a table that shows one row per process with a new
//! snapshot: which rows to update, which processes to insert, and which
//! rows to remove.

use crate::processes::{pids_of, Process};
use vstd::prelude::*;

verus! {

/// What a process of the new snapshot means for the table.
#[derive(Clone, Copy, Debug, PartialEq, Eq)]
pub enum RowChange {
    /// The process is shown already: its row, by position, gets the new
    /// values.
    Update { row: usize },
    /// The process is not shown yet: it gets a new row.
    Insert,
}

/// The changes that bring a table up to date with a snapshot.
#[derive(Debug, PartialEq, Eq)]
pub struct RowPlan {
    /// One change for each process of the snapshot, in snapshot order.
    pub changes: Vec<RowChange>,
    /// The positions of the rows to remove, in increasing order.
    pub removals: Vec<usize>,
}

/// Whether `row` is the first position of `shown` that holds `pid`.
pub open spec fn is_first_row_of(shown: Seq<u64>, pid: u64, row: int) -> bool {
    &&& 0 <= row < shown.len()
    &&& shown[row] == pid
    &&& forall|k: int| 0 <= k < row ==> shown[k] != pid
}

/// Whether `change` is what the process `pid` means for a table whose rows
/// show the pids `shown`: an update of the first row that shows `pid`, or
/// an insertion where no row does.
pub open spec fn change_fits(shown: Seq<u64>, pid: u64, change: RowChange) -> bool {
    match change {
        RowChange::Update { row } => is_first_row_of(shown, pid, row as int),
        RowChange::Insert => !shown.contains(pid),
    }
}

/// The first position of `shown` that holds `pid`.
pub fn find_row(shown: &Vec<u64>, pid: u64) -> (row: Option<usize>)
    ensures
        match row {
            Some(r) => is_first_row_of(shown@, pid, r as int),
            None => !shown@.contains(pid),
        },
{
    let mut i: usize = 0;
    while i < shown.len()
        invariant
            i <= shown.len(),
            forall|k: int| 0 <= k < i ==> shown[k] != pid,
        decreases shown.len() - i,
    {
        if shown[i] == pid {
            return Some(i);
        }
        i += 1;
    }
    None
}

/// Whether one of `processes` has the pid `pid`.
pub fn has_pid(processes: &Vec<Process>, pid: u64) -> (b: bool)
    ensures
        b == pids_of(processes@).contains(pid),
{
    let mut i: usize = 0;
    while i < processes.len()
        invariant
            i <= processes.len(),
            forall|k: int| 0 <= k < i ==> pids_of(processes@)[k] != pid,
        decreases processes.len() - i,
    {
        if processes[i].pid == pid {
            assert(pids_of(processes@)[i as int] == pid);
            return true;
        }
        i += 1;
    }
    false
}

/// Plans the changes that bring a table up to date with a snapshot.
///
/// `shown` holds the pid of each row of the table, by position;
/// `processes` are the processes of the snapshot. Each process updates the
/// first row that shows its pid, or is inserted where none does. The rows
/// to remove are exactly those whose pid no process of the snapshot has.
pub fn plan_rows(shown: &Vec<u64>, processes: &Vec<Process>) -> (plan: RowPlan)
    ensures
        plan.changes.len() == processes.len(),
        forall|i: int|
            0 <= i < processes.len() ==> change_fits(
                shown@,
                processes[i].pid,
                #[trigger] plan.changes[i],
            ),
        forall|k: int|
            0 <= k < plan.removals.len() ==> (#[trigger] plan.removals[k]) < shown.len()
                && !pids_of(processes@).contains(shown[plan.removals[k] as int]),
        forall|j: int, k: int|
            0 <= j < k < plan.removals.len() ==> plan.removals[j] < plan.removals[k],
        forall|r: int|
            0 <= r < shown.len() && !pids_of(processes@).contains(#[trigger] shown[r])
                ==> plan.removals@.contains(r as usize),
{
    let mut changes: Vec<RowChange> = Vec::new();
    let mut i: usize = 0;
    while i < processes.len()
        invariant
            i <= processes.len(),
            changes.len() == i,
            forall|j: int|
                0 <= j < i ==> change_fits(shown@, processes[j].pid, #[trigger] changes[j]),
        decreases processes.len() - i,
    {
        let change = match find_row(shown, processes[i].pid) {
            Some(row) => RowChange::Update { row },
            None => RowChange::Insert,
        };
        changes.push(change);
        i += 1;
    }
    let mut removals: Vec<usize> = Vec::new();
    let mut r: usize = 0;
    while r < shown.len()
        invariant
            r <= shown.len(),
            forall|k: int|
                0 <= k < removals.len() ==> (#[trigger] removals[k]) < r && !pids_of(
                    processes@,
                ).contains(shown[removals[k] as int]),
            forall|j: int, k: int| 0 <= j < k < removals.len() ==> removals[j] < removals[k],
            forall|q: int|
                0 <= q < r && !pids_of(processes@).contains(#[trigger] shown[q])
                    ==> removals@.contains(q as usize),
        decreases shown.len() - r,
    {
        let ghost before = removals@;
        if !has_pid(processes, shown[r]) {
            removals.push(r);
            assert(removals@[before.len() as int] == r);
        }
        assert forall|q: int|
            0 <= q < r + 1 && !pids_of(processes@).contains(
                #[trigger] shown[q],
            ) implies removals@.contains(q as usize) by {
            if q < r {
                let k = choose|k: int| 0 <= k < before.len() && before[k] == q as usize;
                assert(removals@[k] == q as usize);
            }
        }
        r += 1;
    }
    RowPlan { changes, removals }
}

} // verus!
