//! The decisions of a sampling round that precede the comparison with the
//! previous round: which entries of the process-information root stand for
//! a process, and what the two fact files of a process say.

use crate::counters::{io_stats_of, parse_io_stats};
use crate::processes::{Error, Process};
use crate::text::{
    chars_of, decimal_u64, is_canonical_numeral, lemma_canonical_numeral_value,
    lemma_canonical_numerals_agree, parse_u64, trim, trimmed_range,
};
use vstd::prelude::*;

verus! {

/// One entry of the process-information root, as it was listed.
#[derive(Debug, PartialEq, Eq)]
pub struct RootEntry {
    pub file_name: String,
    pub is_dir: bool,
}

/// An entry of the root that stands for a process.
#[derive(Clone, Copy, Debug, PartialEq, Eq)]
pub struct Candidate {
    /// The position of the entry in the listing.
    pub index: usize,
    /// The pid that the entry's name denotes.
    pub pid: u64,
}

/// The pid that `entry` stands for: the number that its name denotes, where
/// the entry is a directory and its name is an unsigned 64-bit decimal
/// numeral. Every other entry stands for no process.
pub open spec fn pid_of_entry(entry: RootEntry) -> Option<u64> {
    if entry.is_dir {
        decimal_u64(entry.file_name@)
    } else {
        None
    }
}

/// Two directories whose names are different numerals in shortest form
/// stand for different pids. (Names such as `7` and `07` are different
/// names of one pid.)
pub proof fn lemma_different_names_different_pids(a: RootEntry, b: RootEntry)
    requires
        is_canonical_numeral(a.file_name@),
        is_canonical_numeral(b.file_name@),
        a.file_name@ != b.file_name@,
        pid_of_entry(a) is Some,
        pid_of_entry(b) is Some,
    ensures
        pid_of_entry(a) != pid_of_entry(b),
{
    lemma_canonical_numeral_value(a.file_name@);
    lemma_canonical_numeral_value(b.file_name@);
    if pid_of_entry(a) == pid_of_entry(b) {
        lemma_canonical_numerals_agree(a.file_name@, b.file_name@);
    }
}

/// The pid that `entry` stands for, if it stands for a process.
pub fn entry_pid(entry: &RootEntry) -> (pid: Option<u64>)
    ensures
        pid == pid_of_entry(*entry),
{
    if entry.is_dir {
        parse_u64(entry.file_name.as_str())
    } else {
        None
    }
}

/// The entries of a listing that stand for processes, in listing order,
/// each with its pid. Entries that stand for no process are passed over.
pub fn candidates(entries: &Vec<RootEntry>) -> (found: Vec<Candidate>)
    ensures
        forall|k: int|
            0 <= k < found.len() ==> (#[trigger] found[k]).index < entries.len() && pid_of_entry(
                entries[found[k].index as int],
            ) == Some(found[k].pid),
        forall|j: int, k: int| 0 <= j < k < found.len() ==> found[j].index < found[k].index,
        forall|i: int|
            0 <= i < entries.len() && pid_of_entry(#[trigger] entries[i]) is Some ==> exists|k: int|
                0 <= k < found.len() && (#[trigger] found[k]).index == i,
        forall|i: int, k: int|
            0 <= i < entries.len() && pid_of_entry(#[trigger] entries[i]) is None && 0 <= k
                < found.len() ==> (#[trigger] found[k]).index != i,
{
    let mut found: Vec<Candidate> = Vec::new();
    let mut i: usize = 0;
    while i < entries.len()
        invariant
            i <= entries.len(),
            forall|k: int|
                0 <= k < found.len() ==> (#[trigger] found[k]).index < i && pid_of_entry(
                    entries[found[k].index as int],
                ) == Some(found[k].pid),
            forall|j: int, k: int| 0 <= j < k < found.len() ==> found[j].index < found[k].index,
            forall|e: int|
                0 <= e < i && pid_of_entry(#[trigger] entries[e]) is Some ==> exists|k: int|
                    0 <= k < found.len() && (#[trigger] found[k]).index == e,
        decreases entries.len() - i,
    {
        let ghost before = found@;
        match entry_pid(&entries[i]) {
            Some(pid) => {
                found.push(Candidate { index: i, pid });
            },
            None => {},
        }
        assert forall|e: int| 0 <= e < i + 1 && pid_of_entry(#[trigger] entries[e]) is Some implies exists|
            k: int,
        | 0 <= k < found.len() && (#[trigger] found[k]).index == e by {
            if e < i {
                let k = choose|k: int| 0 <= k < before.len() && (#[trigger] before[k]).index == e;
                assert(found[k].index == e);
            } else {
                assert(found[before.len() as int].index == e);
            }
        }
        i += 1;
    }
    found
}

/// The display name of a process, given the contents of its name file: the
/// contents without the white space around them.
pub fn process_name(contents: &str) -> (name: String)
    ensures
        name@ == trim(contents@),
{
    let text = chars_of(contents);
    let (from, to) = trimmed_range(&text);
    contents.substring_char(from, to).to_owned()
}

/// The record of the process `pid` as sampled, before it is compared with
/// the previous round.
///
/// `name` and `io` are the contents of the name file and of the counters
/// file, or why they could not be read. A failure to read is passed on
/// unchanged in the field it concerns, and a counters text of invalid
/// format is a failure of `io_stats`; neither affects the other field.
pub fn sample_process(pid: u64, name: Result<String, Error>, io: Result<String, Error>) -> (p:
    Process)
    ensures
        p.pid == pid,
        match name {
            Ok(contents) => p.name is Ok && p.name->Ok_0@ == trim(contents@),
            Err(e) => p.name == Err::<String, Error>(e),
        },
        match io {
            Ok(contents) => p.io_stats == io_stats_of(contents@),
            Err(e) => p.io_stats == Err::<crate::processes::IoStats, Error>(e),
        },
{
    let name = match name {
        Ok(contents) => Ok(process_name(contents.as_str())),
        Err(e) => Err(e),
    };
    let io_stats = match io {
        Ok(contents) => parse_io_stats(contents.as_str()),
        Err(e) => Err(e),
    };
    Process { pid, name, io_stats }
}

} // verus!
