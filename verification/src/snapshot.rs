//! The snapshot builder: from the raw bytes of the enumerated `/proc`
//! entries to an ordered, immutable collection of process records.
//! Entries whose name is not a decimal number, or whose stat line does
//! not parse, are dropped; the rest keep their enumeration order.

use vstd::prelude::*;

use crate::decode::{cmdline_from_bytes, cmdline_view, lossy_of};
use crate::digits::{digits_value, digits_wf, parse_u64_digits};
use crate::process::{Process, ProcessView};
use crate::stat::{parse_stat, stat_pid, stat_state, stat_tcomm_bytes, stat_wf, ProcessStatsView};
use crate::state::ProcessState;

verus! {

/// The raw bytes read for one directory entry of the process
/// filesystem: its name and the contents of its two virtual files.
pub struct RawEntry {
    /// The directory name, a PID when it is all decimal digits.
    pub name: Vec<u8>,
    /// The bytes of the `cmdline` file.
    pub cmdline: Vec<u8>,
    /// The bytes of the `stat` file.
    pub stat: Vec<u8>,
}

/// The entry yields a record: its name is a decimal PID that fits and
/// its stat line parses.
pub open spec fn entry_ok(e: RawEntry) -> bool {
    &&& digits_wf(e.name@)
    &&& digits_value(e.name@) <= u64::MAX
    &&& stat_wf(e.stat@)
}

/// The record an acceptable entry yields.
pub open spec fn process_of_entry(e: RawEntry) -> ProcessView {
    ProcessView {
        pid: digits_value(e.name@) as u64,
        cmdline: cmdline_view(e.cmdline@),
        stats: ProcessStatsView {
            pid: stat_pid(e.stat@) as u64,
            tcomm: lossy_of(stat_tcomm_bytes(e.stat@)),
            state: stat_state(e.stat@),
        },
    }
}

/// The records of the acceptable entries, in enumeration order.
pub open spec fn build_seq(entries: Seq<RawEntry>) -> Seq<ProcessView>
    decreases entries.len(),
{
    if entries.len() == 0 {
        Seq::empty()
    } else {
        let pre = build_seq(entries.drop_last());
        if entry_ok(entries.last()) {
            pre.push(process_of_entry(entries.last()))
        } else {
            pre
        }
    }
}

/// An immutable ordered collection of process records.
pub struct Snapshot {
    pub processes: Vec<Process>,
}

impl View for Snapshot {
    type V = Seq<ProcessView>;

    open spec fn view(&self) -> Seq<ProcessView> {
        self.processes@.map_values(|p: Process| p@)
    }
}

impl Snapshot {
    /// Wraps an already-built list of records.
    pub fn new(processes: Vec<Process>) -> (s: Snapshot)
        ensures
            s@ == processes@.map_values(|p: Process| p@),
    {
        Snapshot { processes }
    }

    /// The number of records.
    pub fn len(&self) -> (n: usize)
        ensures
            n == self@.len(),
    {
        self.processes.len()
    }
}

/// Builds a snapshot from raw entries: keeps, in order, one record per
/// entry whose name is a decimal PID and whose stat line parses; drops
/// the rest.
pub fn build_snapshot(entries: Vec<RawEntry>) -> (s: Snapshot)
    ensures
        s@ == build_seq(entries@),
{
    let mut processes: Vec<Process> = Vec::new();
    let mut i: usize = 0;
    while i < entries.len()
        invariant
            i <= entries@.len(),
            processes@.map_values(|p: Process| p@) == build_seq(entries@.take(i as int)),
        decreases entries@.len() - i,
    {
        let e = &entries[i];
        proof {
            assert(entries@.take(i + 1).drop_last() =~= entries@.take(i as int));
            assert(entries@.take(i + 1).last() == entries@[i as int]);
        }
        let name_len: usize = e.name.len();
        proof {
            assert(e.name@.subrange(0, name_len as int) =~= e.name@);
        }
        match parse_u64_digits(&e.name, 0, name_len) {
            Some(pid) => {
                match parse_stat(&e.stat) {
                    Some(stats) => {
                        let cmdline = cmdline_from_bytes(&e.cmdline);
                        let p = Process { pid, cmdline, stats };
                        proof {
                            assert(p@ == process_of_entry(entries@[i as int]));
                        }
                        processes.push(p);
                        proof {
                            assert(processes@.map_values(|q: Process| q@) =~= build_seq(
                                entries@.take(i + 1),
                            ));
                        }
                    },
                    None => {
                        proof {
                            assert(!entry_ok(entries@[i as int]));
                        }
                    },
                }
            },
            None => {
                proof {
                    assert(!entry_ok(entries@[i as int]));
                }
            },
        }
        i += 1;
    }
    proof {
        assert(entries@.take(entries@.len() as int) =~= entries@);
    }
    Snapshot { processes }
}

/// Every record of a built snapshot: its PID is non-negative, its state
/// is one of the six recognised states, and it is the record of some
/// acceptable entry.
pub proof fn lemma_snapshot_invariant(entries: Seq<RawEntry>, j: int)
    requires
        0 <= j < build_seq(entries).len(),
    ensures
        ({
            let p = build_seq(entries)[j];
            &&& p.pid >= 0
            &&& (p.stats.state == ProcessState::Running || p.stats.state == ProcessState::Sleeping
                || p.stats.state == ProcessState::UninterruptibleSleeping || p.stats.state
                == ProcessState::Stopped || p.stats.state == ProcessState::Zombie || p.stats.state
                == ProcessState::Idle)
            &&& exists|k: int|
                0 <= k < entries.len() && entry_ok(#[trigger] entries[k]) && p == process_of_entry(
                    entries[k],
                )
        }),
    decreases entries.len(),
{
    let p = build_seq(entries)[j];
    let pre = build_seq(entries.drop_last());
    if j < pre.len() {
        lemma_snapshot_invariant(entries.drop_last(), j);
        let k0 = choose|k: int|
            0 <= k < entries.drop_last().len() && entry_ok(#[trigger] entries.drop_last()[k])
                && pre[j] == process_of_entry(entries.drop_last()[k]);
        assert(entries[k0] == entries.drop_last()[k0]);
        assert(entry_ok(entries[k0]) && p == process_of_entry(entries[k0]));
    } else {
        assert(entry_ok(entries.last()));
        let k0 = entries.len() - 1;
        assert(entry_ok(entries[k0]) && p == process_of_entry(entries[k0]));
    }
}

} // verus!
