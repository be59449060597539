//! The in-memory process record and the matching rule of the query
//! filter: a needle matches a process when it occurs in the decimal
//! PID, the command line, or the command name.

use vstd::prelude::*;

use crate::digits::{dec_chars, u64_to_string};
use crate::search::{is_substring, str_contains};
use crate::stat::{stats_matches, ProcessStats, ProcessStatsView};

verus! {

/// One process of a snapshot.
pub struct Process {
    /// Parsed from the numeric directory name.
    pub pid: u64,
    /// The argument vector, NUL separators shown as spaces.
    pub cmdline: String,
    /// The parsed stat fields.
    pub stats: ProcessStats,
}

/// The mathematical image of a `Process`.
pub ghost struct ProcessView {
    pub pid: u64,
    pub cmdline: Seq<char>,
    pub stats: ProcessStatsView,
}

impl View for Process {
    type V = ProcessView;

    open spec fn view(&self) -> ProcessView {
        ProcessView { pid: self.pid, cmdline: self.cmdline@, stats: self.stats@ }
    }
}

/// The needle occurs in the decimal PID, the command line, or the
/// command name.
pub open spec fn process_matches(p: ProcessView, needle: Seq<char>) -> bool {
    ||| is_substring(dec_chars(p.pid as nat), needle)
    ||| is_substring(p.cmdline, needle)
    ||| stats_matches(p.stats, needle)
}

impl Process {
    /// Whether this process matches the search text.
    pub fn contains(&self, search_text: &str) -> (r: bool)
        ensures
            r == process_matches(self@, search_text@),
    {
        let pid_string = u64_to_string(self.pid);
        str_contains(pid_string.as_str(), search_text) || str_contains(
            self.cmdline.as_str(),
            search_text,
        ) || self.stats.contains(search_text)
    }
}

} // verus!
