//! The query filter and the view handed to the GUI shell: a snapshot,
//! a search needle, and the materialised indices of the matching
//! records, giving constant-time random access into the filtered view.

use vstd::prelude::*;

use crate::digits::{dec_chars, u64_to_string};
use crate::process::{process_matches, Process, ProcessView};
use crate::search::lemma_empty_needle;
use crate::snapshot::Snapshot;

verus! {

/// The positions, in increasing order, of the records a needle matches.
pub open spec fn matching_indices(s: Seq<ProcessView>, needle: Seq<char>) -> Seq<int>
    decreases s.len(),
{
    if s.len() == 0 {
        Seq::empty()
    } else {
        let pre = matching_indices(s.drop_last(), needle);
        if process_matches(s.last(), needle) {
            pre.push(s.len() - 1)
        } else {
            pre
        }
    }
}

/// The records a needle matches, in snapshot order.
pub open spec fn filter_matching(s: Seq<ProcessView>, needle: Seq<char>) -> Seq<ProcessView>
    decreases s.len(),
{
    if s.len() == 0 {
        Seq::empty()
    } else {
        let pre = filter_matching(s.drop_last(), needle);
        if process_matches(s.last(), needle) {
            pre.push(s.last())
        } else {
            pre
        }
    }
}

/// The filtered view is a stable sub-sequence of the snapshot: the
/// matching positions are strictly increasing, in range, point at
/// matching records, and select exactly the filtered records.
pub proof fn lemma_filter_subsequence(s: Seq<ProcessView>, needle: Seq<char>)
    ensures
        matching_indices(s, needle).len() == filter_matching(s, needle).len(),
        forall|a: int|
            0 <= a < matching_indices(s, needle).len() ==> 0 <= #[trigger] matching_indices(
                s,
                needle,
            )[a] < s.len(),
        forall|a: int|
            0 <= a < matching_indices(s, needle).len() ==> filter_matching(s, needle)[a]
                == s[#[trigger] matching_indices(s, needle)[a]],
        forall|a: int, b: int|
            0 <= a < b < matching_indices(s, needle).len() ==> #[trigger] matching_indices(
                s,
                needle,
            )[a] < #[trigger] matching_indices(s, needle)[b],
    decreases s.len(),
{
    if s.len() > 0 {
        lemma_filter_subsequence(s.drop_last(), needle);
    }
}

/// Every record of the filtered view matches the needle: it occurs in
/// the decimal PID, the command line, or the command name.
pub proof fn lemma_filter_membership(s: Seq<ProcessView>, needle: Seq<char>, j: int)
    requires
        0 <= j < filter_matching(s, needle).len(),
    ensures
        process_matches(filter_matching(s, needle)[j], needle),
    decreases s.len(),
{
    if s.len() > 0 {
        let pre = filter_matching(s.drop_last(), needle);
        if j < pre.len() {
            lemma_filter_membership(s.drop_last(), needle, j);
        }
    }
}

/// An empty needle keeps every record: the filtered view is the
/// snapshot itself.
pub proof fn lemma_filter_empty_needle(s: Seq<ProcessView>)
    ensures
        filter_matching(s, Seq::<char>::empty()) == s,
    decreases s.len(),
{
    if s.len() > 0 {
        lemma_filter_empty_needle(s.drop_last());
        lemma_empty_needle(dec_chars(s.last().pid as nat));
        assert(filter_matching(s, Seq::<char>::empty()) =~= s);
    } else {
        assert(filter_matching(s, Seq::<char>::empty()) =~= s);
    }
}

/// Filtering keeps a sequence whose records all match.
proof fn lemma_filter_all_matching(s: Seq<ProcessView>, needle: Seq<char>)
    requires
        forall|j: int| 0 <= j < s.len() ==> process_matches(#[trigger] s[j], needle),
    ensures
        filter_matching(s, needle) == s,
    decreases s.len(),
{
    if s.len() > 0 {
        assert(s.last() == s[s.len() - 1]);
        lemma_filter_all_matching(s.drop_last(), needle);
        assert(filter_matching(s, needle) =~= s);
    } else {
        assert(filter_matching(s, needle) =~= s);
    }
}

/// Filtering is idempotent: filtering the filtered view with the same
/// needle changes nothing.
pub proof fn lemma_filter_idempotent(s: Seq<ProcessView>, needle: Seq<char>)
    ensures
        filter_matching(filter_matching(s, needle), needle) == filter_matching(s, needle),
{
    let f = filter_matching(s, needle);
    assert forall|j: int| 0 <= j < f.len() implies process_matches(#[trigger] f[j], needle) by {
        lemma_filter_membership(s, needle, j);
    }
    lemma_filter_all_matching(f, needle);
}

/// One row of the rendered list: a header line and the label/value
/// pairs of the expanded detail view.
pub struct RowView {
    /// `<pid> <cmdline>`.
    pub header: String,
    /// Currently `("Tcomm", tcomm)` and `("State", state)`.
    pub details: Vec<(String, String)>,
}

/// The currently filtered snapshot, with the matching positions
/// materialised: `len` and `row` are constant-time and stable until the
/// next `set_search`.
pub struct FilteredView {
    /// The immutable snapshot being viewed.
    pub snapshot: Snapshot,
    /// The current search needle.
    pub needle: String,
    /// The materialised positions of the matching records.
    pub visible: Vec<usize>,
}

/// The positions of the records the needle matches, as an index vector.
fn compute_visible(snapshot: &Snapshot, needle: &str) -> (v: Vec<usize>)
    ensures
        v@.map_values(|u: usize| u as int) == matching_indices(snapshot@, needle@),
{
    let mut v: Vec<usize> = Vec::new();
    let n: usize = snapshot.processes.len();
    let mut i: usize = 0;
    while i < n
        invariant
            i <= n,
            n == snapshot@.len(),
            v@.map_values(|u: usize| u as int) == matching_indices(snapshot@.take(i as int), needle@),
        decreases n - i,
    {
        proof {
            assert(snapshot@.take(i + 1).drop_last() =~= snapshot@.take(i as int));
            assert(snapshot@.take(i + 1).last() == snapshot@[i as int]);
        }
        if snapshot.processes[i].contains(needle) {
            v.push(i);
            proof {
                assert(v@.map_values(|u: usize| u as int) =~= matching_indices(
                    snapshot@.take(i + 1),
                    needle@,
                ));
            }
        }
        i += 1;
    }
    proof {
        assert(snapshot@.take(snapshot@.len() as int) =~= snapshot@);
    }
    v
}

impl FilteredView {
    /// The index vector is exactly the matching positions for the
    /// current needle.
    pub open spec fn wf(self) -> bool {
        self.visible@.map_values(|u: usize| u as int) == matching_indices(
            self.snapshot@,
            self.needle@,
        )
    }

    /// Starts viewing a snapshot with an empty needle: everything is
    /// visible.
    pub fn new(snapshot: Snapshot) -> (v: FilteredView)
        ensures
            v.wf(),
            v.snapshot@ == snapshot@,
            v.needle@ == Seq::<char>::empty(),
    {
        let visible = compute_visible(&snapshot, "");
        proof {
            reveal_strlit("");
            assert(""@ =~= Seq::<char>::empty());
        }
        FilteredView { snapshot, needle: String::new(), visible }
    }

    /// Swaps the search needle; `len` and `row` reflect the new filter.
    pub fn set_search(&mut self, text: &str)
        ensures
            final (self).wf(),
            final (self).snapshot@ == old(self).snapshot@,
            final (self).needle@ == text@,
    {
        self.needle = String::from_str(text);
        self.visible = compute_visible(&self.snapshot, text);
    }

    /// The number of currently visible records.
    pub fn len(&self) -> (n: usize)
        requires
            self.wf(),
        ensures
            n == filter_matching(self.snapshot@, self.needle@).len(),
    {
        proof {
            lemma_filter_subsequence(self.snapshot@, self.needle@);
        }
        self.visible.len()
    }

    /// The presentation of the `i`-th visible record: its header is the
    /// decimal PID, a space, and the command line; its details are the
    /// command name and the state's display name.
    pub fn row(&self, i: usize) -> (row: RowView)
        requires
            self.wf(),
            i < filter_matching(self.snapshot@, self.needle@).len(),
        ensures
            ({
                let p = filter_matching(self.snapshot@, self.needle@)[i as int];
                &&& row.header@ == dec_chars(p.pid as nat) + " "@ + p.cmdline
                &&& row.details@.len() == 2
                &&& row.details@[0].0@ == "Tcomm"@
                &&& row.details@[0].1@ == p.stats.tcomm
                &&& row.details@[1].0@ == "State"@
                &&& row.details@[1].1@ == p.stats.state.display_view()
            }),
    {
        proof {
            lemma_filter_subsequence(self.snapshot@, self.needle@);
        }
        let idx: usize = self.visible[i];
        proof {
            let s = self.snapshot@;
            let w = self.needle@;
            assert(self.visible@.map_values(|u: usize| u as int)[i as int] == self.visible@[i as int]
                as int);
            assert(matching_indices(s, w)[i as int] == idx as int);
            assert(s[idx as int] == self.snapshot.processes@[idx as int]@);
            assert(filter_matching(s, w)[i as int] == s[idx as int]);
        }
        let p: &Process = &self.snapshot.processes[idx];
        let mut header = u64_to_string(p.pid);
        header.append(" ");
        header.append(p.cmdline.as_str());
        proof {
            let q = filter_matching(self.snapshot@, self.needle@)[i as int];
            assert(header@ =~= dec_chars(q.pid as nat) + " "@ + q.cmdline);
        }
        let mut details: Vec<(String, String)> = Vec::new();
        details.push((String::from_str("Tcomm"), p.stats.tcomm.clone()));
        details.push((String::from_str("State"), p.stats.state.display()));
        RowView { header, details }
    }
}

} // verus!
