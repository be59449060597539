//! The stat-line parser. A stat file is a single line
//! `<pid> (<tcomm>) <state> ...`: the command name is bounded by the
//! first `(` and the last `)` of the line, so it may itself contain
//! spaces, `(` and `)`.

use vstd::prelude::*;

use crate::decode::{lossy_of, lossy_substring};
use crate::digits::{digits_value, digits_wf};
use crate::state::{spec_state_of_byte, state_of_byte, ProcessState};

verus! {

/// The ASCII space that separates stat fields.
pub const SPACE: u8 = 32;

/// The ASCII `(` that opens the command name.
pub const OPEN_PAREN: u8 = 40;

/// The ASCII `)` that closes the command name.
pub const CLOSE_PAREN: u8 = 41;

/// The parsed fields of one stat line.
pub struct ProcessStats {
    /// The PID the line itself carries (redundant with the directory name).
    pub pid: u64,
    /// The command name, stripped of its bounding parentheses.
    pub tcomm: String,
    /// The decoded scheduling state.
    pub state: ProcessState,
}

/// The mathematical image of a `ProcessStats`.
pub ghost struct ProcessStatsView {
    pub pid: u64,
    pub tcomm: Seq<char>,
    pub state: ProcessState,
}

impl View for ProcessStats {
    type V = ProcessStatsView;

    open spec fn view(&self) -> ProcessStatsView {
        ProcessStatsView { pid: self.pid, tcomm: self.tcomm@, state: self.state }
    }
}

/// The needle occurs in the command name.
pub open spec fn stats_matches(st: ProcessStatsView, needle: Seq<char>) -> bool {
    crate::search::is_substring(st.tcomm, needle)
}

impl ProcessStats {
    /// Whether the search text occurs in the command name.
    pub fn contains(&self, search_text: &str) -> (r: bool)
        ensures
            r == stats_matches(self@, search_text@),
    {
        crate::search::str_contains(self.tcomm.as_str(), search_text)
    }
}

/// The line parses: a decimal PID before the first space, a `(` after
/// it, a later `)`, a space right after that `)`, and then a known
/// state byte.
pub open spec fn stat_wf(s: Seq<u8>) -> bool {
    &&& s.index_of_first(SPACE) is Some
    &&& s.index_of_first(OPEN_PAREN) is Some
    &&& s.index_of_last(CLOSE_PAREN) is Some
    &&& {
        let sp = s.index_of_first(SPACE)->0;
        let l = s.index_of_first(OPEN_PAREN)->0;
        let r = s.index_of_last(CLOSE_PAREN)->0;
        &&& digits_wf(s.subrange(0, sp))
        &&& digits_value(s.subrange(0, sp)) <= u64::MAX
        &&& sp < l
        &&& l < r
        &&& r + 2 < s.len()
        &&& s[r + 1] == SPACE
        &&& spec_state_of_byte(s[r + 2]) is Some
    }
}

/// The PID a well-formed line starts with.
pub open spec fn stat_pid(s: Seq<u8>) -> nat {
    digits_value(s.subrange(0, s.index_of_first(SPACE)->0))
}

/// The command-name bytes of a well-formed line: everything strictly
/// between the first `(` and the last `)`.
pub open spec fn stat_tcomm_bytes(s: Seq<u8>) -> Seq<u8> {
    s.subrange(s.index_of_first(OPEN_PAREN)->0 + 1, s.index_of_last(CLOSE_PAREN)->0)
}

/// The state a well-formed line codes after the last `)`.
pub open spec fn stat_state(s: Seq<u8>) -> ProcessState {
    spec_state_of_byte(s[s.index_of_last(CLOSE_PAREN)->0 + 2])->0
}

/// A position that carries `b` with none before it is the first.
proof fn lemma_found_first(s: Seq<u8>, b: u8, i: int)
    requires
        0 <= i < s.len(),
        s[i] == b,
        forall|j: int| 0 <= j < i ==> s[j] != b,
    ensures
        s.index_of_first(b) == Some(i),
{
    s.index_of_first_ensures(b);
    assert(s.contains(b)) by {
        assert(s[i] == b);
    }
}

/// A byte that occurs nowhere has no first position.
proof fn lemma_no_first(s: Seq<u8>, b: u8)
    requires
        forall|j: int| 0 <= j < s.len() ==> s[j] != b,
    ensures
        s.index_of_first(b) is None,
{
    s.index_of_first_ensures(b);
    if s.index_of_first(b) is Some {
        assert(s[s.index_of_first(b)->0] == b);
    }
}

/// A position that carries `b` with none after it is the last.
proof fn lemma_found_last(s: Seq<u8>, b: u8, i: int)
    requires
        0 <= i < s.len(),
        s[i] == b,
        forall|j: int| i < j < s.len() ==> s[j] != b,
    ensures
        s.index_of_last(b) == Some(i),
{
    s.index_of_last_ensures(b);
    assert(s.contains(b)) by {
        assert(s[i] == b);
    }
}

/// A byte that occurs nowhere has no last position.
proof fn lemma_no_last(s: Seq<u8>, b: u8)
    requires
        forall|j: int| 0 <= j < s.len() ==> s[j] != b,
    ensures
        s.index_of_last(b) is None,
{
    s.index_of_last_ensures(b);
    if s.index_of_last(b) is Some {
        assert(s[s.index_of_last(b)->0] == b);
    }
}

/// Parses the raw bytes of a stat file. Returns the record exactly when
/// the line is well-formed; the command name is decoded lossily.
pub fn parse_stat(bytes: &Vec<u8>) -> (r: Option<ProcessStats>)
    ensures
        match r {
            Some(st) => {
                &&& stat_wf(bytes@)
                &&& st.pid as nat == stat_pid(bytes@)
                &&& st.tcomm@ == lossy_of(stat_tcomm_bytes(bytes@))
                &&& (forall|i: int|
                    0 <= i < stat_tcomm_bytes(bytes@).len() ==> #[trigger] stat_tcomm_bytes(
                        bytes@,
                    )[i] < 128) ==> st.tcomm@ == stat_tcomm_bytes(bytes@).map_values(
                    |b: u8| b as char,
                )
                &&& st.state == stat_state(bytes@)
            },
            None => !stat_wf(bytes@),
        },
{
    let n: usize = bytes.len();
    let mut sp: usize = 0;
    while sp < n && bytes[sp] != SPACE
        invariant
            sp <= n,
            n == bytes@.len(),
            forall|j: int| 0 <= j < sp ==> bytes@[j] != SPACE,
        decreases n - sp,
    {
        sp += 1;
    }
    if sp == n {
        proof {
            lemma_no_first(bytes@, SPACE);
        }
        return None;
    }
    proof {
        lemma_found_first(bytes@, SPACE, sp as int);
    }
    let mut l: usize = 0;
    while l < n && bytes[l] != OPEN_PAREN
        invariant
            l <= n,
            n == bytes@.len(),
            forall|j: int| 0 <= j < l ==> bytes@[j] != OPEN_PAREN,
        decreases n - l,
    {
        l += 1;
    }
    if l == n {
        proof {
            lemma_no_first(bytes@, OPEN_PAREN);
        }
        return None;
    }
    proof {
        lemma_found_first(bytes@, OPEN_PAREN, l as int);
    }
    let mut rp: usize = n;
    while rp > 0 && bytes[rp - 1] != CLOSE_PAREN
        invariant
            rp <= n,
            n == bytes@.len(),
            forall|j: int| rp <= j < n ==> bytes@[j] != CLOSE_PAREN,
        decreases rp,
    {
        rp -= 1;
    }
    if rp == 0 {
        proof {
            lemma_no_last(bytes@, CLOSE_PAREN);
        }
        return None;
    }
    let r: usize = rp - 1;
    proof {
        lemma_found_last(bytes@, CLOSE_PAREN, r as int);
    }
    let pid = match crate::digits::parse_u64_digits(bytes, 0, sp) {
        Some(v) => v,
        None => {
            return None;
        },
    };
    if l <= sp || r <= l {
        return None;
    }
    if n - r <= 2 {
        return None;
    }
    if bytes[r + 1] != SPACE {
        return None;
    }
    let state = match state_of_byte(bytes[r + 2]) {
        Some(st) => st,
        None => {
            return None;
        },
    };
    let tcomm = lossy_substring(bytes, l + 1, r);
    proof {
        assert(stat_tcomm_bytes(bytes@) == bytes@.subrange(l + 1, r as int));
        if forall|i: int|
            0 <= i < stat_tcomm_bytes(bytes@).len() ==> #[trigger] stat_tcomm_bytes(bytes@)[i]
                < 128 {
            assert forall|i: int| l + 1 <= i < r implies bytes@[i] < 128 by {
                assert(stat_tcomm_bytes(bytes@)[i - (l + 1)] == bytes@[i]);
            }
        }
    }
    Some(ProcessStats { pid, tcomm, state })
}

/// Round trip: a line assembled as `<pid> (<tcomm>) <state> <rest>`
/// parses back to exactly that PID, command name, and state — for any
/// command-name bytes at all, as long as no later `)` follows in the
/// rest of the line.
pub proof fn lemma_stat_round_trip(pid_digits: Seq<u8>, tcomm: Seq<u8>, code: u8, rest: Seq<u8>)
    requires
        digits_wf(pid_digits),
        digits_value(pid_digits) <= u64::MAX,
        spec_state_of_byte(code) is Some,
        forall|j: int| 0 <= j < rest.len() ==> rest[j] != CLOSE_PAREN,
    ensures
        ({
            let line = pid_digits + seq![SPACE, OPEN_PAREN] + tcomm + seq![
                CLOSE_PAREN,
                SPACE,
                code,
            ] + rest;
            &&& stat_wf(line)
            &&& stat_pid(line) == digits_value(pid_digits)
            &&& stat_tcomm_bytes(line) == tcomm
            &&& stat_state(line) == spec_state_of_byte(code)->0
        }),
{
    let line = pid_digits + seq![SPACE, OPEN_PAREN] + tcomm + seq![CLOSE_PAREN, SPACE, code]
        + rest;
    let d = pid_digits.len() as int;
    let t = tcomm.len() as int;
    assert(line.len() == d + t + 5 + rest.len());
    assert forall|j: int| 0 <= j < d implies line[j] == pid_digits[j] by {}
    assert(line[d] == SPACE);
    assert(line[d + 1] == OPEN_PAREN);
    assert forall|j: int| 0 <= j < t implies line[d + 2 + j] == tcomm[j] by {}
    assert(line[d + 2 + t] == CLOSE_PAREN);
    assert(line[d + 3 + t] == SPACE);
    assert(line[d + 4 + t] == code);
    assert forall|j: int| d + 5 + t <= j < line.len() implies line[j] == rest[j - (d + 5 + t)] by {}
    lemma_found_first(line, SPACE, d);
    lemma_found_first(line, OPEN_PAREN, d + 1);
    lemma_found_last(line, CLOSE_PAREN, d + 2 + t);
    assert(line.subrange(0, d) =~= pid_digits);
    assert(line.subrange(d + 2, d + 2 + t) =~= tcomm);
}

/// The command name sits strictly inside its bounding parentheses: the
/// slice from the first `(` to the last `)` is exactly `(`, the
/// command-name bytes, `)`.
pub proof fn lemma_tcomm_within_parens(s: Seq<u8>)
    requires
        stat_wf(s),
    ensures
        ({
            let l = s.index_of_first(OPEN_PAREN)->0;
            let r = s.index_of_last(CLOSE_PAREN)->0;
            &&& s[l] == OPEN_PAREN
            &&& s[r] == CLOSE_PAREN
            &&& s.subrange(l, r + 1) == seq![OPEN_PAREN] + stat_tcomm_bytes(s) + seq![CLOSE_PAREN]
        }),
{
    s.index_of_first_ensures(OPEN_PAREN);
    s.index_of_last_ensures(CLOSE_PAREN);
    let l = s.index_of_first(OPEN_PAREN)->0;
    let r = s.index_of_last(CLOSE_PAREN)->0;
    assert(s.subrange(l, r + 1) =~= seq![OPEN_PAREN] + stat_tcomm_bytes(s) + seq![CLOSE_PAREN]);
}

} // verus!
