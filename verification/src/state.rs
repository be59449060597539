//! The scheduling state of a process, decoded from the single-letter
//! code that follows the command name in a stat line.

use vstd::prelude::*;

verus! {

/// One of the six recognised scheduling states.
#[derive(Clone, Copy, Debug, PartialEq, Eq, Structural)]
pub enum ProcessState {
    Running,
    Sleeping,
    UninterruptibleSleeping,
    Stopped,
    Zombie,
    Idle,
}

/// The state a status byte encodes, or `None` for an unrecognised
/// byte: the ASCII codes of `R`, `S`, `D`, `T`, `Z` and `I`.
pub open spec fn spec_state_of_byte(b: u8) -> Option<ProcessState> {
    if b == 82 {
        Some(ProcessState::Running)
    } else if b == 83 {
        Some(ProcessState::Sleeping)
    } else if b == 68 {
        Some(ProcessState::UninterruptibleSleeping)
    } else if b == 84 {
        Some(ProcessState::Stopped)
    } else if b == 90 {
        Some(ProcessState::Zombie)
    } else if b == 73 {
        Some(ProcessState::Idle)
    } else {
        None
    }
}

/// Decodes one status byte.
pub fn state_of_byte(b: u8) -> (r: Option<ProcessState>)
    ensures
        r == spec_state_of_byte(b),
{
    match b {
        82 => Some(ProcessState::Running),
        83 => Some(ProcessState::Sleeping),
        68 => Some(ProcessState::UninterruptibleSleeping),
        84 => Some(ProcessState::Stopped),
        90 => Some(ProcessState::Zombie),
        73 => Some(ProcessState::Idle),
        _ => None,
    }
}

impl ProcessState {
    /// The human-readable name of the state.
    pub open spec fn display_view(self) -> Seq<char> {
        match self {
            ProcessState::Running => "Running"@,
            ProcessState::Sleeping => "Sleeping"@,
            ProcessState::UninterruptibleSleeping => "Uninterruptable Sleep"@,
            ProcessState::Stopped => "Stopped"@,
            ProcessState::Zombie => "Zombie"@,
            ProcessState::Idle => "Idle"@,
        }
    }

    /// The human-readable name of the state, as shown in the detail row.
    pub fn display(&self) -> (r: String)
        ensures
            r@ == self.display_view(),
    {
        match self {
            ProcessState::Running => String::from_str("Running"),
            ProcessState::Sleeping => String::from_str("Sleeping"),
            ProcessState::UninterruptibleSleeping => String::from_str("Uninterruptable Sleep"),
            ProcessState::Stopped => String::from_str("Stopped"),
            ProcessState::Zombie => String::from_str("Zombie"),
            ProcessState::Idle => String::from_str("Idle"),
        }
    }
}

} // verus!
