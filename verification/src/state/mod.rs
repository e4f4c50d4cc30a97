//! The state of a run and of a session.

use crate::messages::PayloadKind;
use std::cmp::Ordering;
use vstd::prelude::*;
use vstd::std_specs::cmp::PartialOrdSpecImpl;

pub mod execution;
pub mod history;
pub mod laws;
pub mod machine;
pub mod peer;
pub mod peer_set;
pub mod run;
pub mod unmask;


pub use execution::{Execution, Failure, Peer, Progress};
pub use machine::{PeerStanding, RunStateMachine, Step};

verus! {

/// The two DC-nets of a run.
#[derive(Copy, Clone, Debug, PartialEq, Eq, Structural)]
pub enum DcPhase {
    Exponential,
    Main,
}

/// The states of a run.  A run only ever moves to a state that follows its
/// state in the order of `follows`.
#[derive(Copy, Clone, Debug, PartialEq, Eq, Structural)]
pub enum RunState {
    DcProcess(DcPhase),
    DcReveal(DcPhase),
    Blame,
    Confirm,
}

impl RunState {
    /// The position of the state in the course of a run.
    pub open spec fn rank(self) -> nat {
        match self {
            RunState::DcProcess(DcPhase::Exponential) => 0,
            RunState::DcReveal(DcPhase::Exponential) => 1,
            RunState::DcProcess(DcPhase::Main) => 2,
            RunState::DcReveal(DcPhase::Main) => 3,
            RunState::Blame => 4,
            RunState::Confirm => 5,
        }
    }

    /// The two ends of a run, `Blame` and `Confirm`, exclude each other:
    /// neither comes before the other.
    pub open spec fn comparable(self, other: RunState) -> bool {
        !(self == RunState::Blame && other == RunState::Confirm) && !(self == RunState::Confirm
            && other == RunState::Blame)
    }

    /// `next` strictly follows `self`.
    pub open spec fn follows(self, next: RunState) -> bool {
        self.comparable(next) && self.rank() < next.rank()
    }

    #[inline]
    fn discriminant(&self) -> (d: u32)
        ensures
            d == self.rank(),
    {
        match *self {
            RunState::DcProcess(DcPhase::Exponential) => 0,
            RunState::DcReveal(DcPhase::Exponential) => 1,
            RunState::DcProcess(DcPhase::Main) => 2,
            RunState::DcReveal(DcPhase::Main) => 3,
            RunState::Blame => 4,
            RunState::Confirm => 5,
        }
    }

    /// The payload that the peers send in the state.
    pub open spec fn awaits(self) -> PayloadKind {
        match self {
            RunState::DcProcess(DcPhase::Exponential) => PayloadKind::DcExponential,
            RunState::DcProcess(DcPhase::Main) => PayloadKind::DcMain,
            RunState::DcReveal(_) => PayloadKind::Reveal,
            RunState::Blame => PayloadKind::Blame,
            RunState::Confirm => PayloadKind::Confirm,
        }
    }

    /// The payload that the peers send in the state.
    pub fn awaited(&self) -> (kind: PayloadKind)
        ensures
            kind == self.awaits(),
    {
        match *self {
            RunState::DcProcess(DcPhase::Exponential) => PayloadKind::DcExponential,
            RunState::DcProcess(DcPhase::Main) => PayloadKind::DcMain,
            RunState::DcReveal(_) => PayloadKind::Reveal,
            RunState::Blame => PayloadKind::Blame,
            RunState::Confirm => PayloadKind::Confirm,
        }
    }

    /// Whether `next` strictly follows `self`.
    pub fn precedes(&self, next: &RunState) -> (r: bool)
        ensures
            r == self.follows(*next),
    {
        match (*self, *next) {
            (RunState::Blame, RunState::Confirm) => false,
            (RunState::Confirm, RunState::Blame) => false,
            _ => self.discriminant() < next.discriminant(),
        }
    }
}

impl PartialOrdSpecImpl for RunState {
    open spec fn obeys_partial_cmp_spec() -> bool {
        true
    }

    open spec fn partial_cmp_spec(&self, other: &RunState) -> Option<Ordering> {
        if !self.comparable(*other) {
            None
        } else if self.rank() < other.rank() {
            Some(Ordering::Less)
        } else if self.rank() > other.rank() {
            Some(Ordering::Greater)
        } else {
            Some(Ordering::Equal)
        }
    }
}

impl PartialOrd for RunState {
    fn partial_cmp(&self, other: &RunState) -> (r: Option<Ordering>) {
        match (*self, *other) {
            (RunState::Blame, RunState::Confirm) => None,
            (RunState::Confirm, RunState::Blame) => None,
            _ => {
                let a: u32 = self.discriminant();
                let b: u32 = other.discriminant();
                if a < b {
                    Some(Ordering::Less)
                } else if a > b {
                    Some(Ordering::Greater)
                } else {
                    Some(Ordering::Equal)
                }
            },
        }
    }
}

/// No state follows itself.
pub proof fn lemma_follows_irreflexive(a: RunState)
    ensures
        !a.follows(a),
{
}

/// A state that follows a follower follows.
pub proof fn lemma_follows_transitive(a: RunState, b: RunState, c: RunState)
    requires
        a.follows(b),
        b.follows(c),
    ensures
        a.follows(c),
{
}

/// Of two states at most one follows the other.
pub proof fn lemma_follows_asymmetric(a: RunState, b: RunState)
    requires
        a.follows(b),
    ensures
        !b.follows(a),
{
}

/// A run that has reached `Blame` never reaches `Confirm`, and a run that
/// has reached `Confirm` never reaches `Blame`: neither state follows the
/// other, and no state follows either of them.
pub proof fn lemma_blame_and_confirm_are_ends(next: RunState)
    ensures
        !RunState::Blame.follows(RunState::Confirm),
        !RunState::Confirm.follows(RunState::Blame),
        !RunState::Blame.follows(next),
        !RunState::Confirm.follows(next),
{
}

} // verus!
