//! Cooperative tasks: a task is a suspended computation that is polled
//! repeatedly, reporting `Pending` until it resolves with `Ready`. Here a
//! task's computation is an explicit state machine — a countdown of how many
//! polls it will spend suspended — paired with a waker capability that is the
//! only way to resume it once parked.
use vstd::prelude::*;

pub mod executor;
pub mod keyboard;
pub mod simple;

verus! {

/// Identifier of a task, unique for the lifetime of the executor that runs
/// it, assigned at creation and never reused. The caller picks the value —
/// typically counting upward — and the executor refuses a spawn whose id it
/// already tracks, so uniqueness holds without process-wide mutable state.
#[derive(Clone, Copy, Debug, PartialEq, Eq, Structural)]
pub struct TaskId(pub u64);

impl TaskId {
    /// A task identifier with the given value.
    pub fn new(id: u64) -> (r: Self)
        ensures
            r == TaskId(id),
    {
        TaskId(id)
    }
}

/// What one poll of a task reports.
#[derive(Clone, Copy, Debug, PartialEq, Eq, Structural)]
pub enum PollState {
    /// The computation finished; the task must not be polled again.
    Ready,
    /// The computation is suspended; it resumes when its waker is invoked.
    Pending,
}

/// A suspended computation: it reports `Pending` for the next `remaining`
/// polls and `Ready` on the one after.
#[derive(Clone, Copy, Debug, PartialEq, Eq, Structural)]
pub struct Task {
    pub id: TaskId,
    pub remaining: u64,
}

impl Task {
    /// A task that will be suspended for the next `remaining` polls.
    pub fn new(id: TaskId, remaining: u64) -> (r: Self)
        ensures
            r == (Task { id, remaining }),
    {
        Task { id, remaining }
    }

    /// Poll the task once: `Ready` exactly when its countdown has run out,
    /// else `Pending` with the countdown advanced by one.
    pub fn poll(&mut self) -> (r: PollState)
        ensures
            final(self).id == old(self).id,
            old(self).remaining == 0 ==> r == PollState::Ready && *final(self) == *old(self),
            old(self).remaining > 0 ==> r == PollState::Pending && final(self).remaining == old(
                self,
            ).remaining - 1,
    {
        if self.remaining == 0 {
            PollState::Ready
        } else {
            self.remaining = self.remaining - 1;
            PollState::Pending
        }
    }
}

} // verus!
