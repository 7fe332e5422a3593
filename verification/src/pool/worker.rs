//! A worker: the state machine behind one background execution context.

use crate::pool::channel::{ChannelView, Delivery, WorkChannel};
use vstd::prelude::*;

verus! {

/// Where a worker stands in its life.
#[derive(Clone, Copy, PartialEq, Eq, Debug, Structural)]
pub enum WorkerState {
    /// Blocked on the channel, ready to take a job.
    Waiting,
    /// Running a job it has taken from the channel.
    Executing,
    /// Has seen the channel closed and drained; it takes no further job.
    Terminated,
}

/// What a worker's execution context has to do next.
#[derive(Debug)]
pub enum Action<J> {
    /// Run this job, then report back with `finish`.
    Run(J),
    /// Nothing can be started now: block until the channel changes.
    Wait,
    /// Leave the loop: the worker has terminated.
    Exit,
}

/// A worker as a mathematical value.
pub struct WorkerView {
    /// The index given at pool creation.
    pub id: usize,
    /// The current state.
    pub state: WorkerState,
}

/// One worker of a pool.
pub struct Worker {
    id: usize,
    state: WorkerState,
}

impl View for Worker {
    type V = WorkerView;

    closed spec fn view(&self) -> WorkerView {
        WorkerView { id: self.id, state: self.state }
    }
}

/// The state a worker is in after polling `channel` from `state`.
///
/// Only a waiting worker touches the channel: a pending job makes it
/// execute, a closed and drained channel terminates it, and an open, empty
/// channel leaves it waiting.
pub open spec fn state_after_poll<J>(state: WorkerState, channel: ChannelView<J>) -> WorkerState {
    match state {
        WorkerState::Waiting => if channel.pending.len() > 0 {
            WorkerState::Executing
        } else if channel.closed {
            WorkerState::Terminated
        } else {
            WorkerState::Waiting
        },
        WorkerState::Executing => WorkerState::Executing,
        WorkerState::Terminated => WorkerState::Terminated,
    }
}

/// The channel after a worker in `state` has polled it: a waiting worker
/// removes the oldest pending job, nothing else changes.
pub open spec fn channel_after_poll<J>(state: WorkerState, channel: ChannelView<J>) -> ChannelView<
    J,
> {
    if state == WorkerState::Waiting && channel.pending.len() > 0 {
        ChannelView { pending: channel.pending.drop_first(), closed: channel.closed }
    } else {
        channel
    }
}

/// The action a worker in `state` is told to take when it polls `channel`.
pub open spec fn action_of_poll<J>(state: WorkerState, channel: ChannelView<J>) -> Action<J> {
    match state {
        WorkerState::Waiting => if channel.pending.len() > 0 {
            Action::Run(channel.pending[0])
        } else if channel.closed {
            Action::Exit
        } else {
            Action::Wait
        },
        WorkerState::Executing => Action::Wait,
        WorkerState::Terminated => Action::Exit,
    }
}

/// The state a worker is in once the job it was running has returned.
pub open spec fn state_after_finish(state: WorkerState) -> WorkerState {
    if state == WorkerState::Executing {
        WorkerState::Waiting
    } else {
        state
    }
}

impl Worker {
    /// Creates worker number `id`, waiting for its first job.
    pub fn new(id: usize) -> (worker: Worker)
        ensures
            worker@ == (WorkerView { id, state: WorkerState::Waiting }),
    {
        Worker { id, state: WorkerState::Waiting }
    }

    /// The index given at creation.
    pub fn id(&self) -> (id: usize)
        ensures
            id == self@.id,
    {
        self.id
    }

    /// The current state.
    pub fn state(&self) -> (state: WorkerState)
        ensures
            state == self@.state,
    {
        self.state
    }

    /// One turn of the worker's loop: try to take the oldest pending job.
    ///
    /// A worker that is executing or terminated leaves the channel alone,
    /// so a job is never taken by a worker that cannot run it.
    pub fn poll<J>(&mut self, channel: &mut WorkChannel<J>) -> (action: Action<J>)
        ensures
            final(self)@.id == old(self)@.id,
            final(self)@.state == state_after_poll(old(self)@.state, old(channel)@),
            final(channel)@ == channel_after_poll(old(self)@.state, old(channel)@),
            action == action_of_poll(old(self)@.state, old(channel)@),
    {
        match self.state {
            WorkerState::Waiting => match channel.recv() {
                Delivery::Job(job) => {
                    self.state = WorkerState::Executing;
                    Action::Run(job)
                },
                Delivery::Empty => Action::Wait,
                Delivery::Closed => {
                    self.state = WorkerState::Terminated;
                    Action::Exit
                },
            },
            WorkerState::Executing => Action::Wait,
            WorkerState::Terminated => Action::Exit,
        }
    }

    /// Records that the job this worker was running has returned.
    ///
    /// A worker that was not executing is left as it is.
    pub fn finish(&mut self)
        ensures
            final(self)@.id == old(self)@.id,
            final(self)@.state == state_after_finish(old(self)@.state),
    {
        match self.state {
            WorkerState::Executing => {
                self.state = WorkerState::Waiting;
            },
            _ => {},
        }
    }
}

} // verus!
