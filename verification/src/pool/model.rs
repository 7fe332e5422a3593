//! The pool as a transition system over mathematical values.
//!
//! Jobs are identified by tickets: the job accepted as the `t`-th one (from
//! zero) carries ticket `t`.  A state records every job ever accepted, how
//! many of them have been handed to workers, what each worker is doing, and
//! which worker completed which ticket, in completion order.

use crate::pool::channel::ChannelView;
use crate::pool::worker::{Action, WorkerState};
use vstd::prelude::*;

verus! {

/// What one worker is doing, with the ticket it holds while executing.
pub enum Activity {
    /// Blocked on the channel.
    Waiting,
    /// Running the job with this ticket.
    Executing { ticket: nat },
    /// Gone for good.
    Terminated,
}

impl Activity {
    /// The worker state that shows at run time.
    pub open spec fn state(self) -> WorkerState {
        match self {
            Activity::Waiting => WorkerState::Waiting,
            Activity::Executing { .. } => WorkerState::Executing,
            Activity::Terminated => WorkerState::Terminated,
        }
    }
}

/// The record of one finished job.
pub struct Completion {
    /// The ticket of the job.
    pub ticket: nat,
    /// The index of the worker that ran it.
    pub worker: nat,
}

/// Something that happens to a pool.
pub enum Event<J> {
    /// A caller submits a job.
    Submit(J),
    /// Shutdown begins: the producer side of the channel is released.
    Close,
    /// The worker with this index polls the channel.
    Poll(nat),
    /// The job run by the worker with this index returns.
    Finish(nat),
}

/// A pool as a mathematical value.
pub struct PoolState<J> {
    /// Every job accepted so far, in submission order; the index is the
    /// job's ticket.
    pub accepted: Seq<J>,
    /// How many jobs have been handed to workers: tickets below this number
    /// have left the channel.
    pub delivered: nat,
    /// What each worker is doing, by worker index.
    pub workers: Seq<Activity>,
    /// The finished jobs, in completion order.
    pub completed: Seq<Completion>,
    /// Whether the pool still accepts jobs.
    pub open: bool,
}

impl<J> PoolState<J> {
    /// A fresh pool of `size` waiting workers.
    pub open spec fn init(size: nat) -> Self {
        PoolState {
            accepted: Seq::empty(),
            delivered: 0,
            workers: Seq::new(size, |i: int| Activity::Waiting),
            completed: Seq::empty(),
            open: true,
        }
    }

    /// The jobs accepted and not yet handed to a worker, oldest first.
    pub open spec fn pending(self) -> Seq<J> {
        self.accepted.skip(self.delivered as int)
    }

    /// The work channel as the workers see it.
    pub open spec fn channel(self) -> ChannelView<J> {
        ChannelView { pending: self.pending(), closed: !self.open }
    }

    /// Whether some worker is executing ticket `t`.
    pub open spec fn running(self, t: nat) -> bool {
        exists|i: int|
            0 <= i < self.workers.len() && #[trigger] self.workers[i] == (Activity::Executing {
                ticket: t,
            })
    }

    /// Whether the completion log holds a record for ticket `t`.
    pub open spec fn recorded(self, t: nat) -> bool {
        exists|k: int| 0 <= k < self.completed.len() && (#[trigger] self.completed[k]).ticket == t
    }

    /// Whether the completion log holds exactly one record for ticket `t`.
    pub open spec fn completed_once(self, t: nat) -> bool {
        exists|k: int|
            {
                &&& 0 <= k < self.completed.len()
                &&& (#[trigger] self.completed[k]).ticket == t
                &&& forall|m: int|
                    0 <= m < self.completed.len() && (#[trigger] self.completed[m]).ticket == t
                        ==> m == k
            }
    }

    /// Whether no worker holds a job.
    pub open spec fn idle(self) -> bool {
        forall|i: int|
            0 <= i < self.workers.len() ==> !((#[trigger] self.workers[i]) is Executing)
    }

    /// Whether every worker has terminated.
    pub open spec fn quiescent(self) -> bool {
        forall|i: int|
            0 <= i < self.workers.len() ==> (#[trigger] self.workers[i]) == Activity::Terminated
    }

    /// The pool after a caller has submitted `job`: an open pool queues it
    /// behind every pending job, a closed pool is unchanged.
    pub open spec fn submit(self, job: J) -> Self {
        if self.open {
            PoolState { accepted: self.accepted.push(job), ..self }
        } else {
            self
        }
    }

    /// The pool once shutdown has begun.
    pub open spec fn close(self) -> Self {
        PoolState { open: false, ..self }
    }

    /// Whether a poll by worker `id` takes a job off the channel.
    pub open spec fn takes(self, id: nat) -> bool {
        &&& id < self.workers.len()
        &&& self.workers[id as int] == Activity::Waiting
        &&& self.delivered < self.accepted.len()
    }

    /// Whether a poll by worker `id` terminates that worker.
    pub open spec fn retires(self, id: nat) -> bool {
        &&& id < self.workers.len()
        &&& self.workers[id as int] == Activity::Waiting
        &&& self.delivered >= self.accepted.len()
        &&& !self.open
    }

    /// The pool after worker `id` has polled the channel.
    ///
    /// A waiting worker takes the oldest pending job, whose ticket is
    /// `delivered`; if nothing is pending and the pool is closed, it
    /// terminates.  In every other case nothing changes.
    pub open spec fn poll(self, id: nat) -> Self {
        if self.takes(id) {
            PoolState {
                delivered: self.delivered + 1,
                workers: self.workers.update(
                    id as int,
                    Activity::Executing { ticket: self.delivered },
                ),
                ..self
            }
        } else if self.retires(id) {
            PoolState { workers: self.workers.update(id as int, Activity::Terminated), ..self }
        } else {
            self
        }
    }

    /// What worker `id` is told to do when it polls the channel: run the job
    /// it took, leave if it has terminated or is no worker of this pool, and
    /// wait otherwise.
    pub open spec fn poll_action(self, id: nat) -> Action<J> {
        if self.takes(id) {
            Action::Run(self.accepted[self.delivered as int])
        } else if id >= self.workers.len() || self.retires(id) || self.workers[id as int]
            == Activity::Terminated {
            Action::Exit
        } else {
            Action::Wait
        }
    }

    /// The pool after the job run by worker `id` has returned: the ticket
    /// moves to the end of the completion log and the worker waits again.
    /// A worker that was not executing changes nothing.
    pub open spec fn finish(self, id: nat) -> Self {
        if id < self.workers.len() && self.workers[id as int] is Executing {
            PoolState {
                workers: self.workers.update(id as int, Activity::Waiting),
                completed: self.completed.push(
                    Completion { ticket: self.workers[id as int]->ticket, worker: id },
                ),
                ..self
            }
        } else {
            self
        }
    }

    /// The pool after one event.
    pub open spec fn step(self, event: Event<J>) -> Self {
        match event {
            Event::Submit(job) => self.submit(job),
            Event::Close => self.close(),
            Event::Poll(id) => self.poll(id),
            Event::Finish(id) => self.finish(id),
        }
    }

    /// The pool after a sequence of events, taken from first to last.
    pub open spec fn run(self, events: Seq<Event<J>>) -> Self
        decreases events.len(),
    {
        if events.len() == 0 {
            self
        } else {
            self.run(events.drop_last()).step(events.last())
        }
    }

    /// The closed pool after worker `id` has been joined: the worker has run
    /// everything that was pending, oldest job first, and has terminated.
    pub open spec fn join(self, id: nat) -> Self {
        PoolState {
            delivered: self.accepted.len(),
            workers: self.workers.update(id as int, Activity::Terminated),
            completed: self.completed + Seq::new(
                (self.accepted.len() - self.delivered) as nat,
                |k: int| Completion { ticket: (self.delivered + k) as nat, worker: id },
            ),
            ..self
        }
    }

    /// The pool after a graceful shutdown that finds no job in flight.
    ///
    /// Workers are joined in index order, and a joined worker keeps taking
    /// jobs until the channel is closed and drained.  So the first worker
    /// runs the whole backlog, oldest job first, and then every worker
    /// terminates.
    pub open spec fn shut_down(self) -> Self {
        PoolState {
            accepted: self.accepted,
            delivered: self.accepted.len(),
            workers: Seq::new(self.workers.len(), |i: int| Activity::Terminated),
            completed: self.completed + Seq::new(
                (self.accepted.len() - self.delivered) as nat,
                |k: int| Completion { ticket: (self.delivered + k) as nat, worker: 0 },
            ),
            open: false,
        }
    }

    /// What holds in addition of a pool with a single worker: jobs complete
    /// in the order in which they were submitted.
    pub open spec fn serial(self) -> bool {
        &&& self.workers.len() == 1
        &&& forall|k: int|
            0 <= k < self.completed.len() ==> (#[trigger] self.completed[k]).ticket == k
        &&& match self.workers[0] {
            Activity::Executing { ticket } => ticket == self.completed.len() && self.delivered
                == ticket + 1,
            _ => self.delivered == self.completed.len(),
        }
    }

    /// What holds of every pool that was created with at least one worker
    /// and has been changed by events only.
    pub open spec fn inv(self) -> bool {
        &&& self.workers.len() > 0
        &&& self.delivered <= self.accepted.len()
        // a ticket that a worker holds has left the channel
        &&& forall|i: int|
            0 <= i < self.workers.len() && (#[trigger] self.workers[i]) is Executing
                ==> self.workers[i]->ticket < self.delivered
        // no two workers hold the same ticket
        &&& forall|i: int, j: int|
            0 <= i < self.workers.len() && 0 <= j < self.workers.len() && i != j
                && (#[trigger] self.workers[i]) is Executing
                && (#[trigger] self.workers[j]) is Executing
                ==> self.workers[i]->ticket != self.workers[j]->ticket
        // a completed ticket has left the channel, and a worker of the pool ran it
        &&& forall|k: int|
            0 <= k < self.completed.len() ==> (#[trigger] self.completed[k]).ticket
                < self.delivered && self.completed[k].worker < self.workers.len()
        // no ticket was completed twice
        &&& forall|k: int, m: int|
            0 <= k < self.completed.len() && 0 <= m < self.completed.len() && k != m ==> (
            #[trigger] self.completed[k]).ticket != (#[trigger] self.completed[m]).ticket
        // no completed ticket is being run again
        &&& forall|k: int, i: int|
            0 <= k < self.completed.len() && 0 <= i < self.workers.len()
                && (#[trigger] self.workers[i]) is Executing ==> (
            #[trigger] self.completed[k]).ticket != self.workers[i]->ticket
        // a ticket that has left the channel is held by a worker or completed
        &&& forall|t: nat|
            #![trigger self.recorded(t)]
            #![trigger self.running(t)]
            t < self.delivered ==> self.recorded(t) || self.running(t)
        // a worker terminates only when the pool is closed and drained
        &&& forall|i: int|
            0 <= i < self.workers.len() && (#[trigger] self.workers[i]) == Activity::Terminated
                ==> !self.open && self.delivered == self.accepted.len()
    }
}

} // verus!
