//! A fixed-size pool of workers fed by one closable FIFO channel.
//!
//! The pool is written as a deterministic state machine: every decision the
//! pool and its workers take (accept or reject a job, hand the oldest job to
//! a worker, retire a worker once the channel is closed and drained) is a
//! verified transition.  The embedding program supplies the execution
//! contexts: it calls [`ThreadPool::worker_poll`] from each worker's thread,
//! runs the job it is handed, and reports back with
//! [`ThreadPool::worker_finish`].

pub mod channel;
pub mod worker;
pub mod model;
pub mod laws;

use crate::pool::channel::WorkChannel;
use crate::pool::laws::{
    law_close_keeps_inv, law_finish_keeps_inv, law_fresh_pool, law_poll_keeps_inv,
    law_shutdown_is_idempotent, law_shutdown_runs_every_job, law_submit_keeps_inv,
};
use crate::pool::model::{Activity, Completion, PoolState};
use crate::pool::worker::{Action, Worker, WorkerState, WorkerView};
use vstd::prelude::*;

verus! {

/// The error of a submission that came after shutdown had begun.  It hands
/// the rejected job back to the caller.
#[derive(Debug)]
pub struct PoolClosed<J>(pub J);

/// A fixed set of workers and the channel that feeds them.
pub struct ThreadPool<J> {
    channel: WorkChannel<J>,
    workers: Vec<Worker>,
    accepted: Ghost<Seq<J>>,
    delivered: Ghost<nat>,
    activity: Ghost<Seq<Activity>>,
    completed: Ghost<Seq<Completion>>,
}

impl<J> View for ThreadPool<J> {
    type V = PoolState<J>;

    closed spec fn view(&self) -> PoolState<J> {
        PoolState {
            accepted: self.accepted@,
            delivered: self.delivered@,
            workers: self.activity@,
            completed: self.completed@,
            open: !self.channel@.closed,
        }
    }
}

impl<J> ThreadPool<J> {
    /// Whether the pool's data agree with its history: the channel holds
    /// exactly the accepted jobs that no worker has taken, the workers are
    /// numbered from zero and are in the states the history gives them, and
    /// the history satisfies the pool invariant.
    pub closed spec fn wf(&self) -> bool {
        &&& self@.inv()
        &&& self.channel@ == self@.channel()
        &&& self.workers@.len() == self@.workers.len()
        &&& forall|i: int|
            0 <= i < self.workers@.len() ==> (#[trigger] self.workers@[i])@ == (WorkerView {
                id: i as usize,
                state: self@.workers[i].state(),
            })
    }

    /// A well-formed pool satisfies the pool invariant.
    pub proof fn lemma_wf_gives_inv(&self)
        requires
            self.wf(),
        ensures
            self@.inv(),
    {
    }

    /// Creates a pool of `size` workers, all waiting, with an open and empty
    /// channel.
    ///
    /// A pool needs at least one worker: with none, accepted jobs would
    /// never run.
    pub fn new(size: usize) -> (pool: Self)
        requires
            size > 0,
        ensures
            pool.wf(),
            pool@ == PoolState::<J>::init(size as nat),
    {
        let channel = WorkChannel::new();
        let mut workers: Vec<Worker> = Vec::new();
        let mut id: usize = 0;
        while id < size
            invariant
                id <= size,
                workers@.len() == id,
                forall|i: int|
                    0 <= i < id ==> (#[trigger] workers@[i])@ == (WorkerView {
                        id: i as usize,
                        state: WorkerState::Waiting,
                    }),
            decreases size - id,
        {
            workers.push(Worker::new(id));
            id += 1;
        }
        let pool = ThreadPool {
            channel,
            workers,
            accepted: Ghost(Seq::empty()),
            delivered: Ghost(0),
            activity: Ghost(Seq::new(size as nat, |i: int| Activity::Waiting)),
            completed: Ghost(Seq::empty()),
        };
        proof {
            law_fresh_pool::<J>(size as nat);
            assert(pool@.pending() =~= Seq::<J>::empty());
        }
        pool
    }

    /// The number of workers, fixed at creation.
    pub fn size(&self) -> (n: usize)
        requires
            self.wf(),
        ensures
            n == self@.workers.len(),
            n > 0,
    {
        self.workers.len()
    }

    /// Whether the pool still accepts jobs.
    pub fn is_open(&self) -> (open: bool)
        ensures
            open == self@.open,
    {
        !self.channel.is_closed()
    }

    /// The number of jobs accepted and not yet taken by a worker.
    pub fn pending_jobs(&self) -> (n: usize)
        requires
            self.wf(),
        ensures
            n == self@.pending().len(),
    {
        self.channel.len()
    }

    /// The state of worker `id`, or `None` if the pool has no such worker.
    pub fn worker_state(&self, id: usize) -> (state: Option<WorkerState>)
        requires
            self.wf(),
        ensures
            id < self@.workers.len() ==> state == Some(self@.workers[id as int].state()),
            id >= self@.workers.len() ==> state is None,
    {
        if id < self.workers.len() {
            Some(self.workers[id].state())
        } else {
            None
        }
    }

    /// Whether every worker has terminated.
    pub fn is_terminated(&self) -> (done: bool)
        requires
            self.wf(),
        ensures
            done == self@.quiescent(),
    {
        let mut id: usize = 0;
        while id < self.workers.len()
            invariant
                self.wf(),
                id <= self.workers@.len(),
                forall|i: int| 0 <= i < id ==> (#[trigger] self@.workers[i]) == Activity::Terminated,
            decreases self.workers@.len() - id,
        {
            match self.workers[id].state() {
                WorkerState::Terminated => {},
                _ => {
                    assert(self@.workers[id as int] != Activity::Terminated);
                    return false;
                },
            }
            id += 1;
        }
        true
    }

    /// Submits `job`: an open pool queues it behind every pending job.
    ///
    /// Once shutdown has begun the pool takes nothing: the job comes back in
    /// the error and the pool is unchanged.
    pub fn execute(&mut self, job: J) -> (r: Result<(), PoolClosed<J>>)
        requires
            old(self).wf(),
        ensures
            final(self).wf(),
            final(self)@ == old(self)@.submit(job),
            old(self)@.open ==> r == Ok::<(), PoolClosed<J>>(()),
            !old(self)@.open ==> r == Err::<(), PoolClosed<J>>(PoolClosed(job)),
    {
        let ghost submitted = job;
        match self.channel.send(job) {
            Ok(()) => {
                proof {
                    self.accepted@ = self.accepted@.push(submitted);
                    law_submit_keeps_inv(old(self)@, submitted);
                    assert(self@.pending() =~= old(self)@.pending().push(submitted));
                }
                Ok(())
            },
            Err(job) => Err(PoolClosed(job)),
        }
    }

    /// Begins shutdown: from now on no job is accepted.  Pending jobs stay in
    /// the channel for the workers.  On a closed pool this changes nothing.
    pub fn begin_shutdown(&mut self)
        requires
            old(self).wf(),
        ensures
            final(self).wf(),
            final(self)@ == old(self)@.close(),
    {
        self.channel.close();
        proof {
            law_close_keeps_inv(old(self)@);
        }
    }

    /// One turn of worker `id`'s loop.
    ///
    /// A waiting worker is handed the oldest pending job and starts
    /// executing; if nothing is pending it waits on while the pool is open
    /// and terminates once the pool is closed.  A worker that is executing
    /// is told to wait, and a terminated or unknown worker to leave; for
    /// these the pool is unchanged.
    pub fn worker_poll(&mut self, id: usize) -> (action: Action<J>)
        requires
            old(self).wf(),
        ensures
            final(self).wf(),
            final(self)@ == old(self)@.poll(id as nat),
            action == old(self)@.poll_action(id as nat),
    {
        if id >= self.workers.len() {
            return Action::Exit;
        }
        let action = self.workers[id].poll(&mut self.channel);
        proof {
            let before = old(self)@;
            if before.takes(id as nat) {
                self.activity@ = before.workers.update(
                    id as int,
                    Activity::Executing { ticket: before.delivered },
                );
                self.delivered@ = before.delivered + 1;
                assert(self@.pending() =~= before.pending().drop_first());
            } else if before.retires(id as nat) {
                self.activity@ = before.workers.update(id as int, Activity::Terminated);
                assert(before.pending().len() == 0);
            }
            law_poll_keeps_inv(before, id as nat);
            assert(self@ == before.poll(id as nat));
        }
        action
    }

    /// Records that the job run by worker `id` has returned: the worker
    /// waits again.  A worker that was not executing, or an unknown one,
    /// changes nothing.
    pub fn worker_finish(&mut self, id: usize)
        requires
            old(self).wf(),
        ensures
            final(self).wf(),
            final(self)@ == old(self)@.finish(id as nat),
    {
        if id >= self.workers.len() {
            return ;
        }
        self.workers[id].finish();
        proof {
            let before = old(self)@;
            if before.workers[id as int] is Executing {
                self.activity@ = before.workers.update(id as int, Activity::Waiting);
                self.completed@ = before.completed.push(
                    Completion { ticket: before.workers[id as int]->ticket, worker: id as nat },
                );
            }
            law_finish_keeps_inv(before, id as nat);
            assert(self@ == before.finish(id as nat));
        }
    }
}

impl<J: FnOnce()> ThreadPool<J> {
    /// Joins worker `id` of a closed pool: runs the worker's loop to its
    /// end.  The worker takes and runs the pending jobs one by one, oldest
    /// first, and terminates when the channel is drained.
    fn join(&mut self, id: usize)
        requires
            old(self).wf(),
            !old(self)@.open,
            old(self)@.idle(),
            id < old(self)@.workers.len(),
            forall|k: int|
                0 <= k < old(self)@.pending().len() ==> call_requires(
                    #[trigger] old(self)@.pending()[k],
                    (),
                ),
        ensures
            final(self).wf(),
            final(self)@ == old(self)@.join(id as nat),
    {
        loop
            invariant_except_break
                old(self)@.workers[id as int] == Activity::Waiting ==> self@.workers
                    == old(self)@.workers,
            invariant
                self.wf(),
                !self@.open,
                self@.idle(),
                id < self@.workers.len(),
                self@.accepted == old(self)@.accepted,
                old(self)@.delivered <= self@.delivered <= self@.accepted.len(),
                old(self)@.workers[id as int] != Activity::Waiting ==> self@ == old(self)@,
                self@.completed == old(self)@.completed + Seq::new(
                    (self@.delivered - old(self)@.delivered) as nat,
                    |k: int|
                        Completion {
                            ticket: (old(self)@.delivered + k) as nat,
                            worker: id as nat,
                        },
                ),
                forall|k: int|
                    0 <= k < self@.pending().len() ==> call_requires(
                        #[trigger] self@.pending()[k],
                        (),
                    ),
            ensures
                self@.workers == old(self)@.workers.update(id as int, Activity::Terminated),
                self@.delivered == self@.accepted.len(),
            decreases self@.accepted.len() - self@.delivered,
        {
            let ghost before = self@;
            match self.worker_poll(id) {
                Action::Run(job) => {
                    assert(job == before.pending()[0]);
                    job();
                    self.worker_finish(id);
                    proof {
                        assert(self@.workers =~= before.workers);
                        assert(self@.completed =~= old(self)@.completed + Seq::new(
                            (self@.delivered - old(self)@.delivered) as nat,
                            |k: int|
                                Completion {
                                    ticket: (old(self)@.delivered + k) as nat,
                                    worker: id as nat,
                                },
                        ));
                        assert forall|k: int| 0 <= k < self@.pending().len() implies call_requires(
                            #[trigger] self@.pending()[k],
                            (),
                        ) by {
                            assert(self@.pending()[k] == before.pending()[k + 1]);
                        }
                    }
                },
                _ => {
                    proof {
                        assert(self@.workers =~= old(self)@.workers.update(
                            id as int,
                            Activity::Terminated,
                        ));
                    }
                    break ;
                },
            }
        }
        proof {
            assert(self@.completed =~= old(self)@.join(id as nat).completed);
        }
    }

    /// Shuts the pool down gracefully: closes it, then joins every worker in
    /// index order.
    ///
    /// Every job accepted before the call has been run when the call
    /// returns, each exactly once and oldest first, and every worker has
    /// terminated.  On a pool that has already shut down nothing happens.
    ///
    /// The caller must have reported the return of every job it was handed
    /// by [`ThreadPool::worker_poll`], and every pending job must be
    /// callable.
    pub fn shutdown(&mut self)
        requires
            old(self).wf(),
            old(self)@.idle(),
            forall|k: int|
                0 <= k < old(self)@.pending().len() ==> call_requires(
                    #[trigger] old(self)@.pending()[k],
                    (),
                ),
        ensures
            final(self).wf(),
            final(self)@ == old(self)@.shut_down(),
            final(self)@.quiescent(),
            forall|t: nat|
                t < old(self)@.accepted.len() ==> #[trigger] final(self)@.completed_once(t),
            old(self)@.quiescent() ==> final(self)@ == old(self)@,
    {
        proof {
            old(self).lemma_wf_gives_inv();
            law_shutdown_runs_every_job(old(self)@);
            law_shutdown_is_idempotent(old(self)@);
        }
        self.begin_shutdown();
        let size = self.workers.len();
        let mut id: usize = 0;
        while id < size
            invariant
                self.wf(),
                !self@.open,
                self@.idle(),
                size == self@.workers.len(),
                id <= size,
                self@.accepted == old(self)@.accepted,
                id == 0 ==> self@ == old(self)@.close(),
                id > 0 ==> self@.delivered == self@.accepted.len() && self@.completed == old(
                    self,
                )@.shut_down().completed,
                forall|i: int| 0 <= i < id ==> (#[trigger] self@.workers[i]) == Activity::Terminated,
                forall|k: int|
                    0 <= k < self@.pending().len() ==> call_requires(
                        #[trigger] self@.pending()[k],
                        (),
                    ),
            decreases size - id,
        {
            let ghost before = self@;
            self.join(id);
            proof {
                if id == 0 {
                    assert(self@.completed =~= old(self)@.shut_down().completed);
                } else {
                    assert(self@.completed =~= before.completed);
                }
                assert(self@.idle()) by {
                    assert forall|i: int| 0 <= i < self@.workers.len() implies !((
                    #[trigger] self@.workers[i]) is Executing) by {
                        if i != id {
                            assert(before.workers[i] == self@.workers[i]);
                        }
                    }
                }
                assert forall|i: int| 0 <= i < id + 1 implies (#[trigger] self@.workers[i])
                    == Activity::Terminated by {
                    if i != id {
                        assert(before.workers[i] == Activity::Terminated);
                    }
                }
            }
            id += 1;
        }
        proof {
            assert(self@.workers =~= old(self)@.shut_down().workers);
        }
    }
}

} // verus!
