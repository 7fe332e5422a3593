//! The work channel: an unbounded FIFO queue of jobs with a terminal
//! "closed" signal.

use std::collections::VecDeque;
use vstd::prelude::*;

verus! {

/// What a channel holds, as a mathematical value.
pub struct ChannelView<J> {
    /// The jobs sent and not yet received, oldest first.
    pub pending: Seq<J>,
    /// Whether the producer side has been released.
    pub closed: bool,
}

/// The outcome of one attempt to receive from a [`WorkChannel`].
#[derive(Debug)]
pub enum Delivery<J> {
    /// The oldest pending job; it has left the channel.
    Job(J),
    /// Nothing is pending, but the channel is still open: a later attempt
    /// may succeed.
    Empty,
    /// Nothing is pending and the channel is closed: no attempt will ever
    /// succeed again.
    Closed,
}

/// An unbounded queue carrying jobs from submitters to workers.
pub struct WorkChannel<J> {
    queue: VecDeque<J>,
    closed: bool,
}

impl<J> View for WorkChannel<J> {
    type V = ChannelView<J>;

    closed spec fn view(&self) -> ChannelView<J> {
        ChannelView { pending: self.queue@, closed: self.closed }
    }
}

impl<J> WorkChannel<J> {
    /// Creates an open channel with nothing pending.
    pub fn new() -> (channel: Self)
        ensures
            channel@.pending == Seq::<J>::empty(),
            !channel@.closed,
    {
        WorkChannel { queue: VecDeque::new(), closed: false }
    }

    /// Enqueues `job` behind every pending job.
    ///
    /// A closed channel accepts nothing: the job comes back in `Err` and the
    /// channel is unchanged.
    pub fn send(&mut self, job: J) -> (r: Result<(), J>)
        ensures
            !old(self)@.closed ==> r == Ok::<(), J>(()) && final(self)@ == (ChannelView {
                pending: old(self)@.pending.push(job),
                closed: false,
            }),
            old(self)@.closed ==> r == Err::<(), J>(job) && final(self)@ == old(self)@,
    {
        if self.closed {
            Err(job)
        } else {
            self.queue.push_back(job);
            Ok(())
        }
    }

    /// Takes the oldest pending job, if there is one.
    ///
    /// Pending jobs are still delivered after the channel was closed; only
    /// a closed and drained channel reports [`Delivery::Closed`].
    pub fn recv(&mut self) -> (d: Delivery<J>)
        ensures
            match d {
                Delivery::Job(job) => {
                    &&& old(self)@.pending.len() > 0
                    &&& job == old(self)@.pending[0]
                    &&& final(self)@ == (ChannelView {
                        pending: old(self)@.pending.drop_first(),
                        closed: old(self)@.closed,
                    })
                },
                Delivery::Empty => {
                    &&& old(self)@.pending.len() == 0
                    &&& !old(self)@.closed
                    &&& final(self)@ == old(self)@
                },
                Delivery::Closed => {
                    &&& old(self)@.pending.len() == 0
                    &&& old(self)@.closed
                    &&& final(self)@ == old(self)@
                },
            },
    {
        match self.queue.pop_front() {
            Some(job) => {
                assert(self.queue@ =~= old(self).queue@.drop_first());
                Delivery::Job(job)
            },
            None => {
                assert(self.queue@ =~= old(self).queue@);
                if self.closed {
                    Delivery::Closed
                } else {
                    Delivery::Empty
                }
            },
        }
    }

    /// Releases the producer side.  Closing a closed channel changes nothing.
    pub fn close(&mut self)
        ensures
            final(self)@ == (ChannelView { pending: old(self)@.pending, closed: true }),
    {
        self.closed = true;
    }

    /// Whether the producer side has been released.
    pub fn is_closed(&self) -> (r: bool)
        ensures
            r == self@.closed,
    {
        self.closed
    }

    /// The number of pending jobs.
    pub fn len(&self) -> (n: usize)
        ensures
            n == self@.pending.len(),
    {
        self.queue.len()
    }

    /// Whether no job is pending.
    pub fn is_empty(&self) -> (r: bool)
        ensures
            r == (self@.pending.len() == 0),
    {
        self.queue.len() == 0
    }
}

} // verus!
