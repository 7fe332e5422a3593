//! What holds of every pool, whatever the order in which callers submit,
//! workers poll and jobs return.

use crate::pool::model::{Activity, Completion, Event, PoolState};
use crate::pool::worker::Action;
use vstd::prelude::*;
use vstd::set_lib::{lemma_int_range, set_int_range};

verus! {

/// A fresh pool has exactly `size` workers, all of them alive and waiting,
/// and satisfies the pool invariant.
pub proof fn law_fresh_pool<J>(size: nat)
    requires
        size > 0,
    ensures
        PoolState::<J>::init(size).inv(),
        PoolState::<J>::init(size).workers.len() == size,
        forall|i: int|
            0 <= i < size ==> (#[trigger] PoolState::<J>::init(size).workers[i])
                == Activity::Waiting,
{
    let s = PoolState::<J>::init(size);
    assert forall|t: nat| t < s.delivered implies s.recorded(t) || s.running(t) by {}
}

/// Submitting a job keeps the invariant.
pub proof fn law_submit_keeps_inv<J>(s: PoolState<J>, job: J)
    requires
        s.inv(),
    ensures
        s.submit(job).inv(),
{
    let n = s.submit(job);
    if s.open {
        assert forall|t: nat| t < n.delivered implies n.recorded(t) || n.running(t) by {
            if s.recorded(t) {
                let k = choose|k: int|
                    0 <= k < s.completed.len() && (#[trigger] s.completed[k]).ticket == t;
                assert(n.completed[k].ticket == t);
            } else {
                assert(s.running(t));
                let i = choose|i: int|
                    0 <= i < s.workers.len() && #[trigger] s.workers[i] == (Activity::Executing {
                        ticket: t,
                    });
                assert(n.workers[i] == Activity::Executing { ticket: t });
            }
        }
    }
}

/// Beginning shutdown keeps the invariant.
pub proof fn law_close_keeps_inv<J>(s: PoolState<J>)
    requires
        s.inv(),
    ensures
        s.close().inv(),
{
    let n = s.close();
    assert forall|t: nat| t < n.delivered implies n.recorded(t) || n.running(t) by {
        if s.recorded(t) {
            let k = choose|k: int|
                0 <= k < s.completed.len() && (#[trigger] s.completed[k]).ticket == t;
            assert(n.completed[k].ticket == t);
        } else {
            assert(s.running(t));
            let i = choose|i: int|
                0 <= i < s.workers.len() && #[trigger] s.workers[i] == (Activity::Executing {
                    ticket: t,
                });
            assert(n.workers[i] == Activity::Executing { ticket: t });
        }
    }
}

/// A poll keeps the invariant, whichever worker polls and whatever it finds.
pub proof fn law_poll_keeps_inv<J>(s: PoolState<J>, id: nat)
    requires
        s.inv(),
    ensures
        s.poll(id).inv(),
{
    let n = s.poll(id);
    if s.takes(id) || s.retires(id) {
        assert forall|t: nat| t < n.delivered implies n.recorded(t) || n.running(t) by {
            if t == s.delivered {
                assert(n.workers[id as int] == Activity::Executing { ticket: t });
            } else if s.recorded(t) {
                let k = choose|k: int|
                    0 <= k < s.completed.len() && (#[trigger] s.completed[k]).ticket == t;
                assert(n.completed[k].ticket == t);
            } else {
                assert(s.running(t));
                let i = choose|i: int|
                    0 <= i < s.workers.len() && #[trigger] s.workers[i] == (Activity::Executing {
                        ticket: t,
                    });
                assert(i != id);
                assert(n.workers[i] == Activity::Executing { ticket: t });
            }
        }
    }
}

/// The return of a job keeps the invariant.
pub proof fn law_finish_keeps_inv<J>(s: PoolState<J>, id: nat)
    requires
        s.inv(),
    ensures
        s.finish(id).inv(),
{
    let n = s.finish(id);
    if id < s.workers.len() && s.workers[id as int] is Executing {
        let done = s.workers[id as int]->ticket;
        let last = s.completed.len() as int;
        assert(n.completed[last] == Completion { ticket: done, worker: id });
        assert forall|t: nat| t < n.delivered implies n.recorded(t) || n.running(t) by {
            if s.recorded(t) {
                let k = choose|k: int|
                    0 <= k < s.completed.len() && (#[trigger] s.completed[k]).ticket == t;
                assert(n.completed[k].ticket == t);
            } else {
                assert(s.running(t));
                let i = choose|i: int|
                    0 <= i < s.workers.len() && #[trigger] s.workers[i] == (Activity::Executing {
                        ticket: t,
                    });
                if i == id {
                    assert(n.completed[last].ticket == t);
                } else {
                    assert(n.workers[i] == Activity::Executing { ticket: t });
                }
            }
        }
        assert forall|k: int, m: int|
            0 <= k < n.completed.len() && 0 <= m < n.completed.len() && k != m implies (
        #[trigger] n.completed[k]).ticket != (#[trigger] n.completed[m]).ticket by {
            if k < last && m < last {
                assert(s.completed[k].ticket != s.completed[m].ticket);
            } else if k == last {
                assert(s.completed[m].ticket != s.workers[id as int]->ticket);
            } else {
                assert(s.completed[k].ticket != s.workers[id as int]->ticket);
            }
        }
        assert forall|k: int, i: int|
            0 <= k < n.completed.len() && 0 <= i < n.workers.len()
                && (#[trigger] n.workers[i]) is Executing implies (
        #[trigger] n.completed[k]).ticket != n.workers[i]->ticket by {
            assert(i != id);
            assert(s.workers[i] is Executing);
            if k < last {
                assert(s.completed[k].ticket != s.workers[i]->ticket);
            } else {
                assert(s.workers[i]->ticket != s.workers[id as int]->ticket);
            }
        }
        assert forall|k: int| 0 <= k < n.completed.len() implies (#[trigger] n.completed[k]).ticket
            < n.delivered && n.completed[k].worker < n.workers.len() by {
            if k < last {
                assert(s.completed[k].ticket < s.delivered);
            }
        }
    }
}

/// Every event keeps the invariant.
pub proof fn law_step_keeps_inv<J>(s: PoolState<J>, event: Event<J>)
    requires
        s.inv(),
    ensures
        s.step(event).inv(),
{
    match event {
        Event::Submit(job) => law_submit_keeps_inv(s, job),
        Event::Close => law_close_keeps_inv(s),
        Event::Poll(id) => law_poll_keeps_inv(s, id),
        Event::Finish(id) => law_finish_keeps_inv(s, id),
    }
}

/// A pool created with at least one worker satisfies the invariant after
/// any sequence of events.
pub proof fn law_every_run_keeps_inv<J>(size: nat, events: Seq<Event<J>>)
    requires
        size > 0,
    ensures
        PoolState::<J>::init(size).run(events).inv(),
        PoolState::<J>::init(size).run(events).workers.len() == size,
    decreases events.len(),
{
    if events.len() == 0 {
        law_fresh_pool::<J>(size);
    } else {
        law_every_run_keeps_inv::<J>(size, events.drop_last());
        law_step_keeps_inv(PoolState::<J>::init(size).run(events.drop_last()), events.last());
    }
}

/// A job is in one place at a time: still pending, held by one worker, or
/// recorded once in the completion log.  So no job is run twice, and none
/// is run by two workers.
pub proof fn law_no_job_runs_twice<J>(s: PoolState<J>, t: nat)
    requires
        s.inv(),
    ensures
        t >= s.delivered ==> !s.running(t) && !s.recorded(t),
        t < s.delivered ==> (s.running(t) <==> !s.recorded(t)),
        s.recorded(t) ==> s.completed_once(t),
        forall|i: int, j: int|
            0 <= i < s.workers.len() && 0 <= j < s.workers.len() && #[trigger] s.workers[i] == (
            Activity::Executing { ticket: t }) && #[trigger] s.workers[j] == (Activity::Executing {
                ticket: t,
            }) ==> i == j,
{
    if s.recorded(t) {
        let k = choose|k: int|
            0 <= k < s.completed.len() && (#[trigger] s.completed[k]).ticket == t;
        assert(s.completed[k].ticket == t);
        assert forall|m: int|
            0 <= m < s.completed.len() && (#[trigger] s.completed[m]).ticket == t implies m
            == k by {}
        if s.running(t) {
            let i = choose|i: int|
                0 <= i < s.workers.len() && #[trigger] s.workers[i] == (Activity::Executing {
                    ticket: t,
                });
            assert(s.workers[i] is Executing);
            assert(s.completed[k].ticket != s.workers[i]->ticket);
        }
    }
    if s.running(t) {
        let i = choose|i: int|
            0 <= i < s.workers.len() && #[trigger] s.workers[i] == (Activity::Executing {
                ticket: t,
            });
        assert(s.workers[i] is Executing);
    }
}

/// Once every worker has terminated, the pool is closed, nothing is
/// pending, and every job that was ever accepted has been run exactly once:
/// the completion log holds one record for each ticket and no other record.
pub proof fn law_quiescent_pool_ran_every_job_once<J>(s: PoolState<J>)
    requires
        s.inv(),
        s.quiescent(),
    ensures
        !s.open,
        s.pending() == Seq::<J>::empty(),
        s.completed.len() == s.accepted.len(),
        forall|t: nat| t < s.accepted.len() ==> #[trigger] s.completed_once(t),
{
    assert(s.workers[0] == Activity::Terminated);
    assert(s.pending() =~= Seq::<J>::empty());
    assert forall|t: nat| t < s.accepted.len() implies #[trigger] s.completed_once(t) by {
        law_no_job_runs_twice(s, t);
        if s.running(t) {
            let i = choose|i: int|
                0 <= i < s.workers.len() && #[trigger] s.workers[i] == (Activity::Executing {
                    ticket: t,
                });
            assert(s.workers[i] == Activity::Terminated);
        }
    }
    let n = s.accepted.len() as int;
    let tickets = Seq::new(s.completed.len(), |k: int| s.completed[k].ticket as int);
    assert(tickets.no_duplicates()) by {
        assert forall|k: int, m: int|
            0 <= k < tickets.len() && 0 <= m < tickets.len() && k != m implies tickets[k]
            != tickets[m] by {
            assert(s.completed[k].ticket != s.completed[m].ticket);
        }
    }
    assert(tickets.to_set() =~= set_int_range(0, n)) by {
        assert forall|t: int| set_int_range(0, n).contains(t) implies tickets.to_set().contains(
            t,
        ) by {
            assert(s.completed_once(t as nat));
            let k = choose|k: int|
                0 <= k < s.completed.len() && (#[trigger] s.completed[k]).ticket == t as nat;
            assert(tickets[k] == t);
        }
        assert forall|t: int| tickets.to_set().contains(t) implies set_int_range(0, n).contains(
            t,
        ) by {
            let k = choose|k: int| 0 <= k < tickets.len() && tickets[k] == t;
            assert(s.completed[k].ticket < s.delivered);
        }
    }
    tickets.unique_seq_to_set();
    lemma_int_range(0, n);
}

/// A closed pool stays closed and never accepts another job: a job
/// submitted after shutdown began leaves the pool as it was, so it is never
/// handed to a worker.
pub proof fn law_closed_pool_accepts_nothing<J>(s: PoolState<J>, event: Event<J>)
    requires
        !s.open,
    ensures
        !s.step(event).open,
        s.step(event).accepted == s.accepted,
        event is Submit ==> s.step(event) == s,
{
}

/// Termination is final: no event brings a terminated worker back, and the
/// number of workers never changes.
pub proof fn law_terminated_worker_stays_terminated<J>(s: PoolState<J>, event: Event<J>, i: int)
    requires
        0 <= i < s.workers.len(),
        s.workers[i] == Activity::Terminated,
    ensures
        s.step(event).workers.len() == s.workers.len(),
        s.step(event).workers[i] == Activity::Terminated,
{
}

/// The number of workers never changes.
pub proof fn law_pool_size_never_changes<J>(s: PoolState<J>, event: Event<J>)
    ensures
        s.step(event).workers.len() == s.workers.len(),
{
}

/// A worker never leaves early: the only event that terminates a worker is
/// its own poll, and only when the pool is closed and nothing is pending.
pub proof fn law_worker_leaves_only_when_drained<J>(s: PoolState<J>, event: Event<J>, i: int)
    requires
        0 <= i < s.workers.len(),
        s.workers[i] != Activity::Terminated,
        s.step(event).workers[i] == Activity::Terminated,
    ensures
        event == Event::<J>::Poll(i as nat),
        s.workers[i] == Activity::Waiting,
        !s.open,
        s.delivered >= s.accepted.len(),
{
}

/// Once every worker has terminated nothing happens any more: whatever
/// event comes, the pool stays as it is.  So no job runs after shutdown is
/// complete.
pub proof fn law_shut_down_pool_never_changes<J>(s: PoolState<J>, event: Event<J>)
    requires
        s.inv(),
        s.quiescent(),
    ensures
        s.step(event) == s,
{
    assert(s.workers[0] == Activity::Terminated);
    match event {
        Event::Poll(id) => {
            if id < s.workers.len() {
                assert(s.workers[id as int] == Activity::Terminated);
            }
        },
        Event::Finish(id) => {
            if id < s.workers.len() {
                assert(s.workers[id as int] == Activity::Terminated);
            }
        },
        _ => {},
    }
}

/// A worker never drops a job it has taken: an executing worker keeps its
/// ticket until the job returns, and the return records that ticket.
pub proof fn law_taken_job_is_completed<J>(s: PoolState<J>, event: Event<J>, i: int)
    requires
        0 <= i < s.workers.len(),
        s.workers[i] is Executing,
    ensures
        event == Event::<J>::Finish(i as nat) ==> s.step(event).workers[i] == Activity::Waiting
            && s.step(event).completed == s.completed.push(
            Completion { ticket: s.workers[i]->ticket, worker: i as nat },
        ),
        event != Event::<J>::Finish(i as nat) ==> s.step(event).workers[i] == s.workers[i],
{
}

/// Jobs leave the channel in submission order: a poll that takes a job
/// takes the oldest pending one, and what stays pending keeps its order.
pub proof fn law_jobs_are_taken_in_order<J>(s: PoolState<J>, id: nat)
    requires
        s.inv(),
        s.takes(id),
    ensures
        s.poll_action(id) == Action::Run(s.pending()[0]),
        s.poll(id).pending() == s.pending().drop_first(),
        s.poll(id).workers[id as int] == (Activity::Executing { ticket: s.delivered }),
{
    assert(s.poll(id).pending() =~= s.pending().drop_first());
}

/// Shutting down a pool that has already shut down changes nothing.
pub proof fn law_shutdown_is_idempotent<J>(s: PoolState<J>)
    requires
        s.inv(),
        s.idle(),
    ensures
        s.shut_down().shut_down() == s.shut_down(),
        s.quiescent() ==> s.shut_down() == s,
{
    let once = s.shut_down();
    let twice = once.shut_down();
    assert(twice.completed =~= once.completed);
    assert(twice.workers =~= once.workers);
    if s.quiescent() {
        assert(s.workers[0] == Activity::Terminated);
        assert(once.completed =~= s.completed);
        assert(once.workers =~= s.workers);
    }
}

/// A graceful shutdown leaves a pool that satisfies the invariant, with
/// every worker terminated; so every accepted job has then run exactly
/// once.
pub proof fn law_shutdown_runs_every_job<J>(s: PoolState<J>)
    requires
        s.inv(),
        s.idle(),
    ensures
        s.shut_down().inv(),
        s.shut_down().quiescent(),
        s.shut_down().accepted == s.accepted,
        forall|t: nat| t < s.accepted.len() ==> #[trigger] s.shut_down().completed_once(t),
{
    let n = s.shut_down();
    let old_len = s.completed.len() as int;
    assert forall|k: int| 0 <= k < n.completed.len() implies (#[trigger] n.completed[k]).ticket
        < n.delivered && n.completed[k].worker < n.workers.len() by {
        if k < old_len {
            assert(s.completed[k].ticket < s.delivered);
        }
    }
    assert forall|k: int, m: int|
        0 <= k < n.completed.len() && 0 <= m < n.completed.len() && k != m implies (
    #[trigger] n.completed[k]).ticket != (#[trigger] n.completed[m]).ticket by {
        if k < old_len {
            assert(s.completed[k].ticket < s.delivered);
        }
        if m < old_len {
            assert(s.completed[m].ticket < s.delivered);
        }
        if k < old_len && m < old_len {
            assert(s.completed[k].ticket != s.completed[m].ticket);
        }
    }
    assert forall|t: nat| t < n.delivered implies n.recorded(t) || n.running(t) by {
        if t < s.delivered {
            if s.running(t) {
                let i = choose|i: int|
                    0 <= i < s.workers.len() && #[trigger] s.workers[i] == (Activity::Executing {
                        ticket: t,
                    });
                assert(s.workers[i] is Executing);
            }
            assert(s.recorded(t));
            let k = choose|k: int|
                0 <= k < s.completed.len() && (#[trigger] s.completed[k]).ticket == t;
            assert(n.completed[k].ticket == t);
        } else {
            assert(n.completed[old_len + (t - s.delivered)].ticket == t);
        }
    }
    assert forall|i: int|
        0 <= i < n.workers.len() && (#[trigger] n.workers[i]) == Activity::Terminated implies !n.open
        && n.delivered == n.accepted.len() by {}
    law_quiescent_pool_ran_every_job_once(n);
}

/// A pool with a single worker completes jobs in submission order, whatever
/// happens: after any sequence of events the `k`-th record of the
/// completion log carries ticket `k`.
pub proof fn law_single_worker_runs_jobs_in_order<J>(events: Seq<Event<J>>)
    ensures
        PoolState::<J>::init(1).run(events).serial(),
    decreases events.len(),
{
    let start = PoolState::<J>::init(1);
    if events.len() > 0 {
        law_single_worker_runs_jobs_in_order::<J>(events.drop_last());
        let before = start.run(events.drop_last());
        let after = before.step(events.last());
        match events.last() {
            Event::Finish(id) => {
                if id == 0 && before.workers[0] is Executing {
                    assert forall|k: int| 0 <= k < after.completed.len() implies (
                    #[trigger] after.completed[k]).ticket == k by {
                        if k < before.completed.len() {
                            assert(after.completed[k] == before.completed[k]);
                        }
                    }
                }
            },
            _ => {},
        }
    }
}

/// However many jobs are submitted to a pool of whatever size, and in
/// whatever order its workers poll and finish: no job is ever recorded
/// twice, every record names one worker of the pool, and once every worker
/// has terminated each accepted job has been run exactly once.
pub proof fn law_every_job_runs_exactly_once<J>(size: nat, events: Seq<Event<J>>)
    requires
        size > 0,
    ensures
        ({
            let s = PoolState::<J>::init(size).run(events);
            &&& forall|k: int, m: int|
                0 <= k < s.completed.len() && 0 <= m < s.completed.len() && k != m ==> (
                #[trigger] s.completed[k]).ticket != (#[trigger] s.completed[m]).ticket
            &&& forall|k: int|
                0 <= k < s.completed.len() ==> (#[trigger] s.completed[k]).ticket
                    < s.accepted.len() && s.completed[k].worker < size
            &&& s.quiescent() ==> s.completed.len() == s.accepted.len() && forall|t: nat|
                t < s.accepted.len() ==> #[trigger] s.completed_once(t)
        }),
{
    let s = PoolState::<J>::init(size).run(events);
    law_every_run_keeps_inv::<J>(size, events);
    if s.quiescent() {
        law_quiescent_pool_ran_every_job_once(s);
    }
}

/// The events of a worker that is joined while `jobs` jobs are pending: it
/// takes a job and finishes it, `jobs` times over, and polls once more to
/// find the channel drained.
pub open spec fn join_events<J>(id: nat, jobs: nat) -> Seq<Event<J>>
    decreases jobs,
{
    if jobs == 0 {
        seq![Event::Poll(id)]
    } else {
        seq![Event::Poll(id), Event::Finish(id)] + join_events((id), (jobs - 1) as nat)
    }
}

/// The events of a graceful shutdown up to the join of worker `upto`: the
/// close, and then the joins of the workers before `upto`, in index order.
pub open spec fn shutdown_events<J>(s: PoolState<J>, upto: nat) -> Seq<Event<J>>
    decreases upto,
{
    if upto == 0 {
        seq![Event::Close]
    } else {
        shutdown_events(s, (upto - 1) as nat) + join_events(
            (upto - 1) as nat,
            if upto == 1 {
                (s.accepted.len() - s.delivered) as nat
            } else {
                0
            },
        )
    }
}

/// Running two sequences of events one after the other is running their
/// concatenation.
pub proof fn law_runs_compose<J>(s: PoolState<J>, first: Seq<Event<J>>, second: Seq<Event<J>>)
    ensures
        s.run(first + second) == s.run(first).run(second),
    decreases second.len(),
{
    if second.len() == 0 {
        assert(first + second =~= first);
    } else {
        law_runs_compose(s, first, second.drop_last());
        assert((first + second).drop_last() =~= first + second.drop_last());
        assert((first + second).last() == second.last());
    }
}

/// Running one more event after a sequence is a step from where the
/// sequence led; running no event changes nothing.
pub proof fn law_run_extends<J>(s: PoolState<J>, events: Seq<Event<J>>, event: Event<J>)
    ensures
        s.run(Seq::<Event<J>>::empty()) == s,
        s.run(events.push(event)) == s.run(events).step(event),
{
    assert(events.push(event).drop_last() =~= events);
}

/// Joining a worker of a closed pool is a run of events: the worker's own
/// polls and the returns of its jobs.
pub proof fn law_join_is_a_run<J>(s: PoolState<J>, id: nat)
    requires
        s.inv(),
        !s.open,
        s.idle(),
        id < s.workers.len(),
    ensures
        s.run(join_events(id, (s.accepted.len() - s.delivered) as nat)) == s.join(id),
    decreases s.accepted.len() - s.delivered,
{
    let jobs = (s.accepted.len() - s.delivered) as nat;
    let events = join_events::<J>(id, jobs);
    assert(!(s.workers[id as int] is Executing));
    if jobs == 0 {
        law_run_extends(s, Seq::<Event<J>>::empty(), Event::<J>::Poll(id));
        assert(events =~= Seq::<Event<J>>::empty().push(Event::<J>::Poll(id)));
        assert(s.run(events) == s.poll(id));
        assert(s.poll(id).workers =~= s.join(id).workers);
        assert(s.join(id).completed =~= s.completed);
    } else {
        assert(s.workers[id as int] == Activity::Waiting);
        let head = seq![Event::<J>::Poll(id), Event::<J>::Finish(id)];
        let taken = s.poll(id);
        let next = taken.finish(id);
        let one = Seq::<Event<J>>::empty().push(Event::<J>::Poll(id));
        law_run_extends(s, Seq::<Event<J>>::empty(), Event::<J>::Poll(id));
        law_run_extends(s, one, Event::<J>::Finish(id));
        assert(head =~= one.push(Event::<J>::Finish(id)));
        assert(s.run(head) == next);
        law_poll_keeps_inv(s, id);
        law_finish_keeps_inv(taken, id);
        assert(next.workers =~= s.workers);
        law_join_is_a_run(next, id);
        law_runs_compose(s, head, join_events::<J>(id, (jobs - 1) as nat));
        assert(next.join(id).completed =~= s.join(id).completed);
    }
}

/// The pool after the close and the joins of the workers before `upto`.
pub open spec fn joined_before<J>(s: PoolState<J>, upto: nat) -> PoolState<J>
    decreases upto,
{
    if upto == 0 {
        s.close()
    } else {
        joined_before(s, (upto - 1) as nat).join((upto - 1) as nat)
    }
}

/// A graceful shutdown is a run of events, so nothing happens in it that
/// workers and callers could not have done step by step, and what holds
/// after every run holds after a shutdown.
pub proof fn law_shutdown_is_a_run<J>(s: PoolState<J>)
    requires
        s.inv(),
        s.idle(),
    ensures
        s.run(shutdown_events(s, s.workers.len())) == s.shut_down(),
{
    lemma_shutdown_prefix_is_a_run(s, s.workers.len());
}

/// The close and the joins of the workers before `upto` are a run of
/// events; with the last worker joined the shutdown is complete.
proof fn lemma_shutdown_prefix_is_a_run<J>(s: PoolState<J>, upto: nat)
    requires
        s.inv(),
        s.idle(),
        upto <= s.workers.len(),
    ensures
        s.run(shutdown_events(s, upto)) == joined_before(s, upto),
        joined_before(s, upto).inv(),
        joined_before(s, upto).idle(),
        !joined_before(s, upto).open,
        joined_before(s, upto).accepted == s.accepted,
        joined_before(s, upto).workers.len() == s.workers.len(),
        upto > 0 ==> joined_before(s, upto).delivered == s.accepted.len(),
        upto == 0 ==> joined_before(s, upto).delivered == s.delivered,
        upto == s.workers.len() ==> joined_before(s, upto) == s.shut_down(),
    decreases upto,
{
    if upto == 0 {
        law_run_extends(s, Seq::<Event<J>>::empty(), Event::<J>::Close);
        assert(shutdown_events(s, 0) =~= Seq::<Event<J>>::empty().push(Event::<J>::Close));
        law_close_keeps_inv(s);
    } else {
        let id = (upto - 1) as nat;
        lemma_shutdown_prefix_is_a_run(s, id);
        let before = joined_before(s, id);
        let jobs: nat = if upto == 1 {
            (s.accepted.len() - s.delivered) as nat
        } else {
            0
        };
        assert(jobs == before.accepted.len() - before.delivered);
        law_join_is_a_run(before, id);
        law_runs_compose(s, shutdown_events(s, id), join_events::<J>(id, jobs));
        let after = before.join(id);
        law_run_keeps_inv(before, join_events::<J>(id, jobs));
        assert(after.idle()) by {
            assert forall|i: int| 0 <= i < after.workers.len() implies !((
            #[trigger] after.workers[i]) is Executing) by {
                if i != id {
                    assert(after.workers[i] == before.workers[i]);
                }
            }
        }
    }
    if upto == s.workers.len() {
        lemma_joined_workers(s, upto);
        let end = joined_before(s, upto);
        assert(end.workers =~= s.shut_down().workers);
        assert(end.completed =~= s.shut_down().completed);
    }
}

/// A run that starts in a state with the invariant ends in a state with
/// the invariant.
pub proof fn law_run_keeps_inv<J>(s: PoolState<J>, events: Seq<Event<J>>)
    requires
        s.inv(),
    ensures
        s.run(events).inv(),
    decreases events.len(),
{
    if events.len() > 0 {
        law_run_keeps_inv(s, events.drop_last());
        law_step_keeps_inv(s.run(events.drop_last()), events.last());
    }
}

/// After the joins of the workers before `upto`, those workers have
/// terminated and the others are as they were; the first join has run the
/// whole backlog.
proof fn lemma_joined_workers<J>(s: PoolState<J>, upto: nat)
    requires
        s.inv(),
        s.idle(),
        upto <= s.workers.len(),
    ensures
        joined_before(s, upto).workers.len() == s.workers.len(),
        forall|i: int|
            0 <= i < upto ==> (#[trigger] joined_before(s, upto).workers[i])
                == Activity::Terminated,
        forall|i: int|
            upto <= i < s.workers.len() ==> (#[trigger] joined_before(s, upto).workers[i])
                == s.workers[i],
        upto == 0 ==> joined_before(s, upto).completed == s.completed && joined_before(
            s,
            upto,
        ).delivered == s.delivered,
        upto > 0 ==> joined_before(s, upto).completed == s.shut_down().completed
            && joined_before(s, upto).delivered == s.accepted.len(),
        joined_before(s, upto).accepted == s.accepted,
        !joined_before(s, upto).open,
    decreases upto,
{
    if upto > 0 {
        let id = (upto - 1) as nat;
        lemma_joined_workers(s, id);
        let before = joined_before(s, id);
        let after = before.join(id);
        assert forall|i: int| 0 <= i < upto implies (#[trigger] after.workers[i])
            == Activity::Terminated by {
            if i != id {
                assert(before.workers[i] == Activity::Terminated);
            }
        }
        assert forall|i: int| upto <= i < s.workers.len() implies (#[trigger] after.workers[i])
            == s.workers[i] by {
            assert(before.workers[i] == s.workers[i]);
        }
        assert(after.completed =~= s.shut_down().completed);
    }
}

} // verus!
