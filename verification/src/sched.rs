//! Bounded-concurrency stage, modelled as a scheduler state machine.
//!
//! The driver that actually awaits network calls asks the scheduler before
//! starting a task and reports every completion back; the scheduler's
//! invariant keeps the number of in-flight tasks at or under the limit, and
//! results may complete in any order. No task is retried and none is
//! abandoned: the stage runs the whole input out.

use vstd::prelude::*;

verus! {

/// One step taken by the stage: a task is started, or an in-flight task
/// completes.
#[derive(Clone, Copy, Debug, PartialEq, Eq, Structural)]
pub enum SchedEvent {
    Start,
    Finish,
}

/// Mathematical state of the stage: how many tasks were started and how many
/// of those have completed.
#[verifier::ext_equal]
pub ghost struct SchedState {
    pub started: int,
    pub finished: int,
}

/// The state after a sequence of events.
pub open spec fn run_events(evs: Seq<SchedEvent>) -> SchedState
    decreases evs.len(),
{
    if evs.len() == 0 {
        SchedState { started: 0, finished: 0 }
    } else {
        let p = run_events(evs.drop_last());
        match evs.last() {
            SchedEvent::Start => SchedState { started: p.started + 1, finished: p.finished },
            SchedEvent::Finish => SchedState { started: p.started, finished: p.finished + 1 },
        }
    }
}

/// A trace the stage may produce with `total` tasks under limit `limit`: a
/// task starts only while fewer than `limit` are in flight and the input is
/// not exhausted, and only an in-flight task can finish.
pub open spec fn valid_trace(total: int, limit: int, evs: Seq<SchedEvent>) -> bool
    decreases evs.len(),
{
    if evs.len() == 0 {
        true
    } else {
        let p = run_events(evs.drop_last());
        &&& valid_trace(total, limit, evs.drop_last())
        &&& match evs.last() {
            SchedEvent::Start => p.started < total && p.started - p.finished < limit,
            SchedEvent::Finish => p.finished < p.started,
        }
    }
}

/// Bounded-concurrency law: along every trace the stage can produce, the
/// number of in-flight tasks never exceeds the limit — whatever the input
/// size and in whatever order completions arrive.
pub proof fn lemma_in_flight_bounded(total: int, limit: int, evs: Seq<SchedEvent>, i: int)
    requires
        limit >= 0,
        valid_trace(total, limit, evs),
        0 <= i <= evs.len(),
    ensures
        0 <= run_events(evs.subrange(0, i)).started - run_events(evs.subrange(0, i)).finished
            <= limit,
    decreases evs.len(),
{
    if evs.len() == 0 || i == 0 {
        assert(evs.subrange(0, 0) =~= Seq::<SchedEvent>::empty());
    } else if i == evs.len() {
        assert(evs.subrange(0, i) =~= evs);
        lemma_in_flight_bounded(total, limit, evs.drop_last(), i - 1);
        assert(evs.drop_last().subrange(0, i - 1) =~= evs.drop_last());
    } else {
        assert(evs.subrange(0, i) =~= evs.drop_last().subrange(0, i));
        lemma_in_flight_bounded(total, limit, evs.drop_last(), i);
    }
}

/// The scheduler of the bounded stage. The driver holds one of these, asks
/// `can_start` before launching a fetch, and reports each completion with
/// `finish`; the well-formedness invariant pins the in-flight count at or
/// under the limit at every instant.
pub struct Scheduler {
    limit: usize,
    total: usize,
    started: usize,
    finished: usize,
    trace: Ghost<Seq<SchedEvent>>,
}

impl Scheduler {
    /// The concurrency limit the stage was created with.
    pub closed spec fn spec_limit(self) -> int {
        self.limit as int
    }

    /// How many tasks the stage was given.
    pub closed spec fn spec_total(self) -> int {
        self.total as int
    }

    /// How many tasks have been started.
    pub closed spec fn spec_started(self) -> int {
        self.started as int
    }

    /// How many started tasks have completed.
    pub closed spec fn spec_finished(self) -> int {
        self.finished as int
    }

    /// The events the stage has taken so far.
    pub closed spec fn history(self) -> Seq<SchedEvent> {
        self.trace@
    }

    /// The scheduler took a valid trace and its counters match it.
    pub closed spec fn wf(self) -> bool {
        &&& self.limit >= 1
        &&& self.finished <= self.started <= self.total
        &&& self.started - self.finished <= self.limit
        &&& valid_trace(self.total as int, self.limit as int, self.trace@)
        &&& run_events(self.trace@) == (SchedState {
            started: self.started as int,
            finished: self.finished as int,
        })
    }

    /// A stage over `total` tasks running at most `limit` at once.
    pub fn new(total: usize, limit: usize) -> (s: Scheduler)
        requires
            limit >= 1,
        ensures
            s.wf(),
            s.spec_total() == total,
            s.spec_limit() == limit,
            s.spec_started() == 0,
            s.spec_finished() == 0,
            s.history() == Seq::<SchedEvent>::empty(),
    {
        let s = Scheduler { limit, total, started: 0, finished: 0, trace: Ghost(Seq::empty()) };
        proof {
            assert(run_events(s.trace@) =~= (SchedState { started: 0, finished: 0 }));
        }
        s
    }

    /// May another task be launched right now?
    pub fn can_start(&self) -> (r: bool)
        requires
            self.wf(),
        ensures
            r == (self.spec_started() < self.spec_total() && self.spec_started()
                - self.spec_finished() < self.spec_limit()),
    {
        self.started < self.total && self.started - self.finished < self.limit
    }

    /// Launch the next task; returns its index in submission order.
    pub fn start(&mut self) -> (task: usize)
        requires
            old(self).wf(),
            old(self).spec_started() < old(self).spec_total(),
            old(self).spec_started() - old(self).spec_finished() < old(self).spec_limit(),
        ensures
            final(self).wf(),
            task == old(self).spec_started(),
            final(self).spec_started() == old(self).spec_started() + 1,
            final(self).spec_finished() == old(self).spec_finished(),
            final(self).spec_total() == old(self).spec_total(),
            final(self).spec_limit() == old(self).spec_limit(),
            final(self).history() == old(self).history().push(SchedEvent::Start),
            final(self).spec_started() - final(self).spec_finished() <= final(self).spec_limit(),
    {
        let task = self.started;
        proof {
            self.trace@ = self.trace@.push(SchedEvent::Start);
        }
        self.started = self.started + 1;
        proof {
            assert(self.trace@.drop_last() =~= old(self).trace@);
            assert(run_events(self.trace@) =~= (SchedState {
                started: self.started as int,
                finished: self.finished as int,
            }));
        }
        task
    }

    /// Record that one in-flight task has completed, in whatever order
    /// completions arrive.
    pub fn finish(&mut self)
        requires
            old(self).wf(),
            old(self).spec_finished() < old(self).spec_started(),
        ensures
            final(self).wf(),
            final(self).spec_finished() == old(self).spec_finished() + 1,
            final(self).spec_started() == old(self).spec_started(),
            final(self).spec_total() == old(self).spec_total(),
            final(self).spec_limit() == old(self).spec_limit(),
            final(self).history() == old(self).history().push(SchedEvent::Finish),
    {
        proof {
            self.trace@ = self.trace@.push(SchedEvent::Finish);
        }
        self.finished = self.finished + 1;
        proof {
            assert(self.trace@.drop_last() =~= old(self).trace@);
            assert(run_events(self.trace@) =~= (SchedState {
                started: self.started as int,
                finished: self.finished as int,
            }));
        }
    }

    /// Are there tasks not yet launched?
    pub fn has_pending(&self) -> (r: bool)
        ensures
            r == (self.spec_started() < self.spec_total()),
    {
        self.started < self.total
    }

    /// How many tasks are in flight right now.
    pub fn in_flight(&self) -> (r: usize)
        requires
            self.wf(),
        ensures
            r == self.spec_started() - self.spec_finished(),
            r <= self.spec_limit(),
    {
        self.started - self.finished
    }

    /// Has every task been launched and completed?
    pub fn is_done(&self) -> (r: bool)
        requires
            self.wf(),
        ensures
            r == (self.spec_finished() == self.spec_total()),
    {
        self.finished == self.total
    }
}

} // verus!
