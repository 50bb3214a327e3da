//! Scheduling decisions of the task pool.
//!
//! Each registered task is driven by one loop that alternates between
//! sleeping and executing.  Everything that loop decides — how long to
//! sleep, when the task fails, completes or is cancelled — is made here, in
//! [`TaskRunner`]; the embedding runtime only performs the waiting and the
//! callback.  [`StopRequests`] records out-of-band cancellation requests by
//! task identity, and hands each request to exactly the task it names.

use vstd::prelude::*;

verus! {

/// The lifecycle of one task's loop.  `Completed`, `Cancelled` and
/// `Failed` are terminal: no decision moves a runner out of them.
#[derive(Debug, Clone, Copy, PartialEq, Eq, Structural)]
pub enum TaskState {
    /// Registered; the next step plans a sleep.
    Scheduled,
    /// Waiting for its next firing.
    Sleeping,
    /// Between waking and the cancellation check.
    Executing,
    /// The execution limit was reached.
    Completed,
    /// A stop request naming the task arrived and the loop saw it.
    Cancelled,
    /// The cadence was malformed or could not be resolved.
    Failed,
}

/// What the loop should do next.
#[derive(Debug, Clone, Copy, PartialEq, Eq, Structural)]
pub enum SleepPlan {
    /// The task is invalid or its cadence failed to resolve: stop the loop.
    Abort,
    /// Suspend for this many seconds.
    Seconds(u64),
    /// Suspend for this many milliseconds.
    Millis(u64),
}

/// The per-task decision state: the task's identity, its cadence shape,
/// its execution limit and the count of executions so far.
pub struct TaskRunner {
    pub id: u64,
    pub has_expr: bool,
    pub tick_millis: u64,
    pub limit: i32,
    pub run_count: i32,
    pub state: TaskState,
}

impl TaskRunner {
    pub open spec fn terminal(self) -> bool {
        self.state is Completed || self.state is Cancelled || self.state is Failed
    }

    /// A newly registered task: no executions yet.
    pub fn new(id: u64, has_expr: bool, tick_millis: u64, limit: i32) -> (r: TaskRunner)
        ensures
            r.id == id,
            r.has_expr == has_expr,
            r.tick_millis == tick_millis,
            r.limit == limit,
            r.run_count == 0,
            r.state is Scheduled,
    {
        TaskRunner { id, has_expr, tick_millis, limit, run_count: 0, state: TaskState::Scheduled }
    }

    /// Decides the next suspension.  An expression-driven task sleeps until
    /// the resolved next firing (`next_tick`, `None` when resolution
    /// failed, which is fatal to the task); an interval-driven task sleeps
    /// its fixed tick, a non-positive tick being fatal.  A terminal runner
    /// never sleeps again.
    pub fn plan_sleep(&mut self, next_tick: Option<i64>, now_ts: i64) -> (r: SleepPlan)
        requires
            next_tick matches Some(t) ==> i64::MIN <= t - now_ts <= i64::MAX,
        ensures
            old(self).terminal() ==> r is Abort && *final(self) == *old(self),
            !old(self).terminal() ==> {
                &&& final(self).id == old(self).id
                &&& final(self).has_expr == old(self).has_expr
                &&& final(self).tick_millis == old(self).tick_millis
                &&& final(self).limit == old(self).limit
                &&& final(self).run_count == old(self).run_count
                &&& if old(self).has_expr {
                    match next_tick {
                        None => r is Abort && final(self).state is Failed,
                        Some(ts) => r == SleepPlan::Seconds(
                            if ts > now_ts {
                                (ts - now_ts) as u64
                            } else {
                                0u64
                            },
                        ) && final(self).state is Sleeping,
                    }
                } else if old(self).tick_millis == 0 {
                    r is Abort && final(self).state is Failed
                } else {
                    r == SleepPlan::Millis(old(self).tick_millis) && final(self).state
                        is Sleeping
                }
            },
    {
        if self.is_terminal() {
            return SleepPlan::Abort;
        }
        if self.has_expr {
            match next_tick {
                None => {
                    self.state = TaskState::Failed;
                    SleepPlan::Abort
                },
                Some(ts) => {
                    self.state = TaskState::Sleeping;
                    if ts > now_ts {
                        SleepPlan::Seconds((ts - now_ts) as u64)
                    } else {
                        SleepPlan::Seconds(0)
                    }
                },
            }
        } else if self.tick_millis == 0 {
            self.state = TaskState::Failed;
            SleepPlan::Abort
        } else {
            self.state = TaskState::Sleeping;
            SleepPlan::Millis(self.tick_millis)
        }
    }

    /// After waking: the task completes once a positive execution limit has
    /// been reached, and otherwise proceeds to execute.
    pub fn on_wake(&mut self) -> (finished: bool)
        ensures
            old(self).terminal() ==> finished && *final(self) == *old(self),
            !old(self).terminal() ==> {
                &&& final(self).id == old(self).id
                &&& final(self).has_expr == old(self).has_expr
                &&& final(self).tick_millis == old(self).tick_millis
                &&& final(self).limit == old(self).limit
                &&& final(self).run_count == old(self).run_count
                &&& finished == (old(self).limit > 0 && old(self).run_count >= old(self).limit)
                &&& if finished {
                    final(self).state is Completed
                } else {
                    final(self).state is Executing
                }
            },
    {
        if self.is_terminal() {
            return true;
        }
        if self.limit > 0 && self.run_count >= self.limit {
            self.state = TaskState::Completed;
            true
        } else {
            self.state = TaskState::Executing;
            false
        }
    }

    /// Counts one finished execution, saturating at the integer boundary.
    pub fn record_run(&mut self)
        ensures
            old(self).terminal() ==> *final(self) == *old(self),
            !old(self).terminal() ==> {
                &&& final(self).id == old(self).id
                &&& final(self).has_expr == old(self).has_expr
                &&& final(self).tick_millis == old(self).tick_millis
                &&& final(self).limit == old(self).limit
                &&& final(self).state == old(self).state
                &&& final(self).run_count == if old(self).run_count == i32::MAX {
                    i32::MAX as int
                } else {
                    old(self).run_count + 1
                }
            },
    {
        if self.is_terminal() {
            return ;
        }
        if self.run_count != i32::MAX {
            self.run_count = self.run_count + 1;
        }
    }

    /// Observes the cancellation check: a pending stop request naming the
    /// task cancels it; otherwise the loop returns to the top.
    pub fn observe_stop(&mut self, stop_requested: bool) -> (stopped: bool)
        ensures
            old(self).terminal() ==> stopped && *final(self) == *old(self),
            !old(self).terminal() ==> {
                &&& final(self).id == old(self).id
                &&& final(self).has_expr == old(self).has_expr
                &&& final(self).tick_millis == old(self).tick_millis
                &&& final(self).limit == old(self).limit
                &&& final(self).run_count == old(self).run_count
                &&& stopped == stop_requested
                &&& if stop_requested {
                    final(self).state is Cancelled
                } else {
                    final(self).state is Scheduled
                }
            },
    {
        if self.is_terminal() {
            return true;
        }
        if stop_requested {
            self.state = TaskState::Cancelled;
            true
        } else {
            self.state = TaskState::Scheduled;
            false
        }
    }

    /// Whether the runner reached one of its terminal states.
    pub fn is_terminal(&self) -> (r: bool)
        ensures
            r == self.terminal(),
    {
        match self.state {
            TaskState::Completed => true,
            TaskState::Cancelled => true,
            TaskState::Failed => true,
            _ => false,
        }
    }
}

/// Removing the first occurrence of `id` from a sequence.
pub open spec fn remove_first(s: Seq<u64>, id: u64) -> Seq<u64>
    decreases s.len(),
{
    if s.len() == 0 {
        s
    } else if s[0] == id {
        s.drop_first()
    } else {
        seq![s[0]] + remove_first(s.drop_first(), id)
    }
}

/// The pending out-of-band stop requests, each addressed to one task
/// identifier.  A request enters when a caller asks a task to stop, and
/// leaves only when the loop of the task it names consumes it: no loop can
/// consume a request addressed to another task.
pub struct StopRequests {
    ids: Vec<u64>,
}

impl StopRequests {
    /// The identifiers with a pending stop request, oldest first.
    pub closed spec fn pending(self) -> Seq<u64> {
        self.ids@
    }

    pub fn new() -> (r: StopRequests)
        ensures
            r.pending() == Seq::<u64>::empty(),
    {
        StopRequests { ids: Vec::new() }
    }

    /// Enqueues a stop request for the task named `id`.
    pub fn request(&mut self, id: u64)
        ensures
            final(self).pending() == old(self).pending().push(id),
    {
        self.ids.push(id);
    }

    /// Consumes the pending request addressed to `id`, if one is there:
    /// exactly the oldest request for `id` leaves, every request addressed
    /// to another task stays.
    pub fn take(&mut self, id: u64) -> (found: bool)
        ensures
            found == old(self).pending().contains(id),
            final(self).pending() == remove_first(old(self).pending(), id),
    {
        let n = self.ids.len();
        let mut i: usize = 0;
        while i < n
            invariant
                i <= n,
                n == self.ids.len(),
                self == old(self),
                forall|j: int| 0 <= j < i ==> self.ids@[j] != id,
            decreases n - i,
        {
            if self.ids[i] == id {
                self.ids.remove(i);
                proof {
                    lemma_remove_first_at(old(self).pending(), id, i as int);
                }
                return true;
            }
            i = i + 1;
        }
        proof {
            lemma_remove_first_absent(self.pending(), id);
        }
        false
    }
}

/// Where `j` indexes the first occurrence of `id`, removing the first
/// occurrence is removing index `j`.
proof fn lemma_remove_first_at(s: Seq<u64>, id: u64, j: int)
    requires
        0 <= j < s.len(),
        s[j] == id,
        forall|k: int| 0 <= k < j ==> s[k] != id,
    ensures
        remove_first(s, id) == s.remove(j),
        s.contains(id),
    decreases j,
{
    if j == 0 {
        assert(s.remove(0) =~= s.drop_first());
    } else {
        lemma_remove_first_at(s.drop_first(), id, j - 1);
        assert(remove_first(s, id) == seq![s[0]] + s.drop_first().remove(j - 1));
        assert(seq![s[0]] + s.drop_first().remove(j - 1) =~= s.remove(j));
    }
}

/// Without an occurrence of `id`, removing its first occurrence changes
/// nothing.
proof fn lemma_remove_first_absent(s: Seq<u64>, id: u64)
    requires
        !s.contains(id),
    ensures
        remove_first(s, id) == s,
    decreases s.len(),
{
    if s.len() > 0 {
        assert(s[0] != id);
        lemma_remove_first_absent(s.drop_first(), id);
        assert(seq![s[0]] + s.drop_first() =~= s);
    }
}

/// Consuming a request addressed to `id` never touches a request addressed
/// to any other task: each identifier's requests are left exactly as they
/// were.
pub proof fn lemma_take_is_exclusive(s: Seq<u64>, id: u64, x: u64)
    requires
        x != id,
    ensures
        remove_first(s, id).to_multiset().count(x) == s.to_multiset().count(x),
    decreases s.len(),
{
    broadcast use vstd::seq_lib::group_to_multiset_ensures;

    if s.len() > 0 {
        let t = s.drop_first();
        if s[0] == id {
            assert(t =~= s.remove(0));
            assert(t.to_multiset() =~= s.to_multiset().remove(id));
        } else {
            lemma_take_is_exclusive(t, id, x);
            lemma_to_multiset_cons(s[0], t);
            lemma_to_multiset_cons(s[0], remove_first(t, id));
            assert(seq![s[0]] + t =~= s);
        }
    }
}

/// The multiset of a sequence with one element put in front is the
/// sequence's multiset with that element added.
proof fn lemma_to_multiset_cons(a: u64, t: Seq<u64>)
    ensures
        (seq![a] + t).to_multiset() =~= t.to_multiset().insert(a),
{
    broadcast use vstd::seq_lib::group_to_multiset_ensures;

    let s = seq![a] + t;
    assert(s.remove(0) =~= t);
    assert(t.to_multiset() =~= s.to_multiset().remove(a));
    assert(s[0] == a);
    assert(s.contains(a));
    assert(t.to_multiset().insert(a) =~= s.to_multiset());
}

} // verus!
