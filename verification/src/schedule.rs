//! The schedulable unit of work.
//!
//! A task exposes its identity, its cadence — a cadence string, or a fixed
//! tick in milliseconds when the string is empty — its execution limit and
//! an execute callback.  [`ClosuresAction`] binds a plain closure to that
//! capability set; embedders may implement [`TaskAction`] for their own
//! types instead.

use vstd::prelude::*;

verus! {

/// A schedulable unit of recurring work.  `date_format` returns the
/// cadence string, empty when the fixed `tick` (milliseconds) governs the
/// task; `loop_count` caps the number of executions, 0 meaning unbounded.
/// `execute` is called with the task's own identifier; an implementation
/// must accept any identifier value.
pub trait TaskAction: Send + Sync {
    fn execute(&self, id: u64) {
    }

    fn date_format(&self) -> &str;

    fn tick(&self) -> u64;

    fn id(&self) -> u64;

    fn loop_count(&self) -> i32;
}

/// A task bound to a closure.
pub struct ClosuresAction<F> where F: Fn(u64) + Send + Sync {
    date_format: String,
    id: u64,
    loop_count: i32,
    tick: u64,
    call: F,
}

impl<F> ClosuresAction<F> where F: Fn(u64) + Send + Sync {
    /// The closure accepts every identifier, so `execute` may always call it.
    #[verifier::type_invariant]
    closed spec fn callable(self) -> bool {
        forall|i: u64| self.call.requires((i,))
    }

    pub closed spec fn spec_date_format(self) -> Seq<char> {
        self.date_format@
    }

    pub closed spec fn spec_id(self) -> u64 {
        self.id
    }

    pub closed spec fn spec_loop_count(self) -> i32 {
        self.loop_count
    }

    pub closed spec fn spec_tick(self) -> u64 {
        self.tick
    }

    /// Binds a closure to a cadence: the task fires per `date` when it is
    /// non-empty, else every `tick_ms` milliseconds, at most `loop_c` times
    /// when `loop_c` is positive.
    pub fn new(date: &str, idx: u64, loop_c: i32, tick_ms: u64, f: F) -> (r: ClosuresAction<F>)
        requires
            forall|i: u64| f.requires((i,)),
        ensures
            r.spec_date_format() == date@,
            r.spec_id() == idx,
            r.spec_loop_count() == loop_c,
            r.spec_tick() == tick_ms,
    {
        ClosuresAction {
            date_format: String::from_str(date),
            id: idx,
            loop_count: loop_c,
            tick: tick_ms,
            call: f,
        }
    }
}

impl<F> TaskAction for ClosuresAction<F> where F: Fn(u64) + Send + Sync {
    fn execute(&self, id: u64) {
        proof {
            use_type_invariant(self);
        }
        (self.call)(id);
    }

    fn date_format(&self) -> (r: &str)
        ensures
            r@ == self.spec_date_format(),
    {
        self.date_format.as_str()
    }

    fn tick(&self) -> (r: u64)
        ensures
            r == self.spec_tick(),
    {
        self.tick
    }

    fn id(&self) -> (r: u64)
        ensures
            r == self.spec_id(),
    {
        self.id
    }

    fn loop_count(&self) -> (r: i32)
        ensures
            r == self.spec_loop_count(),
    {
        self.loop_count
    }
}

} // verus!
