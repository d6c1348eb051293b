//! Jobs: identity, payload, priority, and lifecycle bookkeeping.

use vstd::prelude::*;

use crate::wire::dec_digits;
use crate::wire::push_dec;

verus! {

#[derive(Clone, Copy, PartialEq, Eq, Structural)]
pub enum Priority {
    High,
    Normal,
    Low,
}

pub struct Job {
    /// Broker-assigned ascii identifier, unique for the broker lifetime.
    pub handle: Vec<u8>,
    pub fname: Vec<u8>,
    /// Client-supplied dedup key, scoped to `(fname, unique)`.
    pub unique: Vec<u8>,
    pub payload: Vec<u8>,
    pub priority: Priority,
    pub background: bool,
    /// Epoch second before which the job must not run.
    pub when_to_run: Option<u64>,
    /// Reducer group for reduce-style jobs.
    pub reducer: Option<Vec<u8>>,
    /// Progress as last reported by WORK_STATUS.
    pub numerator: u64,
    pub denominator: u64,
    /// The worker connection holding the job while it runs.
    pub assigned: Option<u64>,
}

/// Whether `j` carries the dedup key `(f, u)`.
pub open spec fn job_key_is(j: Job, f: Seq<u8>, u: Seq<u8>) -> bool {
    j.fname@ == f && j.unique@ == u
}

/// `j` with the running-assignment changed and nothing else.
pub open spec fn with_assigned(j: Job, a: Option<u64>) -> Job {
    Job { assigned: a, ..j }
}

/// `j` with a fresh progress report and nothing else.
pub open spec fn with_status(j: Job, num: u64, den: u64) -> Job {
    Job { numerator: num, denominator: den, ..j }
}

/// The ascii handle the broker assigns to its `n`-th job.
pub open spec fn handle_of(n: u64) -> Seq<u8> {
    seq![72u8, 58u8] + dec_digits(n)  // "H:" then the decimal
}

pub fn make_handle(n: u64) -> (r: Vec<u8>)
    ensures
        r@ == handle_of(n),
{
    let mut v: Vec<u8> = Vec::new();
    v.push(72u8);
    v.push(58u8);
    push_dec(n, &mut v);
    proof {
        assert(v@ =~= handle_of(n));
    }
    v
}

impl Job {
    pub fn new(
        handle: Vec<u8>,
        fname: Vec<u8>,
        unique: Vec<u8>,
        payload: Vec<u8>,
        priority: Priority,
        background: bool,
    ) -> (r: Job)
        ensures
            r.handle@ == handle@,
            r.fname@ == fname@,
            r.unique@ == unique@,
            r.payload@ == payload@,
            r.priority == priority,
            r.background == background,
            r.when_to_run is None,
            r.reducer is None,
            r.numerator == 0,
            r.denominator == 0,
            r.assigned is None,
    {
        Job {
            handle,
            fname,
            unique,
            payload,
            priority,
            background,
            when_to_run: None,
            reducer: None,
            numerator: 0,
            denominator: 0,
            assigned: None,
        }
    }
}

} // verus!
