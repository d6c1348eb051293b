//! The queue set: for each function name three FIFO queues keyed by
//! priority, the set of running jobs, and the deferred jobs waiting for
//! their epoch. Submissions coalesce on the dedup key `(fname, unique)`.

use vstd::prelude::*;

use crate::job::Job;
use crate::job::Priority;
use crate::job::job_key_is;
use crate::job::with_assigned;
use crate::job::with_status;
use crate::wire::clone_bytes;
use crate::codec::vec_eq;

verus! {

/// The three priority queues of one function name.
pub struct FuncQueues {
    pub fname: Vec<u8>,
    pub high: Vec<Job>,
    pub normal: Vec<Job>,
    pub low: Vec<Job>,
}

/// The queue a priority selects.
pub open spec fn fq_sel(fq: FuncQueues, p: Priority) -> Seq<Job> {
    match p {
        Priority::High => fq.high@,
        Priority::Normal => fq.normal@,
        Priority::Low => fq.low@,
    }
}

/// The priority whose queue the next grab on this function drains:
/// HIGH before NORMAL before LOW.
pub open spec fn fq_peek_prio(fq: FuncQueues) -> Priority {
    if fq.high@.len() > 0 {
        Priority::High
    } else if fq.normal@.len() > 0 {
        Priority::Normal
    } else {
        Priority::Low
    }
}

pub open spec fn fq_is_empty(fq: FuncQueues) -> bool {
    fq.high@.len() == 0 && fq.normal@.len() == 0 && fq.low@.len() == 0
}

/// First index at or after `i` whose entry is named `f`, or the length.
pub open spec fn fname_scan(funcs: Seq<FuncQueues>, i: int, f: Seq<u8>) -> int
    decreases funcs.len() - i,
{
    if i < 0 || i >= funcs.len() {
        funcs.len() as int
    } else if funcs[i].fname@ == f {
        i
    } else {
        fname_scan(funcs, i + 1, f)
    }
}

pub proof fn lemma_fname_scan_bounds(funcs: Seq<FuncQueues>, i: int, f: Seq<u8>)
    requires
        0 <= i <= funcs.len(),
    ensures
        i <= fname_scan(funcs, i, f) <= funcs.len(),
        fname_scan(funcs, i, f) < funcs.len() ==> funcs[fname_scan(funcs, i, f)].fname@ == f,
    decreases funcs.len() - i,
{
    if i < funcs.len() && funcs[i].fname@ != f {
        lemma_fname_scan_bounds(funcs, i + 1, f);
    }
}

/// First index at or after `i` whose job carries the key, or the length.
pub open spec fn key_scan(s: Seq<Job>, i: int, f: Seq<u8>, u: Seq<u8>) -> int
    decreases s.len() - i,
{
    if i < 0 || i >= s.len() {
        s.len() as int
    } else if job_key_is(s[i], f, u) {
        i
    } else {
        key_scan(s, i + 1, f, u)
    }
}

pub proof fn lemma_key_scan_bounds(s: Seq<Job>, i: int, f: Seq<u8>, u: Seq<u8>)
    requires
        0 <= i <= s.len(),
    ensures
        i <= key_scan(s, i, f, u) <= s.len(),
        key_scan(s, i, f, u) < s.len() ==> job_key_is(s[key_scan(s, i, f, u)], f, u),
        forall|k: int| i <= k < key_scan(s, i, f, u) ==> !job_key_is(#[trigger] s[k], f, u),
    decreases s.len() - i,
{
    if i < s.len() && !job_key_is(s[i], f, u) {
        lemma_key_scan_bounds(s, i + 1, f, u);
    }
}

/// First index at or after `i` whose job bears the handle, or the length.
pub open spec fn handle_scan(s: Seq<Job>, i: int, h: Seq<u8>) -> int
    decreases s.len() - i,
{
    if i < 0 || i >= s.len() {
        s.len() as int
    } else if s[i].handle@ == h {
        i
    } else {
        handle_scan(s, i + 1, h)
    }
}

pub proof fn lemma_handle_scan_bounds(s: Seq<Job>, i: int, h: Seq<u8>)
    requires
        0 <= i <= s.len(),
    ensures
        i <= handle_scan(s, i, h) <= s.len(),
        handle_scan(s, i, h) < s.len() ==> s[handle_scan(s, i, h)].handle@ == h,
        forall|k: int| i <= k < handle_scan(s, i, h) ==> #[trigger] s[k].handle@ != h,
    decreases s.len() - i,
{
    if i < s.len() && s[i].handle@ != h {
        lemma_handle_scan_bounds(s, i + 1, h);
    }
}

/// First index at or after `i` whose job runs on connection `c`.
pub open spec fn conn_scan(s: Seq<Job>, i: int, c: u64) -> int
    decreases s.len() - i,
{
    if i < 0 || i >= s.len() {
        s.len() as int
    } else if s[i].assigned == Some(c) {
        i
    } else {
        conn_scan(s, i + 1, c)
    }
}

pub proof fn lemma_conn_scan_bounds(s: Seq<Job>, i: int, c: u64)
    requires
        0 <= i <= s.len(),
    ensures
        i <= conn_scan(s, i, c) <= s.len(),
        conn_scan(s, i, c) < s.len() ==> s[conn_scan(s, i, c)].assigned == Some(c),
        forall|k: int| i <= k < conn_scan(s, i, c) ==> #[trigger] s[k].assigned != Some(c),
    decreases s.len() - i,
{
    if i < s.len() && s[i].assigned != Some(c) {
        lemma_conn_scan_bounds(s, i + 1, c);
    }
}

pub open spec fn seq_has_key(s: Seq<Job>, f: Seq<u8>, u: Seq<u8>) -> bool {
    exists|i: int| 0 <= i < s.len() && job_key_is(#[trigger] s[i], f, u)
}

pub open spec fn fq_has_key(fq: FuncQueues, f: Seq<u8>, u: Seq<u8>) -> bool {
    seq_has_key(fq.high@, f, u) || seq_has_key(fq.normal@, f, u) || seq_has_key(fq.low@, f, u)
}

pub open spec fn queued_has_key(funcs: Seq<FuncQueues>, f: Seq<u8>, u: Seq<u8>) -> bool {
    exists|fi: int| 0 <= fi < funcs.len() && fq_has_key(#[trigger] funcs[fi], f, u)
}

/// Whether any non-terminal job carries the key `(f, u)`.
pub open spec fn key_present(q: QueueHolder, f: Seq<u8>, u: Seq<u8>) -> bool {
    queued_has_key(q.funcs@, f, u) || seq_has_key(q.running@, f, u) || seq_has_key(
        q.scheduled@,
        f,
        u,
    )
}

/// Whether some non-terminal job carries key `(f, u)` under handle `h`.
pub open spec fn key_has_handle(q: QueueHolder, f: Seq<u8>, u: Seq<u8>, h: Seq<u8>) -> bool {
    ||| exists|fi: int, i: int|
        0 <= fi < q.funcs@.len() && 0 <= i < q.funcs@[fi].high@.len() && job_key_is(
            #[trigger] q.funcs@[fi].high@[i],
            f,
            u,
        ) && q.funcs@[fi].high@[i].handle@ == h
    ||| exists|fi: int, i: int|
        0 <= fi < q.funcs@.len() && 0 <= i < q.funcs@[fi].normal@.len() && job_key_is(
            #[trigger] q.funcs@[fi].normal@[i],
            f,
            u,
        ) && q.funcs@[fi].normal@[i].handle@ == h
    ||| exists|fi: int, i: int|
        0 <= fi < q.funcs@.len() && 0 <= i < q.funcs@[fi].low@.len() && job_key_is(
            #[trigger] q.funcs@[fi].low@[i],
            f,
            u,
        ) && q.funcs@[fi].low@[i].handle@ == h
    ||| exists|i: int|
        0 <= i < q.running@.len() && job_key_is(#[trigger] q.running@[i], f, u)
            && q.running@[i].handle@ == h
    ||| exists|i: int|
        0 <= i < q.scheduled@.len() && job_key_is(#[trigger] q.scheduled@[i], f, u)
            && q.scheduled@[i].handle@ == h
}

/// The views of a list of function names.
pub open spec fn views_of(fns: Seq<Vec<u8>>) -> Seq<Seq<u8>> {
    fns.map_values(|v: Vec<u8>| v@)
}

/// The function index and priority the next grab drains, scanning the
/// worker's function names from `k` on in declaration order.
pub open spec fn pick_scan(funcs: Seq<FuncQueues>, fns: Seq<Seq<u8>>, k: int) -> Option<
    (int, Priority),
>
    decreases fns.len() - k,
{
    if k < 0 || k >= fns.len() {
        None
    } else {
        let fi = fname_scan(funcs, 0, fns[k]);
        if fi < funcs.len() && !fq_is_empty(funcs[fi]) {
            Some((fi, fq_peek_prio(funcs[fi])))
        } else {
            pick_scan(funcs, fns, k + 1)
        }
    }
}

/// What a grab hands the dispatcher: copies of the fields the
/// assignment packets carry.
pub struct Assignment {
    pub handle: Vec<u8>,
    pub fname: Vec<u8>,
    pub unique: Vec<u8>,
    pub reducer: Vec<u8>,
    pub payload: Vec<u8>,
}

pub struct QueueHolder {
    pub funcs: Vec<FuncQueues>,
    pub running: Vec<Job>,
    pub scheduled: Vec<Job>,
}

impl QueueHolder {
    pub fn new() -> (r: QueueHolder)
        ensures
            r.funcs@.len() == 0,
            r.running@.len() == 0,
            r.scheduled@.len() == 0,
    {
        QueueHolder { funcs: Vec::new(), running: Vec::new(), scheduled: Vec::new() }
    }

    /// The index of the queues for `f`, or the count when none exist.
    pub fn find_func(&self, f: &Vec<u8>) -> (r: usize)
        ensures
            r == fname_scan(self.funcs@, 0, f@),
    {
        let len = self.funcs.len();
        let mut i: usize = 0;
        while i < len
            invariant
                0 <= i <= len,
                len == self.funcs@.len(),
                fname_scan(self.funcs@, 0, f@) == fname_scan(self.funcs@, i as int, f@),
            decreases len - i,
        {
            if vec_eq(&self.funcs[i].fname, f) {
                return i;
            }
            i = i + 1;
        }
        i
    }

    fn seq_key_idx(s: &Vec<Job>, f: &Vec<u8>, u: &Vec<u8>) -> (r: usize)
        ensures
            r == key_scan(s@, 0, f@, u@),
    {
        let len = s.len();
        let mut i: usize = 0;
        while i < len
            invariant
                0 <= i <= len,
                len == s@.len(),
                key_scan(s@, 0, f@, u@) == key_scan(s@, i as int, f@, u@),
            decreases len - i,
        {
            if vec_eq(&s[i].fname, f) && vec_eq(&s[i].unique, u) {
                return i;
            }
            i = i + 1;
        }
        i
    }

    /// The handle of the first non-terminal job carrying key `(f, u)`,
    /// if any: queued jobs first, then running, then deferred.
    pub fn find_key(&self, f: &Vec<u8>, u: &Vec<u8>) -> (r: Option<Vec<u8>>)
        ensures
            r is Some <==> key_present(*self, f@, u@),
            r matches Some(h) ==> key_has_handle(*self, f@, u@, h@),
    {
        let nf = self.funcs.len();
        let mut fi: usize = 0;
        while fi < nf
            invariant
                0 <= fi <= nf,
                nf == self.funcs@.len(),
                forall|k: int| 0 <= k < fi ==> !fq_has_key(#[trigger] self.funcs@[k], f@, u@),
            decreases nf - fi,
        {
            let fq = &self.funcs[fi];
            let hi = Self::seq_key_idx(&fq.high, f, u);
            proof {
                lemma_key_scan_bounds(fq.high@, 0, f@, u@);
            }
            if hi < fq.high.len() {
                return Some(clone_bytes(&fq.high[hi].handle));
            }
            let ni = Self::seq_key_idx(&fq.normal, f, u);
            proof {
                lemma_key_scan_bounds(fq.normal@, 0, f@, u@);
            }
            if ni < fq.normal.len() {
                return Some(clone_bytes(&fq.normal[ni].handle));
            }
            let li = Self::seq_key_idx(&fq.low, f, u);
            proof {
                lemma_key_scan_bounds(fq.low@, 0, f@, u@);
            }
            if li < fq.low.len() {
                return Some(clone_bytes(&fq.low[li].handle));
            }
            fi = fi + 1;
        }
        let ri = Self::seq_key_idx(&self.running, f, u);
        proof {
            lemma_key_scan_bounds(self.running@, 0, f@, u@);
        }
        if ri < self.running.len() {
            return Some(clone_bytes(&self.running[ri].handle));
        }
        let si = Self::seq_key_idx(&self.scheduled, f, u);
        proof {
            lemma_key_scan_bounds(self.scheduled@, 0, f@, u@);
        }
        if si < self.scheduled.len() {
            return Some(clone_bytes(&self.scheduled[si].handle));
        }
        None
    }

    /// Enqueues `job` at the tail of its function's priority queue,
    /// making queues for the function when it has none yet. Called only
    /// once the dedup key was found absent.
    pub fn enqueue(&mut self, job: Job)
        requires
            job.assigned is None,
        ensures
            ({
                let fi = fname_scan(old(self).funcs@, 0, job.fname@);
                let fl = old(self).funcs@.len() as int;
                &&& final(self).running@ == old(self).running@
                &&& final(self).scheduled@ == old(self).scheduled@
                &&& if fi < fl {
                    &&& final(self).funcs@.len() == fl
                    &&& (forall|k: int|
                        0 <= k < fl && k != fi ==> final(self).funcs@[k] == old(self).funcs@[k])
                    &&& final(self).funcs@[fi].fname@ == old(self).funcs@[fi].fname@
                    &&& final(self).funcs@[fi].high@ == (if job.priority == Priority::High {
                        old(self).funcs@[fi].high@.push(job)
                    } else {
                        old(self).funcs@[fi].high@
                    })
                    &&& final(self).funcs@[fi].normal@ == (if job.priority == Priority::Normal {
                        old(self).funcs@[fi].normal@.push(job)
                    } else {
                        old(self).funcs@[fi].normal@
                    })
                    &&& final(self).funcs@[fi].low@ == (if job.priority == Priority::Low {
                        old(self).funcs@[fi].low@.push(job)
                    } else {
                        old(self).funcs@[fi].low@
                    })
                } else {
                    &&& final(self).funcs@.len() == fl + 1
                    &&& (forall|k: int|
                        0 <= k < fl ==> final(self).funcs@[k] == old(self).funcs@[k])
                    &&& final(self).funcs@[fl].fname@ == job.fname@
                    &&& fq_sel(final(self).funcs@[fl], job.priority) == seq![job]
                    &&& (forall|p: Priority|
                        p != job.priority ==> fq_sel(#[trigger] final(self).funcs@[fl], p)
                            == Seq::<Job>::empty())
                }
            }),
    {
        let fi = self.find_func(&job.fname);
        proof {
            lemma_fname_scan_bounds(self.funcs@, 0, job.fname@);
        }
        if fi < self.funcs.len() {
            let mut fq = self.funcs.remove(fi);
            match job.priority {
                Priority::High => fq.high.push(job),
                Priority::Normal => fq.normal.push(job),
                Priority::Low => fq.low.push(job),
            }
            self.funcs.insert(fi, fq);
            proof {
                assert(final(self).funcs@ =~= old(self).funcs@.update(fi as int, final(self).funcs@[fi as int]));
            }
        } else {
            let fname = clone_bytes(&job.fname);
            let mut fq = FuncQueues {
                fname,
                high: Vec::new(),
                normal: Vec::new(),
                low: Vec::new(),
            };
            match job.priority {
                Priority::High => fq.high.push(job),
                Priority::Normal => fq.normal.push(job),
                Priority::Low => fq.low.push(job),
            }
            self.funcs.push(fq);
        }
    }

    /// Puts a job back at the *front* of its priority queue, as after a
    /// worker loss, clearing any running assignment.
    pub fn requeue(&mut self, job: Job)
        ensures
            ({
                let j = with_assigned(job, None);
                let fi = fname_scan(old(self).funcs@, 0, job.fname@);
                let fl = old(self).funcs@.len() as int;
                &&& final(self).running@ == old(self).running@
                &&& final(self).scheduled@ == old(self).scheduled@
                &&& if fi < fl {
                    &&& final(self).funcs@.len() == fl
                    &&& (forall|k: int|
                        0 <= k < fl && k != fi ==> final(self).funcs@[k] == old(self).funcs@[k])
                    &&& final(self).funcs@[fi].fname@ == old(self).funcs@[fi].fname@
                    &&& final(self).funcs@[fi].high@ == (if job.priority == Priority::High {
                        seq![j] + old(self).funcs@[fi].high@
                    } else {
                        old(self).funcs@[fi].high@
                    })
                    &&& final(self).funcs@[fi].normal@ == (if job.priority == Priority::Normal {
                        seq![j] + old(self).funcs@[fi].normal@
                    } else {
                        old(self).funcs@[fi].normal@
                    })
                    &&& final(self).funcs@[fi].low@ == (if job.priority == Priority::Low {
                        seq![j] + old(self).funcs@[fi].low@
                    } else {
                        old(self).funcs@[fi].low@
                    })
                } else {
                    &&& final(self).funcs@.len() == fl + 1
                    &&& (forall|k: int|
                        0 <= k < fl ==> final(self).funcs@[k] == old(self).funcs@[k])
                    &&& final(self).funcs@[fl].fname@ == job.fname@
                    &&& fq_sel(final(self).funcs@[fl], job.priority) == seq![j]
                    &&& (forall|p: Priority|
                        p != job.priority ==> fq_sel(#[trigger] final(self).funcs@[fl], p)
                            == Seq::<Job>::empty())
                }
            }),
    {
        let mut job = job;
        job.assigned = None;
        let fi = self.find_func(&job.fname);
        proof {
            lemma_fname_scan_bounds(self.funcs@, 0, job.fname@);
        }
        if fi < self.funcs.len() {
            let mut fq = self.funcs.remove(fi);
            match job.priority {
                Priority::High => fq.high.insert(0, job),
                Priority::Normal => fq.normal.insert(0, job),
                Priority::Low => fq.low.insert(0, job),
            }
            self.funcs.insert(fi, fq);
            proof {
                assert(final(self).funcs@ =~= old(self).funcs@.update(fi as int, final(self).funcs@[fi as int]));
            }
        } else {
            let fname = clone_bytes(&job.fname);
            let mut fq = FuncQueues {
                fname,
                high: Vec::new(),
                normal: Vec::new(),
                low: Vec::new(),
            };
            match job.priority {
                Priority::High => fq.high.push(job),
                Priority::Normal => fq.normal.push(job),
                Priority::Low => fq.low.push(job),
            }
            self.funcs.push(fq);
        }
    }

    /// Dequeues the next job for a worker that handles `fns`: functions
    /// in declaration order, HIGH before NORMAL before LOW, FIFO inside
    /// a queue. The job moves to the running set, assigned to `conn_id`.
    pub fn get_job(&mut self, fns: &Vec<Vec<u8>>, conn_id: u64) -> (r: Option<Assignment>)
        ensures
            ({
                let fseq = views_of(fns@);
                match pick_scan(old(self).funcs@, fseq, 0) {
                    None => {
                        &&& r is None
                        &&& final(self).funcs@ == old(self).funcs@
                        &&& final(self).running@ == old(self).running@
                        &&& final(self).scheduled@ == old(self).scheduled@
                    },
                    Some((fi, p)) => {
                        let j = fq_sel(old(self).funcs@[fi], p)[0];
                        let fl = old(self).funcs@.len() as int;
                        &&& r matches Some(a) && a.handle@ == j.handle@ && a.fname@ == j.fname@
                            && a.unique@ == j.unique@ && a.payload@ == j.payload@ && a.reducer@
                            == (if j.reducer is Some {
                            j.reducer->0@
                        } else {
                            Seq::<u8>::empty()
                        })
                        &&& final(self).funcs@.len() == fl
                        &&& (forall|k: int|
                            0 <= k < fl && k != fi ==> final(self).funcs@[k] == old(self).funcs@[k])
                        &&& final(self).funcs@[fi].fname@ == old(self).funcs@[fi].fname@
                        &&& final(self).funcs@[fi].high@ == (if p == Priority::High {
                            old(self).funcs@[fi].high@.drop_first()
                        } else {
                            old(self).funcs@[fi].high@
                        })
                        &&& final(self).funcs@[fi].normal@ == (if p == Priority::Normal {
                            old(self).funcs@[fi].normal@.drop_first()
                        } else {
                            old(self).funcs@[fi].normal@
                        })
                        &&& final(self).funcs@[fi].low@ == (if p == Priority::Low {
                            old(self).funcs@[fi].low@.drop_first()
                        } else {
                            old(self).funcs@[fi].low@
                        })
                        &&& final(self).running@ == old(self).running@.push(
                            with_assigned(j, Some(conn_id)),
                        )
                        &&& final(self).scheduled@ == old(self).scheduled@
                    },
                }
            }),
    {
        let ghost q0 = *self;
        let nfns = fns.len();
        let mut k: usize = 0;
        while k < nfns
            invariant
                0 <= k <= nfns,
                nfns == fns@.len(),
                *self == q0,
                q0 == *old(self),
                pick_scan(self.funcs@, views_of(fns@), 0) == pick_scan(
                    self.funcs@,
                    views_of(fns@),
                    k as int,
                ),
            decreases nfns - k,
        {
            proof {
                assert(views_of(fns@)[k as int] == fns@[k as int]@);
            }
            let fi = self.find_func(&fns[k]);
            proof {
                lemma_fname_scan_bounds(self.funcs@, 0, fns@[k as int]@);
            }
            if fi < self.funcs.len() {
                let nonempty = self.funcs[fi].high.len() > 0 || self.funcs[fi].normal.len() > 0
                    || self.funcs[fi].low.len() > 0;
                if nonempty {
                    let ghost p = fq_peek_prio(self.funcs@[fi as int]);
                    let ghost j = fq_sel(self.funcs@[fi as int], p)[0];
                    let mut fq = self.funcs.remove(fi);
                    let mut job = if fq.high.len() > 0 {
                        fq.high.remove(0)
                    } else if fq.normal.len() > 0 {
                        fq.normal.remove(0)
                    } else {
                        fq.low.remove(0)
                    };
                    self.funcs.insert(fi, fq);
                    let reducer = match &job.reducer {
                        Some(rd) => clone_bytes(rd),
                        None => Vec::new(),
                    };
                    let a = Assignment {
                        handle: clone_bytes(&job.handle),
                        fname: clone_bytes(&job.fname),
                        unique: clone_bytes(&job.unique),
                        reducer,
                        payload: clone_bytes(&job.payload),
                    };
                    job.assigned = Some(conn_id);
                    self.running.push(job);
                    proof {
                        assert(job == with_assigned(j, Some(conn_id)));
                        assert(final(self).funcs@ =~= old(self).funcs@.update(fi as int, final(self).funcs@[fi as int]));
                    }
                    return Some(a);
                }
            }
            k = k + 1;
        }
        None
    }

    /// Removes the first running job bearing `handle`, as on a terminal
    /// WORK_* report.
    pub fn remove_running(&mut self, handle: &Vec<u8>) -> (r: Option<Job>)
        ensures
            final(self).funcs@ == old(self).funcs@,
            final(self).scheduled@ == old(self).scheduled@,
            ({
                let i = handle_scan(old(self).running@, 0, handle@);
                if i < old(self).running@.len() {
                    r == Some(old(self).running@[i]) && final(self).running@ == old(self).running@.remove(i)
                } else {
                    r is None && final(self).running@ == old(self).running@
                }
            }),
    {
        let len = self.running.len();
        let mut i: usize = 0;
        while i < len
            invariant
                0 <= i <= len,
                len == self.running@.len(),
                self.funcs@ == old(self).funcs@,
                self.running@ == old(self).running@,
                self.scheduled@ == old(self).scheduled@,
                handle_scan(self.running@, 0, handle@) == handle_scan(
                    self.running@,
                    i as int,
                    handle@,
                ),
            decreases len - i,
        {
            if vec_eq(&self.running[i].handle, handle) {
                let j = self.running.remove(i);
                return Some(j);
            }
            i = i + 1;
        }
        None
    }

    /// Removes the first running job assigned to connection `conn_id`,
    /// as when that worker disconnects.
    pub fn take_running_conn(&mut self, conn_id: u64) -> (r: Option<Job>)
        ensures
            final(self).funcs@ == old(self).funcs@,
            final(self).scheduled@ == old(self).scheduled@,
            ({
                let i = conn_scan(old(self).running@, 0, conn_id);
                if i < old(self).running@.len() {
                    r == Some(old(self).running@[i]) && final(self).running@ == old(self).running@.remove(i)
                } else {
                    r is None && final(self).running@ == old(self).running@
                }
            }),
    {
        let len = self.running.len();
        let mut i: usize = 0;
        while i < len
            invariant
                0 <= i <= len,
                len == self.running@.len(),
                self.funcs@ == old(self).funcs@,
                self.running@ == old(self).running@,
                self.scheduled@ == old(self).scheduled@,
                conn_scan(self.running@, 0, conn_id) == conn_scan(self.running@, i as int, conn_id),
            decreases len - i,
        {
            let matches_conn = match self.running[i].assigned {
                Some(c) => c == conn_id,
                None => false,
            };
            if matches_conn {
                let j = self.running.remove(i);
                return Some(j);
            }
            i = i + 1;
        }
        None
    }


    /// Defers a job until its epoch; it joins the scheduled pool.
    pub fn enqueue_scheduled(&mut self, job: Job)
        requires
            job.when_to_run is Some,
        ensures
            final(self).funcs@ == old(self).funcs@,
            final(self).running@ == old(self).running@,
            final(self).scheduled@ == old(self).scheduled@.push(job),
    {
        self.scheduled.push(job);
    }

    /// Takes out the due job with the earliest epoch (the first such on
    /// a tie), or nothing when none is due yet.
    pub fn pop_due(&mut self, now: u64) -> (r: Option<Job>)
        ensures
            final(self).funcs@ == old(self).funcs@,
            final(self).running@ == old(self).running@,
            ({
                match r {
                    None => final(self).scheduled@ == old(self).scheduled@ && (forall|k: int|
                        0 <= k < old(self).scheduled@.len() ==> !is_due(
                            #[trigger] old(self).scheduled@[k],
                            now,
                        )),
                    Some(j) => exists|i: int|
                        {
                            &&& 0 <= i < old(self).scheduled@.len()
                            &&& j == old(self).scheduled@[i]
                            &&& is_due(j, now)
                            &&& #[trigger] final(self).scheduled@ == old(
                                self,
                            ).scheduled@.remove(i)
                            &&& forall|k: int|
                                0 <= k < old(self).scheduled@.len() && is_due(
                                    #[trigger] old(self).scheduled@[k],
                                    now,
                                ) ==> j.when_to_run->0 <= old(self).scheduled@[k].when_to_run->0
                        },
                }
            }),
    {
        let len = self.scheduled.len();
        let mut best: usize = len;
        let mut i: usize = 0;
        while i < len
            invariant
                0 <= i <= len,
                len == self.scheduled@.len(),
                best <= i || best == len,
                best < len ==> is_due(self.scheduled@[best as int], now),
                best == len ==> forall|k: int|
                    0 <= k < i ==> !is_due(#[trigger] self.scheduled@[k], now),
                best < len ==> forall|k: int|
                    0 <= k < i && is_due(#[trigger] self.scheduled@[k], now)
                        ==> self.scheduled@[best as int].when_to_run->0
                        <= self.scheduled@[k].when_to_run->0,
            decreases len - i,
        {
            let due_here = match self.scheduled[i].when_to_run {
                Some(w) => w <= now,
                None => false,
            };
            if due_here {
                if best == len {
                    best = i;
                } else {
                    let wb = match self.scheduled[best].when_to_run {
                        Some(w) => w,
                        None => 0,
                    };
                    let wi = match self.scheduled[i].when_to_run {
                        Some(w) => w,
                        None => 0,
                    };
                    if wi < wb {
                        best = i;
                    }
                }
            }
            i = i + 1;
        }
        if best < len {
            let j = self.scheduled.remove(best);
            Some(j)
        } else {
            None
        }
    }

    /// Whether a queued job bears `handle`.
    pub fn has_queued_handle(&self, handle: &Vec<u8>) -> (r: bool)
        ensures
            r == queued_handle_present(self.funcs@, handle@),
    {
        let nf = self.funcs.len();
        let mut fi: usize = 0;
        while fi < nf
            invariant
                0 <= fi <= nf,
                nf == self.funcs@.len(),
                forall|k: int|
                    0 <= k < fi ==> {
                        let fq = #[trigger] self.funcs@[k];
                        handle_scan(fq.high@, 0, handle@) == fq.high@.len() && handle_scan(
                            fq.normal@,
                            0,
                            handle@,
                        ) == fq.normal@.len() && handle_scan(fq.low@, 0, handle@) == fq.low@.len()
                    },
            decreases nf - fi,
        {
            let fq = &self.funcs[fi];
            let hi = seq_handle_idx(&fq.high, handle);
            let ni = seq_handle_idx(&fq.normal, handle);
            let li = seq_handle_idx(&fq.low, handle);
            proof {
                lemma_handle_scan_bounds(fq.high@, 0, handle@);
                lemma_handle_scan_bounds(fq.normal@, 0, handle@);
                lemma_handle_scan_bounds(fq.low@, 0, handle@);
            }
            if hi < fq.high.len() || ni < fq.normal.len() || li < fq.low.len() {
                return true;
            }
            fi = fi + 1;
        }
        false
    }

    /// Records a WORK_STATUS progress report on the first running job
    /// bearing `handle`; says whether one was found.
    pub fn update_status(&mut self, handle: &Vec<u8>, num: u64, den: u64) -> (r: bool)
        ensures
            final(self).funcs@ == old(self).funcs@,
            final(self).scheduled@ == old(self).scheduled@,
            ({
                let i = handle_scan(old(self).running@, 0, handle@);
                if i < old(self).running@.len() {
                    r == true && final(self).running@ == old(self).running@.update(
                        i,
                        with_status(old(self).running@[i], num, den),
                    )
                } else {
                    r == false && final(self).running@ == old(self).running@
                }
            }),
    {
        let len = self.running.len();
        let mut i: usize = 0;
        while i < len
            invariant
                0 <= i <= len,
                len == self.running@.len(),
                self.funcs@ == old(self).funcs@,
                self.running@ == old(self).running@,
                self.scheduled@ == old(self).scheduled@,
                handle_scan(self.running@, 0, handle@) == handle_scan(
                    self.running@,
                    i as int,
                    handle@,
                ),
            decreases len - i,
        {
            if vec_eq(&self.running[i].handle, handle) {
                let mut j = self.running.remove(i);
                j.numerator = num;
                j.denominator = den;
                self.running.insert(i, j);
                proof {
                    assert(final(self).running@ =~= old(self).running@.update(
                        i as int,
                        with_status(old(self).running@[i as int], num, den),
                    ));
                }
                return true;
            }
            i = i + 1;
        }
        false
    }
}



/// Whether a deferred job's epoch has arrived.
pub open spec fn is_due(j: Job, now: u64) -> bool {
    j.when_to_run is Some && j.when_to_run->0 <= now
}

/// Whether some queued (not running, not deferred) job bears handle `h`.
pub open spec fn queued_handle_present(funcs: Seq<FuncQueues>, h: Seq<u8>) -> bool {
    exists|fi: int|
        0 <= fi < funcs.len() && (handle_scan(#[trigger] funcs[fi].high@, 0, h)
            < funcs[fi].high@.len() || handle_scan(funcs[fi].normal@, 0, h)
            < funcs[fi].normal@.len() || handle_scan(funcs[fi].low@, 0, h)
            < funcs[fi].low@.len())
}

/// First index of handle `h` in a job list, or the length.
pub fn seq_handle_idx(s: &Vec<Job>, h: &Vec<u8>) -> (r: usize)
    ensures
        r == handle_scan(s@, 0, h@),
{
    let len = s.len();
    let mut i: usize = 0;
    while i < len
        invariant
            0 <= i <= len,
            len == s@.len(),
            handle_scan(s@, 0, h@) == handle_scan(s@, i as int, h@),
        decreases len - i,
    {
        if vec_eq(&s[i].handle, h) {
            return i;
        }
        i = i + 1;
    }
    i
}

/// How many running jobs bear the function name `f`.
pub open spec fn running_count(s: Seq<Job>, f: Seq<u8>) -> int
    decreases s.len(),
{
    if s.len() == 0 {
        0
    } else {
        running_count(s.drop_last(), f) + if s.last().fname@ == f {
            1int
        } else {
            0int
        }
    }
}

pub proof fn lemma_running_count_bounds(s: Seq<Job>, f: Seq<u8>)
    ensures
        0 <= running_count(s, f) <= s.len(),
    decreases s.len(),
{
    if s.len() > 0 {
        lemma_running_count_bounds(s.drop_last(), f);
    }
}

/// Counts the running jobs named `f`.
pub fn count_running(s: &Vec<Job>, f: &Vec<u8>) -> (r: usize)
    ensures
        r == running_count(s@, f@),
{
    let len = s.len();
    let mut i: usize = 0;
    let mut r: usize = 0;
    while i < len
        invariant
            0 <= i <= len,
            len == s@.len(),
            r == running_count(s@.take(i as int), f@),
            r <= i,
        decreases len - i,
    {
        proof {
            assert(s@.take(i as int + 1).drop_last() =~= s@.take(i as int));
            assert(s@.take(i as int + 1).last() == s@[i as int]);
        }
        if vec_eq(&s[i].fname, f) {
            r = r + 1;
        }
        i = i + 1;
    }
    proof {
        assert(s@.take(len as int) =~= s@);
    }
    r
}

} // verus!
