//! The dispatcher: one atomic step per decoded request against the
//! shared broker state, yielding the frames to deliver and where.

use vstd::prelude::*;

use crate::constants::ADMIN_STATUS;
use crate::constants::ADMIN_UNKNOWN;
use crate::constants::ADMIN_VERSION;
use crate::constants::ALL_YOURS;
use crate::constants::CAN_DO;
use crate::constants::CANT_DO;
use crate::constants::CAN_DO_TIMEOUT;
use crate::constants::ECHO_REQ;
use crate::constants::ECHO_RES;
use crate::constants::ERROR;
use crate::constants::GET_STATUS;
use crate::constants::GRAB_JOB;
use crate::constants::GRAB_JOB_ALL;
use crate::constants::GRAB_JOB_UNIQ;
use crate::constants::JOB_ASSIGN;
use crate::constants::JOB_ASSIGN_ALL;
use crate::constants::JOB_ASSIGN_UNIQ;
use crate::constants::JOB_CREATED;
use crate::constants::NOOP;
use crate::constants::NO_JOB;
use crate::constants::OPTION_REQ;
use crate::constants::OPTION_RES;
use crate::constants::PRE_SLEEP;
use crate::constants::RESET_ABILITIES;
use crate::constants::SET_CLIENT_ID;
use crate::constants::STATUS_RES;
use crate::constants::SUBMIT_JOB;
use crate::constants::SUBMIT_JOB_BG;
use crate::constants::SUBMIT_JOB_EPOCH;
use crate::constants::SUBMIT_JOB_HIGH;
use crate::constants::SUBMIT_JOB_HIGH_BG;
use crate::constants::SUBMIT_JOB_LOW;
use crate::constants::SUBMIT_JOB_LOW_BG;
use crate::constants::SUBMIT_REDUCE_JOB;
use crate::constants::SUBMIT_REDUCE_JOB_BACKGROUND;
use crate::constants::WORK_COMPLETE;
use crate::constants::WORK_DATA;
use crate::constants::WORK_EXCEPTION;
use crate::constants::WORK_FAIL;
use crate::constants::WORK_STATUS;
use crate::constants::WORK_WARNING;
use crate::job::Job;
use crate::job::Priority;
use crate::job::handle_of;
use crate::job::make_handle;
use crate::job::with_assigned;
use crate::packet::Packet;
use crate::packet::PacketMagic;
use crate::packet::ParseError;
use crate::queues::QueueHolder;
use crate::queues::key_has_handle;
use crate::queues::key_present;
use crate::queues::fname_scan;
use crate::queues::fq_sel;
use crate::queues::handle_scan;
use crate::queues::pick_scan;
use crate::queues::conn_scan;
use crate::queues::views_of;
use crate::worker::WorkerRegistry;
use crate::worker::should_wake;
use crate::worker::woken;
use crate::worker::woken_ids;
use crate::worker::wconn_scan;
use crate::wire::clone_bytes;

verus! {

/// A frame and the connection it must reach.
pub struct Delivery {
    pub target: u64,
    pub packet: Packet,
}

/// The foreground submitters awaiting a handle's terminal report.
pub struct WaitEntry {
    pub handle: Vec<u8>,
    pub conns: Vec<u64>,
}

/// First index at or after `i` of the wait entry for `h`.
pub open spec fn wh_scan(ws: Seq<WaitEntry>, i: int, h: Seq<u8>) -> int
    decreases ws.len() - i,
{
    if i < 0 || i >= ws.len() {
        ws.len() as int
    } else if ws[i].handle@ == h {
        i
    } else {
        wh_scan(ws, i + 1, h)
    }
}

pub proof fn lemma_wh_scan_bounds(ws: Seq<WaitEntry>, i: int, h: Seq<u8>)
    requires
        0 <= i <= ws.len(),
    ensures
        i <= wh_scan(ws, i, h) <= ws.len(),
        wh_scan(ws, i, h) < ws.len() ==> ws[wh_scan(ws, i, h)].handle@ == h,
        forall|k: int| i <= k < wh_scan(ws, i, h) ==> #[trigger] ws[k].handle@ != h,
    decreases ws.len() - i,
{
    if i < ws.len() && ws[i].handle@ != h {
        lemma_wh_scan_bounds(ws, i + 1, h);
    }
}

/// How `c` joins the waiters on `h`: into the existing entry unless
/// already there, else as a fresh entry.
pub open spec fn waiters_added(pre: Seq<WaitEntry>, post: Seq<WaitEntry>, h: Seq<u8>, c: u64) -> bool {
    let i = wh_scan(pre, 0, h);
    if i < pre.len() {
        &&& post.len() == pre.len()
        &&& (forall|k: int| 0 <= k < pre.len() && k != i ==> post[k] == #[trigger] pre[k])
        &&& post[i].handle@ == pre[i].handle@
        &&& post[i].conns@ == (if pre[i].conns@.contains(c) {
            pre[i].conns@
        } else {
            pre[i].conns@.push(c)
        })
    } else {
        &&& post.len() == pre.len() + 1
        &&& (forall|k: int| 0 <= k < pre.len() ==> post[k] == #[trigger] pre[k])
        &&& post.last().handle@ == h
        &&& post.last().conns@ == seq![c]
    }
}

/// A broker-built binary response frame.
pub open spec fn is_res_packet(p: Packet, ptype: u32, data: Seq<u8>) -> bool {
    &&& p.magic == PacketMagic::RES
    &&& p.ptype == ptype
    &&& p.data@ == data
    &&& p.psize == data.len()
    &&& p.wf()
}

/// A broker-built admin-text reply.
pub open spec fn is_text_packet(p: Packet, data: Seq<u8>) -> bool {
    &&& p.magic == PacketMagic::TEXT
    &&& p.data@ == data
    &&& p.psize == data.len()
    &&& p.wf()
}

/// The whole broker: queue set, worker registry, waiter index, and the
/// handle counter.
pub struct Broker {
    pub queues: QueueHolder,
    pub workers: WorkerRegistry,
    pub waiters: Vec<WaitEntry>,
    pub next_handle: u64,
}

/// The queue pools of `a` and `b` agree.
pub open spec fn queues_eq(a: QueueHolder, b: QueueHolder) -> bool {
    a.funcs@ == b.funcs@ && a.running@ == b.running@ && a.scheduled@ == b.scheduled@
}

/// The enqueue of a fresh submitted job, phrased over the fields the
/// packet carried.
pub open spec fn enqueued_fresh(
    pre: QueueHolder,
    post: QueueHolder,
    f: Seq<u8>,
    u: Seq<u8>,
    pl: Seq<u8>,
    prio: Priority,
    bg: bool,
    rd: Option<Seq<u8>>,
    h: Seq<u8>,
) -> bool {
    exists|j: Job|
        {
            &&& #[trigger] job_fields(j, f, u, pl, prio, bg, rd, h)
            &&& enqueued_job(pre, post, j)
        }
}

/// The submitted job's fields, as the packet and the broker set them.
pub open spec fn job_fields(
    j: Job,
    f: Seq<u8>,
    u: Seq<u8>,
    pl: Seq<u8>,
    prio: Priority,
    bg: bool,
    rd: Option<Seq<u8>>,
    h: Seq<u8>,
) -> bool {
    &&& j.handle@ == h
    &&& j.fname@ == f
    &&& j.unique@ == u
    &&& j.payload@ == pl
    &&& j.priority == prio
    &&& j.background == bg
    &&& (rd is Some <==> j.reducer is Some)
    &&& (rd is Some ==> j.reducer->0@ == rd->0)
    &&& j.when_to_run is None
    &&& j.numerator == 0
    &&& j.denominator == 0
    &&& j.assigned is None
}

/// `post` is `pre` with `j` at the tail of its priority queue.
pub open spec fn enqueued_job(pre: QueueHolder, post: QueueHolder, j: Job) -> bool {
    let fi = fname_scan(pre.funcs@, 0, j.fname@);
    let fl = pre.funcs@.len() as int;
    &&& post.running@ == pre.running@
    &&& post.scheduled@ == pre.scheduled@
    &&& if fi < fl {
        &&& post.funcs@.len() == fl
        &&& (forall|k: int| 0 <= k < fl && k != fi ==> post.funcs@[k] == #[trigger] pre.funcs@[k])
        &&& post.funcs@[fi].fname@ == pre.funcs@[fi].fname@
        &&& post.funcs@[fi].high@ == (if j.priority == Priority::High {
            pre.funcs@[fi].high@.push(j)
        } else {
            pre.funcs@[fi].high@
        })
        &&& post.funcs@[fi].normal@ == (if j.priority == Priority::Normal {
            pre.funcs@[fi].normal@.push(j)
        } else {
            pre.funcs@[fi].normal@
        })
        &&& post.funcs@[fi].low@ == (if j.priority == Priority::Low {
            pre.funcs@[fi].low@.push(j)
        } else {
            pre.funcs@[fi].low@
        })
    } else {
        &&& post.funcs@.len() == fl + 1
        &&& (forall|k: int| 0 <= k < fl ==> post.funcs@[k] == #[trigger] pre.funcs@[k])
        &&& post.funcs@[fl].fname@ == j.fname@
        &&& fq_sel(post.funcs@[fl], j.priority) == seq![j]
        &&& (forall|p: Priority|
            p != j.priority ==> fq_sel(#[trigger] post.funcs@[fl], p) == Seq::<Job>::empty())
    }
}

/// The NOOP fan-out to the woken workers, after `base` leading frames.
pub open spec fn noop_fanout(out: Seq<Delivery>, base: int, ids: Seq<u64>) -> bool {
    &&& out.len() == base + ids.len()
    &&& forall|i: int|
        0 <= i < ids.len() ==> (#[trigger] out[base + i]).target == ids[i] && is_res_packet(
            out[base + i].packet,
            NOOP,
            Seq::<u8>::empty(),
        )
}

/// The registry after a wake for `f`.
pub open spec fn workers_woken(pre: WorkerRegistry, post: WorkerRegistry, f: Seq<u8>) -> bool {
    &&& post.workers@.len() == pre.workers@.len()
    &&& forall|i: int|
        0 <= i < pre.workers@.len() ==> #[trigger] post.workers@[i] == (if should_wake(
            pre.workers@[i],
            f,
        ) {
            woken(pre.workers@[i])
        } else {
            pre.workers@[i]
        })
}

/// Everything one submission does: the coalesce case against a live
/// key, and the fresh case with its enqueue, wake fan-out and waiter
/// bookkeeping.
pub open spec fn submit_post(
    pre: Broker,
    post: Broker,
    conn: u64,
    f: Seq<u8>,
    u: Seq<u8>,
    pl: Seq<u8>,
    prio: Priority,
    bg: bool,
    rd: Option<Seq<u8>>,
    r: Result<Vec<Delivery>, ParseError>,
) -> bool {
                if key_present(pre.queues, f, u) {
                    &&& queues_eq(post.queues, pre.queues)
                    &&& post.workers == pre.workers
                    &&& post.next_handle == pre.next_handle
                    &&& r matches Ok(out) ==> {
                        &&& out@.len() == 1
                        &&& out@[0].target == conn
                        &&& exists|h: Seq<u8>|
                            {
                                &&& #[trigger] key_has_handle(pre.queues, f, u, h)
                                &&& is_res_packet(out@[0].packet, JOB_CREATED, h)
                                &&& (bg ==> post.waiters@ == pre.waiters@)
                                &&& (!bg ==> waiters_added(
                                    pre.waiters@,
                                    post.waiters@,
                                    h,
                                    conn,
                                ))
                            }
                    }
                    &&& (r is Err ==> post.waiters@ == pre.waiters@)
                } else {
                    let h = handle_of(pre.next_handle);
                    let ids = woken_ids(pre.workers.workers@, f);
                    &&& (r is Err <==> h.len() > u32::MAX)
                    &&& r matches Ok(out) ==> {
                        &&& enqueued_fresh(
                            pre.queues,
                            post.queues,
                            f,
                            u,
                            pl,
                            prio,
                            bg,
                            rd,
                            h,
                        )
                        &&& post.next_handle == pre.next_handle + 1
                        &&& workers_woken(pre.workers, post.workers, f)
                        &&& out@[0].target == conn && is_res_packet(out@[0].packet, JOB_CREATED, h)
                        &&& noop_fanout(out@, 1, ids)
                        &&& (bg ==> post.waiters@ == pre.waiters@)
                        &&& (!bg ==> waiters_added(
                            pre.waiters@,
                            post.waiters@,
                            h,
                            conn,
                        ))
                    }
                }
            
}

impl Broker {
    pub open spec fn wf(&self) -> bool {
        self.workers.wf()
    }

    pub fn new() -> (r: Broker)
        ensures
            r.wf(),
            r.queues.funcs@.len() == 0,
            r.queues.running@.len() == 0,
            r.queues.scheduled@.len() == 0,
            r.waiters@.len() == 0,
            r.next_handle == 0,
    {
        Broker {
            queues: QueueHolder::new(),
            workers: WorkerRegistry::new(),
            waiters: Vec::new(),
            next_handle: 0,
        }
    }

    /// Joins `conn` to the waiters on `h` (once).
    fn add_waiter(&mut self, h: &Vec<u8>, conn: u64)
        ensures
            final(self).queues == old(self).queues,
            final(self).workers == old(self).workers,
            final(self).next_handle == old(self).next_handle,
            waiters_added(old(self).waiters@, final(self).waiters@, h@, conn),
    {
        let len = self.waiters.len();
        let mut i: usize = 0;
        while i < len
            invariant
                0 <= i <= len,
                len == self.waiters@.len(),
                *self == *old(self),
                wh_scan(self.waiters@, 0, h@) == wh_scan(self.waiters@, i as int, h@),
            decreases len - i,
        {
            if crate::codec::vec_eq(&self.waiters[i].handle, h) {
                let mut e = self.waiters.remove(i);
                let mut found = false;
                let clen = e.conns.len();
                let mut k: usize = 0;
                while k < clen
                    invariant
                        0 <= k <= clen,
                        clen == e.conns@.len(),
                        found == exists|t: int| 0 <= t < k && e.conns@[t] == conn,
                    decreases clen - k,
                {
                    if e.conns[k] == conn {
                        found = true;
                    }
                    k = k + 1;
                }
                proof {
                    if found {
                        assert(e.conns@.contains(conn));
                    } else {
                        assert(!e.conns@.contains(conn)) by {
                            if e.conns@.contains(conn) {
                                let t = choose|t: int|
                                    0 <= t < e.conns@.len() && e.conns@[t] == conn;
                                assert(0 <= t < clen && e.conns@[t] == conn);
                            }
                        }
                    }
                }
                if !found {
                    e.conns.push(conn);
                }
                self.waiters.insert(i, e);
                proof {
                    assert(final(self).waiters@ =~= old(self).waiters@.update(i as int, final(self).waiters@[i as int]));
                }
                return ;
            }
            i = i + 1;
        }
        let handle = clone_bytes(h);
        let mut conns: Vec<u64> = Vec::new();
        conns.push(conn);
        self.waiters.push(WaitEntry { handle, conns });
    }

    /// Takes the wait entry for `h` out, if any.
    fn take_waiters(&mut self, h: &Vec<u8>) -> (r: Option<WaitEntry>)
        ensures
            final(self).queues == old(self).queues,
            final(self).workers == old(self).workers,
            final(self).next_handle == old(self).next_handle,
            ({
                let i = wh_scan(old(self).waiters@, 0, h@);
                if i < old(self).waiters@.len() {
                    r == Some(old(self).waiters@[i]) && final(self).waiters@ == old(self).waiters@.remove(i)
                } else {
                    r is None && final(self).waiters@ == old(self).waiters@
                }
            }),
    {
        let len = self.waiters.len();
        let mut i: usize = 0;
        while i < len
            invariant
                0 <= i <= len,
                len == self.waiters@.len(),
                *self == *old(self),
                wh_scan(self.waiters@, 0, h@) == wh_scan(self.waiters@, i as int, h@),
            decreases len - i,
        {
            if crate::codec::vec_eq(&self.waiters[i].handle, h) {
                let e = self.waiters.remove(i);
                return Some(e);
            }
            i = i + 1;
        }
        None
    }

    /// One job submission: coalesce on a live `(fname, unique)` key, or
    /// mint a handle, enqueue, wake sleeping workers, and remember the
    /// submitter when it waits. The one reply to the submitter is
    /// JOB_CREATED with the handle; each woken worker gets one NOOP.
    pub fn submit(
        &mut self,
        conn: u64,
        fname: Vec<u8>,
        unique: Vec<u8>,
        payload: Vec<u8>,
        prio: Priority,
        background: bool,
        reducer: Option<Vec<u8>>,
    ) -> (r: Result<Vec<Delivery>, ParseError>)
        requires
            old(self).wf(),
            old(self).next_handle < u64::MAX,
        ensures
            final(self).wf(),
            submit_post(
                *old(self),
                *final(self),
                conn,
                fname@,
                unique@,
                payload@,
                prio,
                background,
                if reducer is Some {
                    Some(reducer->0@)
                } else {
                    None
                },
                r,
            ),
    {
        let existing = self.queues.find_key(&fname, &unique);
        match existing {
            Some(h) => {
                if h.len() > (u32::MAX as usize) {
                    return Err(ParseError {});
                }
                if !background {
                    self.add_waiter(&h, conn);
                }
                let p = Packet::new_res(JOB_CREATED, Box::new(h));
                let mut out: Vec<Delivery> = Vec::new();
                out.push(Delivery { target: conn, packet: p });
                Ok(out)
            },
            None => {
                let h = make_handle(self.next_handle);
                if h.len() > (u32::MAX as usize) {
                    return Err(ParseError {});
                }
                self.next_handle = self.next_handle + 1;
                let job = Job {
                    handle: clone_bytes(&h),
                    fname: clone_bytes(&fname),
                    unique,
                    payload,
                    priority: prio,
                    background,
                    when_to_run: None,
                    reducer,
                    numerator: 0,
                    denominator: 0,
                    assigned: None,
                };
                let ghost jg = job;
                self.queues.enqueue(job);
                proof {
                    assert(job_fields(
                        jg,
                        fname@,
                        unique@,
                        payload@,
                        prio,
                        background,
                        if reducer is Some {
                            Some(reducer->0@)
                        } else {
                            None
                        },
                        handle_of(old(self).next_handle),
                    ));
                }
                if !background {
                    self.add_waiter(&h, conn);
                }
                let ids = self.workers.wake(&fname);
                let mut out: Vec<Delivery> = Vec::new();
                let ghost hg = h@;
                let p = Packet::new_res(JOB_CREATED, Box::new(h));
                out.push(Delivery { target: conn, packet: p });
                let nids = ids.len();
                let mut k: usize = 0;
                while k < nids
                    invariant
                        0 <= k <= nids,
                        nids == ids@.len(),
                        out@.len() == 1 + k,
                        out@[0].target == conn,
                        is_res_packet(out@[0].packet, JOB_CREATED, hg),
                        forall|t: int|
                            0 <= t < k ==> (#[trigger] out@[1 + t]).target == ids@[t]
                                && is_res_packet(out@[1 + t].packet, NOOP, Seq::<u8>::empty()),
                    decreases nids - k,
                {
                    let noop = Packet::new_res(NOOP, Box::new(Vec::new()));
                    out.push(Delivery { target: ids[k], packet: noop });
                    k = k + 1;
                }
                Ok(out)
            },
        }
    }
}


/// The assignment packet type a grab variant earns.
pub open spec fn assign_ptype(variant: u32) -> u32 {
    if variant == GRAB_JOB {
        JOB_ASSIGN
    } else if variant == GRAB_JOB_UNIQ {
        JOB_ASSIGN_UNIQ
    } else {
        JOB_ASSIGN_ALL
    }
}

/// The payload of an assignment packet: handle, function, then per
/// variant the unique key and the reducer, then the job payload.
pub open spec fn assign_data(variant: u32, j: Job) -> Seq<u8> {
    let rd = if j.reducer is Some {
        j.reducer->0@
    } else {
        Seq::<u8>::empty()
    };
    if variant == GRAB_JOB {
        j.handle@ + seq![0u8] + j.fname@ + seq![0u8] + j.payload@
    } else if variant == GRAB_JOB_UNIQ {
        j.handle@ + seq![0u8] + j.fname@ + seq![0u8] + j.unique@ + seq![0u8] + j.payload@
    } else {
        j.handle@ + seq![0u8] + j.fname@ + seq![0u8] + j.unique@ + seq![0u8] + rd + seq![0u8]
            + j.payload@
    }
}

/// The function names the worker on `conn` declared, in order.
pub open spec fn worker_fns(b: Broker, conn: u64) -> Seq<Seq<u8>> {
    let i = wconn_scan(b.workers.workers@, 0, conn);
    if i < b.workers.workers@.len() {
        views_of(b.workers.workers@[i].functions@)
    } else {
        Seq::<Seq<u8>>::empty()
    }
}

/// The queue pools after a grab drained position `(fi, p)`.
pub open spec fn grabbed_queues(
    pre: QueueHolder,
    post: QueueHolder,
    fi: int,
    p: Priority,
    conn: u64,
) -> bool {
    let j = fq_sel(pre.funcs@[fi], p)[0];
    let fl = pre.funcs@.len() as int;
    &&& post.funcs@.len() == fl
    &&& (forall|k: int| 0 <= k < fl && k != fi ==> post.funcs@[k] == #[trigger] pre.funcs@[k])
    &&& post.funcs@[fi].fname@ == pre.funcs@[fi].fname@
    &&& post.funcs@[fi].high@ == (if p == Priority::High {
        pre.funcs@[fi].high@.drop_first()
    } else {
        pre.funcs@[fi].high@
    })
    &&& post.funcs@[fi].normal@ == (if p == Priority::Normal {
        pre.funcs@[fi].normal@.drop_first()
    } else {
        pre.funcs@[fi].normal@
    })
    &&& post.funcs@[fi].low@ == (if p == Priority::Low {
        pre.funcs@[fi].low@.drop_first()
    } else {
        pre.funcs@[fi].low@
    })
    &&& post.running@ == pre.running@.push(with_assigned(j, Some(conn)))
    &&& post.scheduled@ == pre.scheduled@
}

/// Everything one grab does: NO_JOB on empty queues, else the first
/// eligible job moves to running and its assignment packet goes back.
pub open spec fn grab_post(
    pre: Broker,
    post: Broker,
    conn: u64,
    variant: u32,
    r: Result<Vec<Delivery>, ParseError>,
) -> bool {
    &&& post.workers == pre.workers
    &&& post.waiters@ == pre.waiters@
    &&& post.next_handle == pre.next_handle
    &&& match pick_scan(pre.queues.funcs@, worker_fns(pre, conn), 0) {
        None => {
            &&& queues_eq(post.queues, pre.queues)
            &&& r matches Ok(out) && out@.len() == 1 && out@[0].target == conn && is_res_packet(
                out@[0].packet,
                NO_JOB,
                Seq::<u8>::empty(),
            )
        },
        Some((fi, p)) => {
            let j = fq_sel(pre.queues.funcs@[fi], p)[0];
            &&& grabbed_queues(pre.queues, post.queues, fi, p, conn)
            &&& if assign_data(variant, j).len() <= u32::MAX {
                r matches Ok(out) && out@.len() == 1 && out@[0].target == conn && is_res_packet(
                    out@[0].packet,
                    assign_ptype(variant),
                    assign_data(variant, j),
                )
            } else {
                r is Err
            }
        },
    }
}

/// Frames `data` as `ptype` to every connection in `conns`, in order.
pub open spec fn fanout_to(out: Seq<Delivery>, conns: Seq<u64>, ptype: u32, data: Seq<u8>) -> bool {
    &&& out.len() == conns.len()
    &&& forall|k: int|
        0 <= k < conns.len() ==> (#[trigger] out[k]).target == conns[k] && is_res_packet(
            out[k].packet,
            ptype,
            data,
        )
}

/// Everything a terminal worker report does: the job leaves the running
/// set, its waiters each get the report once, and the wait entry goes.
/// An unknown handle is dropped silently.
pub open spec fn work_terminal_post(
    pre: Broker,
    post: Broker,
    ptype: u32,
    h: Seq<u8>,
    data: Seq<u8>,
    out: Seq<Delivery>,
) -> bool {
    &&& post.workers == pre.workers
    &&& post.next_handle == pre.next_handle
    &&& post.queues.funcs@ == pre.queues.funcs@
    &&& post.queues.scheduled@ == pre.queues.scheduled@
    &&& ({
        let i = handle_scan(pre.queues.running@, 0, h);
        if i < pre.queues.running@.len() {
            &&& post.queues.running@ == pre.queues.running@.remove(i)
            &&& ({
                let wi = wh_scan(pre.waiters@, 0, h);
                if wi < pre.waiters@.len() {
                    post.waiters@ == pre.waiters@.remove(wi) && fanout_to(
                        out,
                        pre.waiters@[wi].conns@,
                        ptype,
                        data,
                    )
                } else {
                    post.waiters@ == pre.waiters@ && out.len() == 0
                }
            })
        } else {
            &&& post.queues.running@ == pre.queues.running@
            &&& post.waiters@ == pre.waiters@
            &&& out.len() == 0
        }
    })
}

/// The reply bytes of GET_STATUS: handle, known, running, numerator,
/// denominator, NUL-separated, flags and numbers in ascii.
pub open spec fn status_data(q: QueueHolder, h: Seq<u8>) -> Seq<u8> {
    let i = handle_scan(q.running@, 0, h);
    if i < q.running@.len() {
        h + seq![0u8, 49u8, 0u8, 49u8, 0u8] + crate::wire::dec_digits(q.running@[i].numerator)
            + seq![0u8] + crate::wire::dec_digits(q.running@[i].denominator)
    } else if crate::queues::queued_handle_present(q.funcs@, h) {
        h + seq![0u8, 49u8, 0u8, 48u8, 0u8, 48u8, 0u8, 48u8]
    } else {
        h + seq![0u8, 48u8, 0u8, 48u8, 0u8, 48u8, 0u8, 48u8]
    }
}

/// The reply line of the admin command `version`.
pub open spec fn version_data() -> Seq<u8> {
    seq![48u8, 46u8, 49u8, 46u8, 48u8, 10u8]  // "0.1.0" and a newline
}

/// The reply line to an unrecognised admin command.
pub open spec fn err_unknown_data() -> Seq<u8> {
    // "ERR UNKNOWN_COMMAND Unknown+server+command" and a newline
    seq![
        69u8, 82u8, 82u8, 32u8, 85u8, 78u8, 75u8, 78u8, 79u8, 87u8, 78u8, 95u8, 67u8, 79u8,
        77u8, 77u8, 65u8, 78u8, 68u8, 32u8, 85u8, 110u8, 107u8, 110u8, 111u8, 119u8, 110u8,
        43u8, 115u8, 101u8, 114u8, 118u8, 101u8, 114u8, 43u8, 99u8, 111u8, 109u8, 109u8, 97u8,
        110u8, 100u8, 10u8,
    ]
}

/// The payload of the ERROR packet for a request the broker refuses:
/// a code, a NUL, and a short text.
pub open spec fn err_packet_data() -> Seq<u8> {
    // "unknown" NUL "unsupported request"
    seq![
        117u8, 110u8, 107u8, 110u8, 111u8, 119u8, 110u8, 0u8, 117u8, 110u8, 115u8, 117u8,
        112u8, 112u8, 111u8, 114u8, 116u8, 101u8, 100u8, 32u8, 114u8, 101u8, 113u8, 117u8,
        101u8, 115u8, 116u8,
    ]
}

/// The option name OPTION_REQ recognises.
pub open spec fn exceptions_lit() -> Seq<u8> {
    seq![101u8, 120u8, 99u8, 101u8, 112u8, 116u8, 105u8, 111u8, 110u8, 115u8]
}

/// One admin `status` line: function, queued plus running, running, and
/// able workers, tab-separated.
pub open spec fn status_line(b: Broker, fi: int) -> Seq<u8> {
    let fq = b.queues.funcs@[fi];
    let rc = crate::queues::running_count(b.queues.running@, fq.fname@);
    let total = fq.high@.len() + fq.normal@.len() + fq.low@.len() + rc;
    let wc = crate::worker::worker_count(b.workers.workers@, fq.fname@);
    fq.fname@ + seq![9u8] + crate::wire::dec_digits(crate::wire::cap_u64(total as int)) + seq![
        9u8,
    ] + crate::wire::dec_digits(crate::wire::cap_u64(rc)) + seq![9u8] + crate::wire::dec_digits(
        crate::wire::cap_u64(wc),
    ) + seq![10u8]
}

/// The admin `status` lines for the first `i` functions.
pub open spec fn status_body(b: Broker, i: int) -> Seq<u8>
    decreases i,
{
    if i <= 0 {
        Seq::<u8>::empty()
    } else {
        status_body(b, i - 1) + status_line(b, i - 1)
    }
}

/// Builds one RES frame per waiting connection.
fn fanout(conns: &Vec<u64>, ptype: u32, data: &Vec<u8>) -> (out: Vec<Delivery>)
    requires
        data@.len() <= u32::MAX,
    ensures
        fanout_to(out@, conns@, ptype, data@),
{
    let len = conns.len();
    let mut out: Vec<Delivery> = Vec::new();
    let mut k: usize = 0;
    while k < len
        invariant
            0 <= k <= len,
            len == conns@.len(),
            data@.len() <= u32::MAX,
            out@.len() == k,
            forall|t: int|
                0 <= t < k ==> (#[trigger] out@[t]).target == conns@[t] && is_res_packet(
                    out@[t].packet,
                    ptype,
                    data@,
                ),
        decreases len - k,
    {
        let p = Packet::new_res(ptype, Box::new(clone_bytes(data)));
        out.push(Delivery { target: conns[k], packet: p });
        k = k + 1;
    }
    out
}

/// Builds a TEXT frame carrying `data`.
fn text_packet(data: Vec<u8>) -> (p: Packet)
    requires
        data@.len() <= u32::MAX,
    ensures
        is_text_packet(p, data@),
{
    let psize = data.len() as u32;
    Packet {
        magic: PacketMagic::TEXT,
        ptype: 0,
        psize,
        data: Box::new(data),
        _field_byte_count: 0,
        _field_count: 0,
    }
}

impl Broker {
    /// One GRAB_JOB step, for any of the three grab variants.
    pub fn grab(&mut self, conn: u64, variant: u32) -> (r: Result<Vec<Delivery>, ParseError>)
        requires
            old(self).wf(),
            variant == GRAB_JOB || variant == GRAB_JOB_UNIQ || variant == GRAB_JOB_ALL,
        ensures
            final(self).wf(),
            grab_post(*old(self), *final(self), conn, variant, r),
    {
        let fns = self.workers.fns_of(conn);
        proof {
            crate::worker::lemma_wconn_scan_bounds(self.workers.workers@, 0, conn);
            if wconn_scan(self.workers.workers@, 0, conn) >= self.workers.workers@.len() {
                assert(views_of(fns@) =~= Seq::<Seq<u8>>::empty());
            }
            assert(views_of(fns@) == worker_fns(*self, conn));
        }
        match self.queues.get_job(&fns, conn) {
            None => {
                let p = Packet::new_res(NO_JOB, Box::new(Vec::new()));
                let mut out: Vec<Delivery> = Vec::new();
                out.push(Delivery { target: conn, packet: p });
                Ok(out)
            },
            Some(a) => {
                let mut data = clone_bytes(&a.handle);
                data.push(0u8);
                crate::wire::append_bytes(&mut data, &a.fname);
                data.push(0u8);
                if variant == GRAB_JOB_UNIQ || variant == GRAB_JOB_ALL {
                    crate::wire::append_bytes(&mut data, &a.unique);
                    data.push(0u8);
                }
                if variant == GRAB_JOB_ALL {
                    crate::wire::append_bytes(&mut data, &a.reducer);
                    data.push(0u8);
                }
                crate::wire::append_bytes(&mut data, &a.payload);
                proof {
                    let fseq = worker_fns(*old(self), conn);
                    let pk = pick_scan(old(self).queues.funcs@, fseq, 0);
                    let (fi, p) = pk->0;
                    let j = fq_sel(old(self).queues.funcs@[fi], p)[0];
                    assert(data@ =~= assign_data(variant, j));
                }
                if data.len() > (u32::MAX as usize) {
                    return Err(ParseError {});
                }
                let ptype = if variant == GRAB_JOB {
                    JOB_ASSIGN
                } else if variant == GRAB_JOB_UNIQ {
                    JOB_ASSIGN_UNIQ
                } else {
                    JOB_ASSIGN_ALL
                };
                let p = Packet::new_res(ptype, Box::new(data));
                let mut out: Vec<Delivery> = Vec::new();
                out.push(Delivery { target: conn, packet: p });
                Ok(out)
            },
        }
    }

    /// One terminal worker report: WORK_COMPLETE, WORK_FAIL or
    /// WORK_EXCEPTION, forwarded once to every waiter.
    pub fn work_terminal(&mut self, ptype: u32, handle: &Vec<u8>, data: &Vec<u8>) -> (out: Vec<
        Delivery,
    >)
        requires
            old(self).wf(),
            data@.len() <= u32::MAX,
        ensures
            final(self).wf(),
            work_terminal_post(*old(self), *final(self), ptype, handle@, data@, out@),
    {
        match self.queues.remove_running(handle) {
            None => Vec::new(),
            Some(_j) => {
                match self.take_waiters(handle) {
                    None => Vec::new(),
                    Some(e) => fanout(&e.conns, ptype, data),
                }
            },
        }
    }

    /// A copy of the connections waiting on `h`, if any wait.
    fn waiter_conns(&self, h: &Vec<u8>) -> (r: Option<Vec<u64>>)
        ensures
            ({
                let i = wh_scan(self.waiters@, 0, h@);
                if i < self.waiters@.len() {
                    r matches Some(v) && v@ == self.waiters@[i].conns@
                } else {
                    r is None
                }
            }),
    {
        let len = self.waiters.len();
        let mut i: usize = 0;
        while i < len
            invariant
                0 <= i <= len,
                len == self.waiters@.len(),
                wh_scan(self.waiters@, 0, h@) == wh_scan(self.waiters@, i as int, h@),
            decreases len - i,
        {
            if crate::codec::vec_eq(&self.waiters[i].handle, h) {
                let e = &self.waiters[i];
                let clen = e.conns.len();
                let mut v: Vec<u64> = Vec::new();
                let mut k: usize = 0;
                while k < clen
                    invariant
                        0 <= k <= clen,
                        clen == e.conns@.len(),
                        v@ == e.conns@.subrange(0, k as int),
                    decreases clen - k,
                {
                    v.push(e.conns[k]);
                    k = k + 1;
                    proof {
                        assert(v@ =~= e.conns@.subrange(0, k as int));
                    }
                }
                proof {
                    assert(v@ =~= e.conns@);
                }
                return Some(v);
            }
            i = i + 1;
        }
        None
    }

    /// A WORK_STATUS report: records the progress pair on the running
    /// job and forwards the report to the waiters, which keep waiting.
    pub fn work_status(&mut self, handle: &Vec<u8>, num: u64, den: u64, data: &Vec<u8>) -> (out:
        Vec<Delivery>)
        requires
            old(self).wf(),
            data@.len() <= u32::MAX,
        ensures
            final(self).wf(),
            final(self).workers == old(self).workers,
            final(self).next_handle == old(self).next_handle,
            final(self).waiters@ == old(self).waiters@,
            final(self).queues.funcs@ == old(self).queues.funcs@,
            final(self).queues.scheduled@ == old(self).queues.scheduled@,
            ({
                let i = handle_scan(old(self).queues.running@, 0, handle@);
                if i < old(self).queues.running@.len() {
                    &&& final(self).queues.running@ == old(self).queues.running@.update(
                        i,
                        crate::job::with_status(old(self).queues.running@[i], num, den),
                    )
                    &&& ({
                        let wi = wh_scan(old(self).waiters@, 0, handle@);
                        if wi < old(self).waiters@.len() {
                            fanout_to(out@, old(self).waiters@[wi].conns@, WORK_STATUS, data@)
                        } else {
                            out@.len() == 0
                        }
                    })
                } else {
                    final(self).queues.running@ == old(self).queues.running@ && out@.len() == 0
                }
            }),
    {
        let found = self.queues.update_status(handle, num, den);
        if !found {
            return Vec::new();
        }
        match self.waiter_conns(handle) {
            None => Vec::new(),
            Some(conns) => fanout(&conns, WORK_STATUS, data),
        }
    }

    /// A WORK_DATA or WORK_WARNING report: forwarded to the waiters of
    /// a running handle, dropped silently otherwise.
    pub fn work_progress(&mut self, ptype: u32, handle: &Vec<u8>, data: &Vec<u8>) -> (out: Vec<
        Delivery,
    >)
        requires
            old(self).wf(),
            data@.len() <= u32::MAX,
        ensures
            final(self).wf(),
            *final(self) == *old(self),
            ({
                let i = handle_scan(old(self).queues.running@, 0, handle@);
                if i < old(self).queues.running@.len() {
                    let wi = wh_scan(old(self).waiters@, 0, handle@);
                    if wi < old(self).waiters@.len() {
                        fanout_to(out@, old(self).waiters@[wi].conns@, ptype, data@)
                    } else {
                        out@.len() == 0
                    }
                } else {
                    out@.len() == 0
                }
            }),
    {
        let i = crate::queues::seq_handle_idx(&self.queues.running, handle);
        if i >= self.queues.running.len() {
            return Vec::new();
        }
        match self.waiter_conns(handle) {
            None => Vec::new(),
            Some(conns) => fanout(&conns, ptype, data),
        }
    }

    /// Answers GET_STATUS from the queue and running state.
    pub fn get_status(&self, conn: u64, handle: &Vec<u8>) -> (out: Vec<Delivery>)
        requires
            handle@.len() + 64 <= u32::MAX,
        ensures
            out@.len() == 1,
            out@[0].target == conn,
            is_res_packet(out@[0].packet, STATUS_RES, status_data(self.queues, handle@)),
    {
        let mut data = clone_bytes(handle);
        data.push(0u8);
        let i = crate::queues::seq_handle_idx(&self.queues.running, handle);
        if i < self.queues.running.len() {
            data.push(49u8);
            data.push(0u8);
            data.push(49u8);
            data.push(0u8);
            crate::wire::push_dec(self.queues.running[i].numerator, &mut data);
            data.push(0u8);
            crate::wire::push_dec(self.queues.running[i].denominator, &mut data);
        } else if self.queues.has_queued_handle(handle) {
            data.push(49u8);
            data.push(0u8);
            data.push(48u8);
            data.push(0u8);
            data.push(48u8);
            data.push(0u8);
            data.push(48u8);
        } else {
            data.push(48u8);
            data.push(0u8);
            data.push(48u8);
            data.push(0u8);
            data.push(48u8);
            data.push(0u8);
            data.push(48u8);
        }
        proof {
            assert(data@ =~= status_data(self.queues, handle@));
            crate::wire::lemma_dec_digits_len(0);
            if handle_scan(self.queues.running@, 0, handle@) < self.queues.running@.len() {
                crate::wire::lemma_dec_digits_len(
                    self.queues.running@[handle_scan(self.queues.running@, 0, handle@)].numerator,
                );
                crate::wire::lemma_dec_digits_len(
                    self.queues.running@[handle_scan(
                        self.queues.running@,
                        0,
                        handle@,
                    )].denominator,
                );
            }
        }
        let p = Packet::new_res(STATUS_RES, Box::new(data));
        let mut out: Vec<Delivery> = Vec::new();
        out.push(Delivery { target: conn, packet: p });
        out
    }

    /// Answers the admin `status` command: one line per known function,
    /// closed by a lone dot.
    #[verifier::rlimit(50)]
    pub fn admin_status(&self, conn: u64) -> (r: Result<Vec<Delivery>, ParseError>)
        ensures
            ({
                let body = status_body(*self, self.queues.funcs@.len() as int) + seq![46u8, 10u8];
                if body.len() <= u32::MAX {
                    r matches Ok(out) && out@.len() == 1 && out@[0].target == conn
                        && is_text_packet(out@[0].packet, body)
                } else {
                    r is Err
                }
            }),
    {
        let nf = self.queues.funcs.len();
        let mut data: Vec<u8> = Vec::new();
        let mut fi: usize = 0;
        while fi < nf
            invariant
                0 <= fi <= nf,
                nf == self.queues.funcs@.len(),
                data@ == status_body(*self, fi as int),
            decreases nf - fi,
        {
            let fq = &self.queues.funcs[fi];
            crate::wire::append_bytes(&mut data, &fq.fname);
            data.push(9u8);
            let rc = crate::queues::count_running(&self.queues.running, &fq.fname);
            let t1 = crate::wire::sat_add_u64(fq.high.len() as u64, fq.normal.len() as u64);
            let t2 = crate::wire::sat_add_u64(t1, fq.low.len() as u64);
            let total = crate::wire::sat_add_u64(t2, rc as u64);
            crate::wire::push_dec(total, &mut data);
            data.push(9u8);
            crate::wire::push_dec(rc as u64, &mut data);
            data.push(9u8);
            let wc = self.workers.count_for(&fq.fname);
            crate::wire::push_dec(wc as u64, &mut data);
            data.push(10u8);
            proof {
                crate::queues::lemma_running_count_bounds(self.queues.running@, fq.fname@);
                assert(data@ =~= status_body(*self, fi as int + 1));
            }
            fi = fi + 1;
        }
        data.push(46u8);
        data.push(10u8);
        proof {
            assert(data@ =~= status_body(*self, nf as int) + seq![46u8, 10u8]);
        }
        if data.len() > (u32::MAX as usize) {
            return Err(ParseError {});
        }
        let p = text_packet(data);
        let mut out: Vec<Delivery> = Vec::new();
        out.push(Delivery { target: conn, packet: p });
        Ok(out)
    }

    /// Puts back every running job of a lost worker connection, each at
    /// the front of its queue; background jobs just end.
    fn requeue_all(&mut self, conn: u64)
        requires
            old(self).wf(),
        ensures
            final(self).wf(),
            final(self).workers == old(self).workers,
            final(self).waiters@ == old(self).waiters@,
            final(self).next_handle == old(self).next_handle,
            final(self).queues.scheduled@ == old(self).queues.scheduled@,
            conn_scan(final(self).queues.running@, 0, conn) == final(self).queues.running@.len() as int,
            conn_scan(old(self).queues.running@, 0, conn) == old(self).queues.running@.len() as int
                ==> queues_eq(final(self).queues, old(self).queues),
            ({
                let i = conn_scan(old(self).queues.running@, 0, conn);
                let rl = old(self).queues.running@.len() as int;
                (i < rl && (forall|k: int|
                    0 <= k < rl && k != i ==> #[trigger] old(self).queues.running@[k].assigned
                        != Some(conn))) ==> {
                    let j = old(self).queues.running@[i];
                    &&& final(self).queues.running@ == old(self).queues.running@.remove(i)
                    &&& (j.background ==> final(self).queues.funcs@ == old(self).queues.funcs@)
                    &&& (!j.background ==> requeued_front(
                        old(self).queues.funcs@,
                        final(self).queues.funcs@,
                        j,
                    ))
                }
            }),
        decreases old(self).queues.running@.len(),
    {
        let ghost rl0 = self.queues.running@.len() as int;
        proof {
            crate::queues::lemma_conn_scan_bounds(self.queues.running@, 0, conn);
        }
        match self.queues.take_running_conn(conn) {
            None => {},
            Some(j) => {
                if !j.background {
                    self.queues.requeue(j);
                }
                proof {
                    crate::queues::lemma_conn_scan_bounds(self.queues.running@, 0, conn);
                }
                self.requeue_all(conn);
            },
        }
    }

    /// A connection is gone: its worker record leaves the registry and
    /// its running jobs retry at the front of their queues, except
    /// background ones, which end here.
    pub fn disconnect(&mut self, conn: u64)
        requires
            old(self).wf(),
        ensures
            final(self).wf(),
            final(self).waiters@ == old(self).waiters@,
            final(self).next_handle == old(self).next_handle,
            final(self).queues.scheduled@ == old(self).queues.scheduled@,
            ({
                let i = wconn_scan(old(self).workers.workers@, 0, conn);
                if i < old(self).workers.workers@.len() {
                    final(self).workers.workers@ == old(self).workers.workers@.remove(i)
                } else {
                    final(self).workers.workers@ == old(self).workers.workers@
                }
            }),
            conn_scan(final(self).queues.running@, 0, conn) == final(self).queues.running@.len() as int,
            conn_scan(old(self).queues.running@, 0, conn) == old(self).queues.running@.len() as int
                ==> queues_eq(final(self).queues, old(self).queues),
            ({
                let i = conn_scan(old(self).queues.running@, 0, conn);
                let rl = old(self).queues.running@.len() as int;
                (i < rl && (forall|k: int|
                    0 <= k < rl && k != i ==> #[trigger] old(self).queues.running@[k].assigned
                        != Some(conn))) ==> {
                    let j = old(self).queues.running@[i];
                    &&& final(self).queues.running@ == old(self).queues.running@.remove(i)
                    &&& (j.background ==> final(self).queues.funcs@ == old(self).queues.funcs@)
                    &&& (!j.background ==> requeued_front(
                        old(self).queues.funcs@,
                        final(self).queues.funcs@,
                        j,
                    ))
                }
            }),
    {
        self.requeue_all(conn);
        self.workers.remove_conn(conn);
    }
}

/// The queues' function pools after `j` went back in at the front.
pub open spec fn requeued_front(
    prefuncs: Seq<crate::queues::FuncQueues>,
    postfuncs: Seq<crate::queues::FuncQueues>,
    job: Job,
) -> bool {
    let j = with_assigned(job, None);
    let fi = fname_scan(prefuncs, 0, job.fname@);
    let fl = prefuncs.len() as int;
    if fi < fl {
        &&& postfuncs.len() == fl
        &&& (forall|k: int| 0 <= k < fl && k != fi ==> postfuncs[k] == #[trigger] prefuncs[k])
        &&& postfuncs[fi].fname@ == prefuncs[fi].fname@
        &&& postfuncs[fi].high@ == (if job.priority == Priority::High {
            seq![j] + prefuncs[fi].high@
        } else {
            prefuncs[fi].high@
        })
        &&& postfuncs[fi].normal@ == (if job.priority == Priority::Normal {
            seq![j] + prefuncs[fi].normal@
        } else {
            prefuncs[fi].normal@
        })
        &&& postfuncs[fi].low@ == (if job.priority == Priority::Low {
            seq![j] + prefuncs[fi].low@
        } else {
            prefuncs[fi].low@
        })
    } else {
        &&& postfuncs.len() == fl + 1
        &&& (forall|k: int| 0 <= k < fl ==> postfuncs[k] == #[trigger] prefuncs[k])
        &&& postfuncs[fl].fname@ == job.fname@
        &&& fq_sel(postfuncs[fl], job.priority) == seq![j]
        &&& (forall|p: Priority|
            p != job.priority ==> fq_sel(#[trigger] postfuncs[fl], p) == Seq::<Job>::empty())
    }
}




pub open spec fn is_submit_ptype(pt: u32) -> bool {
    pt == SUBMIT_JOB || pt == SUBMIT_JOB_BG || pt == SUBMIT_JOB_HIGH || pt == SUBMIT_JOB_HIGH_BG
        || pt == SUBMIT_JOB_LOW || pt == SUBMIT_JOB_LOW_BG
}

pub open spec fn submit_prio(pt: u32) -> Priority {
    if pt == SUBMIT_JOB_HIGH || pt == SUBMIT_JOB_HIGH_BG {
        Priority::High
    } else if pt == SUBMIT_JOB_LOW || pt == SUBMIT_JOB_LOW_BG {
        Priority::Low
    } else {
        Priority::Normal
    }
}

pub open spec fn submit_bg(pt: u32) -> bool {
    pt == SUBMIT_JOB_BG || pt == SUBMIT_JOB_HIGH_BG || pt == SUBMIT_JOB_LOW_BG
        || pt == SUBMIT_REDUCE_JOB_BACKGROUND
}

/// The broker changed in its worker registry alone.
pub open spec fn broker_only_workers(pre: Broker, post: Broker) -> bool {
    queues_eq(post.queues, pre.queues) && post.waiters@ == pre.waiters@ && post.next_handle
        == pre.next_handle
}

/// What one dispatched request does, by packet type: the broker
/// transition and the frames sent back, phrased over the payload's
/// declared fields.
pub open spec fn process_post(
    p: Packet,
    pre: Broker,
    post: Broker,
    conn: u64,
    r: Result<Vec<Delivery>, ParseError>,
) -> bool {
    let d = p.data@;
    let pt = p.ptype;
    if p.magic == PacketMagic::TEXT {
        &&& post == pre
        &&& if pt == ADMIN_VERSION {
            r matches Ok(out) && out@.len() == 1 && out@[0].target == conn && is_text_packet(
                out@[0].packet,
                version_data(),
            )
        } else if pt == ADMIN_STATUS {
            let body = status_body(pre, pre.queues.funcs@.len() as int) + seq![46u8, 10u8];
            if body.len() <= u32::MAX {
                r matches Ok(out) && out@.len() == 1 && out@[0].target == conn && is_text_packet(
                    out@[0].packet,
                    body,
                )
            } else {
                r is Err
            }
        } else {
            r matches Ok(out) && out@.len() == 1 && out@[0].target == conn && is_text_packet(
                out@[0].packet,
                err_unknown_data(),
            )
        }
    } else if p.magic != PacketMagic::REQ {
        post == pre && (r matches Ok(out) && out@.len() == 1 && out@[0].target == conn
            && is_res_packet(out@[0].packet, ERROR, err_packet_data()))
    } else if is_submit_ptype(pt) {
        if crate::packet::fields_ok(d, 2) {
            submit_post(
                pre,
                post,
                conn,
                crate::packet::field_at(d, 2, 0),
                crate::packet::field_at(d, 2, 1),
                crate::packet::field_at(d, 2, 2),
                submit_prio(pt),
                submit_bg(pt),
                None,
                r,
            )
        } else {
            r is Err && post == pre
        }
    } else if pt == SUBMIT_REDUCE_JOB || pt == SUBMIT_REDUCE_JOB_BACKGROUND {
        if crate::packet::fields_ok(d, 3) {
            submit_post(
                pre,
                post,
                conn,
                crate::packet::field_at(d, 3, 0),
                crate::packet::field_at(d, 3, 1),
                crate::packet::field_at(d, 3, 3),
                Priority::Normal,
                submit_bg(pt),
                Some(crate::packet::field_at(d, 3, 2)),
                r,
            )
        } else {
            r is Err && post == pre
        }
    } else if pt == GRAB_JOB || pt == GRAB_JOB_UNIQ || pt == GRAB_JOB_ALL {
        grab_post(pre, post, conn, pt, r)
    } else if pt == PRE_SLEEP {
        &&& broker_only_workers(pre, post)
        &&& r matches Ok(out) && out@.len() == 0
        &&& ({
            let i = wconn_scan(post.workers.workers@, 0, conn);
            i < post.workers.workers@.len() && post.workers.workers@[i].sleeping == true
                && post.workers.workers@[i].conn_id == conn
        })
    } else if pt == CAN_DO || pt == CAN_DO_TIMEOUT {
        let f = if pt == CAN_DO {
            d
        } else {
            crate::packet::field_at(d, 1, 0)
        };
        if pt == CAN_DO_TIMEOUT && !crate::packet::fields_ok(d, 1) {
            r is Err && post == pre
        } else {
            &&& broker_only_workers(pre, post)
            &&& r matches Ok(out) && out@.len() == 0
            &&& ({
                let i = wconn_scan(post.workers.workers@, 0, conn);
                i < post.workers.workers@.len() && crate::worker::w_has_fn(
                    post.workers.workers@[i],
                    f,
                )
            })
        }
    } else if pt == CANT_DO {
        &&& broker_only_workers(pre, post)
        &&& r matches Ok(out) && out@.len() == 0
        &&& ({
            let i = wconn_scan(pre.workers.workers@, 0, conn);
            if i < pre.workers.workers@.len() {
                let w = pre.workers.workers@[i];
                let fi = crate::worker::fn_scan(w.functions@, 0, d);
                post.workers.workers@[i].functions@ == (if fi < w.functions@.len() {
                    w.functions@.remove(fi)
                } else {
                    w.functions@
                })
            } else {
                post.workers.workers@ == pre.workers.workers@
            }
        })
    } else if pt == RESET_ABILITIES {
        &&& broker_only_workers(pre, post)
        &&& r matches Ok(out) && out@.len() == 0
        &&& ({
            let i = wconn_scan(pre.workers.workers@, 0, conn);
            if i < pre.workers.workers@.len() {
                post.workers.workers@[i].functions@.len() == 0
            } else {
                post.workers.workers@ == pre.workers.workers@
            }
        })
    } else if pt == SET_CLIENT_ID {
        &&& broker_only_workers(pre, post)
        &&& r matches Ok(out) && out@.len() == 0
        &&& ({
            let i = wconn_scan(post.workers.workers@, 0, conn);
            i < post.workers.workers@.len() && post.workers.workers@[i].client_id@ == d
                && post.workers.workers@[i].conn_id == conn
        })
    } else if pt == ECHO_REQ {
        post == pre && (r matches Ok(out) && out@.len() == 1 && out@[0].target == conn
            && is_res_packet(out@[0].packet, ECHO_RES, d))
    } else if pt == OPTION_REQ {
        &&& post == pre
        &&& r matches Ok(out) && out@.len() == 1 && out@[0].target == conn
        &&& if d == exceptions_lit() {
            r matches Ok(out) && is_res_packet(out@[0].packet, OPTION_RES, d)
        } else {
            r matches Ok(out) && is_res_packet(out@[0].packet, ERROR, err_packet_data())
        }
    } else if pt == GET_STATUS {
        post == pre && (r matches Ok(out) && out@.len() == 1 && out@[0].target == conn
            && is_res_packet(out@[0].packet, STATUS_RES, status_data(pre.queues, d)))
    } else if pt == WORK_COMPLETE || pt == WORK_EXCEPTION {
        if crate::packet::fields_ok(d, 1) {
            r matches Ok(out) && work_terminal_post(
                pre,
                post,
                pt,
                crate::packet::field_at(d, 1, 0),
                d,
                out@,
            )
        } else {
            r is Err && post == pre
        }
    } else if pt == WORK_FAIL {
        r matches Ok(out) && work_terminal_post(pre, post, pt, d, d, out@)
    } else if pt == WORK_DATA || pt == WORK_WARNING {
        if crate::packet::fields_ok(d, 1) {
            let h = crate::packet::field_at(d, 1, 0);
            &&& post == pre
            &&& r matches Ok(out) && ({
                let i = handle_scan(pre.queues.running@, 0, h);
                if i < pre.queues.running@.len() {
                    let wi = wh_scan(pre.waiters@, 0, h);
                    if wi < pre.waiters@.len() {
                        fanout_to(out@, pre.waiters@[wi].conns@, pt, d)
                    } else {
                        out@.len() == 0
                    }
                } else {
                    out@.len() == 0
                }
            })
        } else {
            r is Err && post == pre
        }
    } else if pt == WORK_STATUS {
        if crate::packet::fields_ok(d, 2) {
            let h = crate::packet::field_at(d, 2, 0);
            let pn = crate::wire::dec_parse(crate::packet::field_at(d, 2, 1), 0);
            let pd = crate::wire::dec_parse(crate::packet::field_at(d, 2, 2), 0);
            if pn is Some && pd is Some {
                &&& post.workers == pre.workers
                &&& post.next_handle == pre.next_handle
                &&& post.waiters@ == pre.waiters@
                &&& post.queues.funcs@ == pre.queues.funcs@
                &&& post.queues.scheduled@ == pre.queues.scheduled@
                &&& r matches Ok(out) && ({
                    let i = handle_scan(pre.queues.running@, 0, h);
                    if i < pre.queues.running@.len() {
                        &&& post.queues.running@ == pre.queues.running@.update(
                            i,
                            crate::job::with_status(pre.queues.running@[i], pn->0, pd->0),
                        )
                        &&& ({
                            let wi = wh_scan(pre.waiters@, 0, h);
                            if wi < pre.waiters@.len() {
                                fanout_to(out@, pre.waiters@[wi].conns@, WORK_STATUS, d)
                            } else {
                                out@.len() == 0
                            }
                        })
                    } else {
                        post.queues.running@ == pre.queues.running@ && out@.len() == 0
                    }
                })
            } else {
                r matches Ok(out) && out@.len() == 0 && post == pre
            }
        } else {
            r is Err && post == pre
        }
    } else if pt == SUBMIT_JOB_EPOCH {
        if crate::packet::fields_ok(d, 3) {
            match crate::wire::dec_parse(crate::packet::field_at(d, 3, 2), 0) {
                Some(e) => submit_epoch_post(
                    pre,
                    post,
                    conn,
                    crate::packet::field_at(d, 3, 0),
                    crate::packet::field_at(d, 3, 1),
                    crate::packet::field_at(d, 3, 3),
                    e,
                    r,
                ),
                None => post == pre && (r matches Ok(out) && out@.len() == 1 && out@[0].target
                    == conn && is_res_packet(out@[0].packet, ERROR, err_packet_data())),
            }
        } else {
            r is Err && post == pre
        }
    } else if pt == ALL_YOURS {
        post == pre && (r matches Ok(out) && out@.len() == 0)
    } else {
        post == pre && (r matches Ok(out) && out@.len() == 1 && out@[0].target == conn
            && is_res_packet(out@[0].packet, ERROR, err_packet_data()))
    }
}

fn err_packet_bytes() -> (r: Vec<u8>)
    ensures
        r@ == err_packet_data(),
{
    let mut v: Vec<u8> = Vec::new();
    v.push(117u8);
    v.push(110u8);
    v.push(107u8);
    v.push(110u8);
    v.push(111u8);
    v.push(119u8);
    v.push(110u8);
    v.push(0u8);
    v.push(117u8);
    v.push(110u8);
    v.push(115u8);
    v.push(117u8);
    v.push(112u8);
    v.push(112u8);
    v.push(111u8);
    v.push(114u8);
    v.push(116u8);
    v.push(101u8);
    v.push(100u8);
    v.push(32u8);
    v.push(114u8);
    v.push(101u8);
    v.push(113u8);
    v.push(117u8);
    v.push(101u8);
    v.push(115u8);
    v.push(116u8);
    proof {
        assert(v@ =~= err_packet_data());
    }
    v
}

fn err_reply(conn: u64) -> (out: Vec<Delivery>)
    ensures
        out@.len() == 1,
        out@[0].target == conn,
        is_res_packet(out@[0].packet, ERROR, err_packet_data()),
{
    let p = Packet::new_res(ERROR, Box::new(err_packet_bytes()));
    let mut out: Vec<Delivery> = Vec::new();
    out.push(Delivery { target: conn, packet: p });
    out
}

impl Packet {
    /// One atomic dispatcher step: reads this request's declared fields
    /// and applies it to the broker, yielding the frames to deliver.
    /// The size margin in the requirement leaves room for the broker's
    /// own additions to a reply payload.
    #[verifier::rlimit(100)]
    pub fn process(&mut self, broker: &mut Broker, conn_id: u64) -> (r: Result<
        Vec<Delivery>,
        ParseError,
    >)
        requires
            old(self).wf(),
            old(self)._field_count == 0,
            old(broker).wf(),
            old(broker).next_handle < u64::MAX,
            old(self).data@.len() + 64 <= u32::MAX,
        ensures
            final(broker).wf(),
            final(self).wf(),
            process_post(*old(self), *old(broker), *final(broker), conn_id, r),
    {
        let ghost d = self.data@;
        if self.magic == PacketMagic::TEXT {
            if self.ptype == ADMIN_VERSION {
                let mut v: Vec<u8> = Vec::new();
                v.push(48u8);
                v.push(46u8);
                v.push(49u8);
                v.push(46u8);
                v.push(48u8);
                v.push(10u8);
                proof {
                    assert(v@ =~= version_data());
                }
                let p = text_packet(v);
                let mut out: Vec<Delivery> = Vec::new();
                out.push(Delivery { target: conn_id, packet: p });
                return Ok(out);
            }
            if self.ptype == ADMIN_STATUS {
                return broker.admin_status(conn_id);
            }
            let mut v: Vec<u8> = Vec::new();
            v.push(69u8);
            v.push(82u8);
            v.push(82u8);
            v.push(32u8);
            v.push(85u8);
            v.push(78u8);
            v.push(75u8);
            v.push(78u8);
            v.push(79u8);
            v.push(87u8);
            v.push(78u8);
            v.push(95u8);
            v.push(67u8);
            v.push(79u8);
            v.push(77u8);
            v.push(77u8);
            v.push(65u8);
            v.push(78u8);
            v.push(68u8);
            v.push(32u8);
            v.push(85u8);
            v.push(110u8);
            v.push(107u8);
            v.push(110u8);
            v.push(111u8);
            v.push(119u8);
            v.push(110u8);
            v.push(43u8);
            v.push(115u8);
            v.push(101u8);
            v.push(114u8);
            v.push(118u8);
            v.push(101u8);
            v.push(114u8);
            v.push(43u8);
            v.push(99u8);
            v.push(111u8);
            v.push(109u8);
            v.push(109u8);
            v.push(97u8);
            v.push(110u8);
            v.push(100u8);
            v.push(10u8);
            proof {
                assert(v@ =~= err_unknown_data());
            }
            let p = text_packet(v);
            let mut out: Vec<Delivery> = Vec::new();
            out.push(Delivery { target: conn_id, packet: p });
            return Ok(out);
        }
        if self.magic != PacketMagic::REQ {
            return Ok(err_reply(conn_id));
        }
        let pt = self.ptype;
        if pt == SUBMIT_JOB || pt == SUBMIT_JOB_BG || pt == SUBMIT_JOB_HIGH || pt
            == SUBMIT_JOB_HIGH_BG || pt == SUBMIT_JOB_LOW || pt == SUBMIT_JOB_LOW_BG {
            let fname = self.nextField()?;
            let unique = self.nextField()?;
            let payload = self.nextField()?;
            let prio = if pt == SUBMIT_JOB_HIGH || pt == SUBMIT_JOB_HIGH_BG {
                Priority::High
            } else if pt == SUBMIT_JOB_LOW || pt == SUBMIT_JOB_LOW_BG {
                Priority::Low
            } else {
                Priority::Normal
            };
            let bg = pt == SUBMIT_JOB_BG || pt == SUBMIT_JOB_HIGH_BG || pt == SUBMIT_JOB_LOW_BG;
            return broker.submit(conn_id, fname, unique, payload, prio, bg, None);
        }
        if pt == SUBMIT_REDUCE_JOB || pt == SUBMIT_REDUCE_JOB_BACKGROUND {
            let fname = self.nextField()?;
            let unique = self.nextField()?;
            let reducer = self.nextField()?;
            let payload = self.nextField()?;
            let bg = pt == SUBMIT_REDUCE_JOB_BACKGROUND;
            return broker.submit(
                conn_id,
                fname,
                unique,
                payload,
                Priority::Normal,
                bg,
                Some(reducer),
            );
        }
        if pt == GRAB_JOB || pt == GRAB_JOB_UNIQ || pt == GRAB_JOB_ALL {
            return broker.grab(conn_id, pt);
        }
        if pt == PRE_SLEEP {
            broker.workers.pre_sleep(conn_id);
            return Ok(Vec::new());
        }
        if pt == CAN_DO {
            let fname = clone_bytes(&self.data);
            broker.workers.can_do(conn_id, fname);
            return Ok(Vec::new());
        }
        if pt == CAN_DO_TIMEOUT {
            let fname = self.nextField()?;
            broker.workers.can_do(conn_id, fname);
            return Ok(Vec::new());
        }
        if pt == CANT_DO {
            let fname = clone_bytes(&self.data);
            broker.workers.cant_do(conn_id, &fname);
            return Ok(Vec::new());
        }
        if pt == RESET_ABILITIES {
            broker.workers.reset_abilities(conn_id);
            return Ok(Vec::new());
        }
        if pt == SET_CLIENT_ID {
            let id = clone_bytes(&self.data);
            broker.workers.set_client_id(conn_id, id);
            return Ok(Vec::new());
        }
        if pt == ECHO_REQ {
            let data = clone_bytes(&self.data);
            let p = Packet::new_res(ECHO_RES, Box::new(data));
            let mut out: Vec<Delivery> = Vec::new();
            out.push(Delivery { target: conn_id, packet: p });
            return Ok(out);
        }
        if pt == OPTION_REQ {
            let mut lit: Vec<u8> = Vec::new();
            lit.push(101u8);
            lit.push(120u8);
            lit.push(99u8);
            lit.push(101u8);
            lit.push(112u8);
            lit.push(116u8);
            lit.push(105u8);
            lit.push(111u8);
            lit.push(110u8);
            lit.push(115u8);
            proof {
                assert(lit@ =~= exceptions_lit());
            }
            if crate::codec::vec_eq(&self.data, &lit) {
                let data = clone_bytes(&self.data);
                let p = Packet::new_res(OPTION_RES, Box::new(data));
                let mut out: Vec<Delivery> = Vec::new();
                out.push(Delivery { target: conn_id, packet: p });
                return Ok(out);
            }
            return Ok(err_reply(conn_id));
        }
        if pt == GET_STATUS {
            let handle = clone_bytes(&self.data);
            return Ok(broker.get_status(conn_id, &handle));
        }
        if pt == WORK_COMPLETE || pt == WORK_EXCEPTION {
            let handle = self.nextField()?;
            let data = clone_bytes(&self.data);
            return Ok(broker.work_terminal(pt, &handle, &data));
        }
        if pt == WORK_FAIL {
            let handle = clone_bytes(&self.data);
            let data = clone_bytes(&self.data);
            return Ok(broker.work_terminal(pt, &handle, &data));
        }
        if pt == WORK_DATA || pt == WORK_WARNING {
            let handle = self.nextField()?;
            let data = clone_bytes(&self.data);
            return Ok(broker.work_progress(pt, &handle, &data));
        }
        if pt == WORK_STATUS {
            let handle = self.nextField()?;
            let nums = self.nextField()?;
            let dens = self.nextField()?;
            let num = crate::wire::parse_dec(&nums);
            let den = crate::wire::parse_dec(&dens);
            match (num, den) {
                (Some(n), Some(dn)) => {
                    let data = clone_bytes(&self.data);
                    return Ok(broker.work_status(&handle, n, dn, &data));
                },
                _ => {
                    return Ok(Vec::new());
                },
            }
        }
        if pt == SUBMIT_JOB_EPOCH {
            let fname = self.nextField()?;
            let unique = self.nextField()?;
            let epoch_str = self.nextField()?;
            let payload = self.nextField()?;
            match crate::wire::parse_dec(&epoch_str) {
                Some(e) => {
                    return broker.submit_scheduled(conn_id, fname, unique, payload, e);
                },
                None => {
                    return Ok(err_reply(conn_id));
                },
            }
        }
        if pt == ALL_YOURS {
            return Ok(Vec::new());
        }
        Ok(err_reply(conn_id))
    }
}



/// Everything a scheduled submission does: coalesce on a live key, or
/// mint a handle and defer the job until its epoch. Scheduled jobs are
/// background: nobody waits on them.
pub open spec fn submit_epoch_post(
    pre: Broker,
    post: Broker,
    conn: u64,
    f: Seq<u8>,
    u: Seq<u8>,
    pl: Seq<u8>,
    epoch: u64,
    r: Result<Vec<Delivery>, ParseError>,
) -> bool {
    &&& post.workers == pre.workers
    &&& post.waiters@ == pre.waiters@
    &&& if key_present(pre.queues, f, u) {
        &&& queues_eq(post.queues, pre.queues)
        &&& post.next_handle == pre.next_handle
        &&& r matches Ok(out) ==> {
            &&& out@.len() == 1
            &&& out@[0].target == conn
            &&& exists|h: Seq<u8>|
                #[trigger] key_has_handle(pre.queues, f, u, h) && is_res_packet(
                    out@[0].packet,
                    JOB_CREATED,
                    h,
                )
        }
    } else {
        let h = handle_of(pre.next_handle);
        &&& (r is Err <==> h.len() > u32::MAX)
        &&& r matches Ok(out) ==> {
            &&& post.queues.funcs@ == pre.queues.funcs@
            &&& post.queues.running@ == pre.queues.running@
            &&& exists|j: Job|
                {
                    &&& #[trigger] job_fields_scheduled(j, f, u, pl, epoch, h)
                    &&& post.queues.scheduled@ == pre.queues.scheduled@.push(j)
                }
            &&& post.next_handle == pre.next_handle + 1
            &&& out@.len() == 1 && out@[0].target == conn && is_res_packet(
                out@[0].packet,
                JOB_CREATED,
                h,
            )
        }
    }
}

/// The fields of a deferred submission's job.
pub open spec fn job_fields_scheduled(
    j: Job,
    f: Seq<u8>,
    u: Seq<u8>,
    pl: Seq<u8>,
    epoch: u64,
    h: Seq<u8>,
) -> bool {
    &&& j.handle@ == h
    &&& j.fname@ == f
    &&& j.unique@ == u
    &&& j.payload@ == pl
    &&& j.background == true
    &&& j.when_to_run == Some(epoch)
    &&& j.assigned is None
}

impl Broker {
    /// One SUBMIT_JOB_EPOCH step: the job joins the deferred pool, to be
    /// promoted by `schedule_tick` once its epoch arrives.
    pub fn submit_scheduled(
        &mut self,
        conn: u64,
        fname: Vec<u8>,
        unique: Vec<u8>,
        payload: Vec<u8>,
        epoch: u64,
    ) -> (r: Result<Vec<Delivery>, ParseError>)
        requires
            old(self).wf(),
            old(self).next_handle < u64::MAX,
        ensures
            final(self).wf(),
            submit_epoch_post(
                *old(self),
                *final(self),
                conn,
                fname@,
                unique@,
                payload@,
                epoch,
                r,
            ),
    {
        let existing = self.queues.find_key(&fname, &unique);
        match existing {
            Some(h) => {
                if h.len() > (u32::MAX as usize) {
                    return Err(ParseError {});
                }
                let p = Packet::new_res(JOB_CREATED, Box::new(h));
                let mut out: Vec<Delivery> = Vec::new();
                out.push(Delivery { target: conn, packet: p });
                Ok(out)
            },
            None => {
                let h = make_handle(self.next_handle);
                if h.len() > (u32::MAX as usize) {
                    return Err(ParseError {});
                }
                self.next_handle = self.next_handle + 1;
                let job = Job {
                    handle: clone_bytes(&h),
                    fname,
                    unique,
                    payload,
                    priority: Priority::Normal,
                    background: true,
                    when_to_run: Some(epoch),
                    reducer: None,
                    numerator: 0,
                    denominator: 0,
                    assigned: None,
                };
                let ghost jg = job;
                self.queues.enqueue_scheduled(job);
                proof {
                    assert(job_fields_scheduled(
                        jg,
                        fname@,
                        unique@,
                        payload@,
                        epoch,
                        handle_of(old(self).next_handle),
                    ));
                }
                let p = Packet::new_res(JOB_CREATED, Box::new(h));
                let mut out: Vec<Delivery> = Vec::new();
                out.push(Delivery { target: conn, packet: p });
                Ok(out)
            },
        }
    }

    /// Promotes every deferred job whose epoch has arrived, earliest
    /// first, into its priority queue, waking sleeping workers; the
    /// frames returned are the NOOPs those wakes owe.
    pub fn schedule_tick(&mut self, now: u64) -> (out: Vec<Delivery>)
        requires
            old(self).wf(),
        ensures
            final(self).wf(),
            final(self).waiters@ == old(self).waiters@,
            final(self).next_handle == old(self).next_handle,
            final(self).queues.running@ == old(self).queues.running@,
            forall|k: int|
                0 <= k < final(self).queues.scheduled@.len() ==> !crate::queues::is_due(
                    #[trigger] final(self).queues.scheduled@[k],
                    now,
                ),
            forall|k: int|
                0 <= k < out@.len() ==> is_res_packet(
                    (#[trigger] out@[k]).packet,
                    NOOP,
                    Seq::<u8>::empty(),
                ),
        decreases old(self).queues.scheduled@.len(),
    {
        match self.queues.pop_due(now) {
            None => Vec::new(),
            Some(j) => {
                let mut j = j;
                j.assigned = None;
                let fname = clone_bytes(&j.fname);
                self.queues.enqueue(j);
                let ids = self.workers.wake(&fname);
                let mut out: Vec<Delivery> = Vec::new();
                let nids = ids.len();
                let mut k: usize = 0;
                while k < nids
                    invariant
                        0 <= k <= nids,
                        nids == ids@.len(),
                        out@.len() == k,
                        forall|t: int|
                            0 <= t < k ==> (#[trigger] out@[t]).target == ids@[t]
                                && is_res_packet(out@[t].packet, NOOP, Seq::<u8>::empty()),
                    decreases nids - k,
                {
                    let noop = Packet::new_res(NOOP, Box::new(Vec::new()));
                    out.push(Delivery { target: ids[k], packet: noop });
                    k = k + 1;
                }
                let mut rest = self.schedule_tick(now);
                let mut all = out;
                all.append(&mut rest);
                all
            },
        }
    }
}


} // verus!
