//! Broker-wide laws, each proved from the contracts the modules state.

use vstd::prelude::*;

use crate::constants::ADMIN_VERSION;
use crate::constants::JOB_CREATED;
use crate::job::Job;
use crate::job::Priority;
use crate::job::handle_of;
use crate::job::job_key_is;
use crate::job::with_assigned;
use crate::packet::Packet;
use crate::packet::PacketMagic;
use crate::queues::FuncQueues;
use crate::queues::fname_scan;
use crate::queues::fq_sel;
use crate::queues::handle_scan;
use crate::queues::key_present;
use crate::queues::key_has_handle;
use crate::queues::lemma_fname_scan_bounds;
use crate::queues::lemma_handle_scan_bounds;
use crate::queues::pick_scan;
use crate::service::Broker;
use crate::service::Delivery;
use crate::service::assign_data;
use crate::service::assign_ptype;
use crate::service::grab_post;
use crate::service::is_res_packet;
use crate::service::is_text_packet;
use crate::service::process_post;
use crate::service::requeued_front;
use crate::service::submit_post;
use crate::service::version_data;
use crate::service::work_terminal_post;
use crate::service::worker_fns;
use crate::worker::Worker;
use crate::worker::count_id;
use crate::worker::lemma_count_id_concat;
use crate::worker::should_wake;
use crate::worker::woken_ids;

verus! {

/// Two function-queue lists whose entries carry the same names are
/// scanned to the same index.
proof fn lemma_fname_scan_pointwise(a: Seq<FuncQueues>, b: Seq<FuncQueues>, i: int, f: Seq<u8>)
    requires
        a.len() == b.len(),
        forall|k: int| 0 <= k < a.len() ==> #[trigger] a[k].fname@ == b[k].fname@,
        0 <= i <= a.len(),
    ensures
        fname_scan(a, i, f) == fname_scan(b, i, f),
    decreases a.len() - i,
{
    if i < a.len() && a[i].fname@ != f {
        lemma_fname_scan_pointwise(a, b, i + 1, f);
    }
}

/// Uniqueness: submitting the same `(fname, unique)` twice before any
/// terminal report yields the same handle both times. The first
/// submission mints `handle_of(b0.next_handle)`; the second coalesces
/// onto that very job.
pub proof fn lemma_submit_dedup(
    b0: Broker,
    b1: Broker,
    b2: Broker,
    conn1: u64,
    conn2: u64,
    f: Seq<u8>,
    u: Seq<u8>,
    pl1: Seq<u8>,
    pl2: Seq<u8>,
    prio1: Priority,
    prio2: Priority,
    bg1: bool,
    bg2: bool,
    out1: Vec<Delivery>,
    out2: Vec<Delivery>,
)
    requires
        !key_present(b0.queues, f, u),
        submit_post(b0, b1, conn1, f, u, pl1, prio1, bg1, None, Ok(out1)),
        submit_post(b1, b2, conn2, f, u, pl2, prio2, bg2, None, Ok(out2)),
    ensures
        is_res_packet(out1@[0].packet, JOB_CREATED, handle_of(b0.next_handle)),
        is_res_packet(out2@[0].packet, JOB_CREATED, handle_of(b0.next_handle)),
{
    let h0 = handle_of(b0.next_handle);
    let j = choose|j: Job|
        #[trigger] crate::service::job_fields(j, f, u, pl1, prio1, bg1, None, h0)
            && crate::service::enqueued_job(b0.queues, b1.queues, j);
    let fi = fname_scan(b0.queues.funcs@, 0, j.fname@);
    let fl = b0.queues.funcs@.len() as int;
    lemma_fname_scan_bounds(b0.queues.funcs@, 0, j.fname@);
    // The key is now present: the enqueued job itself carries it.
    assert(key_present(b1.queues, f, u)) by {
        if fi < fl {
            let q = fq_sel(b1.queues.funcs@[fi], j.priority);
            assert(q[q.len() - 1] == j);
            assert(crate::queues::fq_has_key(b1.queues.funcs@[fi], f, u));
        } else {
            let q = fq_sel(b1.queues.funcs@[fl], j.priority);
            assert(q[0] == j);
            assert(crate::queues::fq_has_key(b1.queues.funcs@[fl], f, u));
        }
    }
    // And only that job carries it, so the coalesced handle is its own.
    let h = choose|h: Seq<u8>|
        {
            &&& #[trigger] key_has_handle(b1.queues, f, u, h)
            &&& is_res_packet(out2@[0].packet, JOB_CREATED, h)
            &&& (bg2 ==> b2.waiters@ == b1.waiters@)
            &&& (!bg2 ==> crate::service::waiters_added(b1.waiters@, b2.waiters@, h, conn2))
        };
    assert(h == h0) by {
        assert(forall|i: int|
            0 <= i < b0.queues.running@.len() ==> !job_key_is(
                #[trigger] b0.queues.running@[i],
                f,
                u,
            ));
        assert(forall|i: int|
            0 <= i < b0.queues.scheduled@.len() ==> !job_key_is(
                #[trigger] b0.queues.scheduled@[i],
                f,
                u,
            ));
        assert(forall|k: int|
            0 <= k < fl ==> !crate::queues::fq_has_key(#[trigger] b0.queues.funcs@[k], f, u));
        if fi == fl {
            assert(b1.queues.funcs@[fl].high@ == fq_sel(b1.queues.funcs@[fl], Priority::High));
            assert(b1.queues.funcs@[fl].normal@ == fq_sel(b1.queues.funcs@[fl], Priority::Normal));
            assert(b1.queues.funcs@[fl].low@ == fq_sel(b1.queues.funcs@[fl], Priority::Low));
        }
        assert(forall|k: int, i: int|
            0 <= k < b1.queues.funcs@.len() && 0 <= i < b1.queues.funcs@[k].high@.len()
                && job_key_is(#[trigger] b1.queues.funcs@[k].high@[i], f, u)
                ==> b1.queues.funcs@[k].high@[i] == j) by {
            assert forall|k: int, i: int|
                0 <= k < b1.queues.funcs@.len() && 0 <= i < b1.queues.funcs@[k].high@.len()
                    && job_key_is(#[trigger] b1.queues.funcs@[k].high@[i], f, u)
                    implies b1.queues.funcs@[k].high@[i] == j by {
                if k < fl {
                    assert(!crate::queues::seq_has_key(b0.queues.funcs@[k].high@, f, u));
                    if k != fi || j.priority != Priority::High {
                        assert(b1.queues.funcs@[k].high@ == b0.queues.funcs@[k].high@);
                        assert(job_key_is(b0.queues.funcs@[k].high@[i], f, u));
                    } else {
                        if i < b0.queues.funcs@[k].high@.len() {
                            assert(job_key_is(b0.queues.funcs@[k].high@[i], f, u));
                        }
                    }
                }
            }
        }
        assert(forall|k: int, i: int|
            0 <= k < b1.queues.funcs@.len() && 0 <= i < b1.queues.funcs@[k].normal@.len()
                && job_key_is(#[trigger] b1.queues.funcs@[k].normal@[i], f, u)
                ==> b1.queues.funcs@[k].normal@[i] == j) by {
            assert forall|k: int, i: int|
                0 <= k < b1.queues.funcs@.len() && 0 <= i < b1.queues.funcs@[k].normal@.len()
                    && job_key_is(#[trigger] b1.queues.funcs@[k].normal@[i], f, u)
                    implies b1.queues.funcs@[k].normal@[i] == j by {
                if k < fl {
                    assert(!crate::queues::seq_has_key(b0.queues.funcs@[k].normal@, f, u));
                    if k != fi || j.priority != Priority::Normal {
                        assert(b1.queues.funcs@[k].normal@ == b0.queues.funcs@[k].normal@);
                        assert(job_key_is(b0.queues.funcs@[k].normal@[i], f, u));
                    } else {
                        if i < b0.queues.funcs@[k].normal@.len() {
                            assert(job_key_is(b0.queues.funcs@[k].normal@[i], f, u));
                        }
                    }
                }
            }
        }
        assert(forall|k: int, i: int|
            0 <= k < b1.queues.funcs@.len() && 0 <= i < b1.queues.funcs@[k].low@.len()
                && job_key_is(#[trigger] b1.queues.funcs@[k].low@[i], f, u)
                ==> b1.queues.funcs@[k].low@[i] == j) by {
            assert forall|k: int, i: int|
                0 <= k < b1.queues.funcs@.len() && 0 <= i < b1.queues.funcs@[k].low@.len()
                    && job_key_is(#[trigger] b1.queues.funcs@[k].low@[i], f, u)
                    implies b1.queues.funcs@[k].low@[i] == j by {
                if k < fl {
                    assert(!crate::queues::seq_has_key(b0.queues.funcs@[k].low@, f, u));
                    if k != fi || j.priority != Priority::Low {
                        assert(b1.queues.funcs@[k].low@ == b0.queues.funcs@[k].low@);
                        assert(job_key_is(b0.queues.funcs@[k].low@[i], f, u));
                    } else {
                        if i < b0.queues.funcs@[k].low@.len() {
                            assert(job_key_is(b0.queues.funcs@[k].low@[i], f, u));
                        }
                    }
                }
            }
        }
        assert(b1.queues.running@ == b0.queues.running@);
        assert(b1.queues.scheduled@ == b0.queues.scheduled@);
        assert(key_has_handle(b1.queues, f, u, h));
    }
}

/// FIFO within a priority: a worker of one function, grabbing twice
/// from a NORMAL queue holding `s`, is assigned `s[0]` then `s[1]`.
pub proof fn lemma_fifo_within_priority(
    b0: Broker,
    b1: Broker,
    b2: Broker,
    conn: u64,
    variant: u32,
    f: Seq<u8>,
    out1: Vec<Delivery>,
    out2: Vec<Delivery>,
)
    requires
        worker_fns(b0, conn) == seq![f],
        ({
            let fi = fname_scan(b0.queues.funcs@, 0, f);
            &&& fi < b0.queues.funcs@.len()
            &&& b0.queues.funcs@[fi].high@.len() == 0
            &&& b0.queues.funcs@[fi].low@.len() == 0
            &&& b0.queues.funcs@[fi].normal@.len() >= 2
        }),
        grab_post(b0, b1, conn, variant, Ok(out1)),
        grab_post(b1, b2, conn, variant, Ok(out2)),
    ensures
        ({
            let fi = fname_scan(b0.queues.funcs@, 0, f);
            let s = b0.queues.funcs@[fi].normal@;
            &&& is_res_packet(out1@[0].packet, assign_ptype(variant), assign_data(variant, s[0]))
            &&& is_res_packet(out2@[0].packet, assign_ptype(variant), assign_data(variant, s[1]))
        }),
{
    let fi = fname_scan(b0.queues.funcs@, 0, f);
    let s = b0.queues.funcs@[fi].normal@;
    lemma_fname_scan_bounds(b0.queues.funcs@, 0, f);
    assert(worker_fns(b0, conn)[0] == f);
    assert(pick_scan(b0.queues.funcs@, worker_fns(b0, conn), 0) == Some(
        (fi, Priority::Normal),
    ));
    assert(fq_sel(b0.queues.funcs@[fi], Priority::Normal)[0] == s[0]);
    // The same worker sees the same queues, shorter by one, afterwards.
    assert(worker_fns(b1, conn) == worker_fns(b0, conn));
    lemma_fname_scan_pointwise(b0.queues.funcs@, b1.queues.funcs@, 0, f);
    assert(fname_scan(b1.queues.funcs@, 0, f) == fi);
    assert(b1.queues.funcs@[fi].normal@ == s.drop_first());
    assert(pick_scan(b1.queues.funcs@, worker_fns(b1, conn), 0) == Some(
        (fi, Priority::Normal),
    ));
    assert(fq_sel(b1.queues.funcs@[fi], Priority::Normal)[0] == s[1]);
}

/// Priority dominance: one idle worker and one of each priority queued
/// for its function; three grabs return HIGH, then NORMAL, then LOW.
pub proof fn lemma_priority_dominance(
    b0: Broker,
    b1: Broker,
    b2: Broker,
    b3: Broker,
    conn: u64,
    variant: u32,
    f: Seq<u8>,
    out1: Vec<Delivery>,
    out2: Vec<Delivery>,
    out3: Vec<Delivery>,
)
    requires
        worker_fns(b0, conn) == seq![f],
        ({
            let fi = fname_scan(b0.queues.funcs@, 0, f);
            &&& fi < b0.queues.funcs@.len()
            &&& b0.queues.funcs@[fi].high@.len() == 1
            &&& b0.queues.funcs@[fi].normal@.len() == 1
            &&& b0.queues.funcs@[fi].low@.len() == 1
        }),
        grab_post(b0, b1, conn, variant, Ok(out1)),
        grab_post(b1, b2, conn, variant, Ok(out2)),
        grab_post(b2, b3, conn, variant, Ok(out3)),
    ensures
        ({
            let fi = fname_scan(b0.queues.funcs@, 0, f);
            let fq = b0.queues.funcs@[fi];
            &&& is_res_packet(
                out1@[0].packet,
                assign_ptype(variant),
                assign_data(variant, fq.high@[0]),
            )
            &&& is_res_packet(
                out2@[0].packet,
                assign_ptype(variant),
                assign_data(variant, fq.normal@[0]),
            )
            &&& is_res_packet(
                out3@[0].packet,
                assign_ptype(variant),
                assign_data(variant, fq.low@[0]),
            )
        }),
{
    let fi = fname_scan(b0.queues.funcs@, 0, f);
    let fq = b0.queues.funcs@[fi];
    lemma_fname_scan_bounds(b0.queues.funcs@, 0, f);
    assert(worker_fns(b0, conn)[0] == f);
    assert(pick_scan(b0.queues.funcs@, worker_fns(b0, conn), 0) == Some((fi, Priority::High)));
    assert(worker_fns(b1, conn) == worker_fns(b0, conn));
    lemma_fname_scan_pointwise(b0.queues.funcs@, b1.queues.funcs@, 0, f);
    assert(b1.queues.funcs@[fi].high@ == fq.high@.drop_first());
    assert(b1.queues.funcs@[fi].high@.len() == 0);
    assert(b1.queues.funcs@[fi].normal@ == fq.normal@);
    assert(pick_scan(b1.queues.funcs@, worker_fns(b1, conn), 0) == Some((fi, Priority::Normal)));
    assert(fq_sel(b1.queues.funcs@[fi], Priority::Normal)[0] == fq.normal@[0]);
    assert(worker_fns(b2, conn) == worker_fns(b1, conn));
    lemma_fname_scan_pointwise(b1.queues.funcs@, b2.queues.funcs@, 0, f);
    assert(b2.queues.funcs@[fi].normal@.len() == 0);
    assert(b2.queues.funcs@[fi].high@.len() == 0);
    assert(b2.queues.funcs@[fi].low@ == fq.low@);
    assert(pick_scan(b2.queues.funcs@, worker_fns(b2, conn), 0) == Some((fi, Priority::Low)));
    assert(fq_sel(b2.queues.funcs@[fi], Priority::Low)[0] == fq.low@[0]);
}

/// Wake correctness, counted: with distinct connection ids, a sleeping
/// worker able to run `f` appears exactly once among the wake targets,
/// and a worker not in that state not at all. Together with a
/// submission's NOOP fan-out this is one NOOP per fresh arrival.
pub proof fn lemma_wake_exactly_once(ws: Seq<Worker>, f: Seq<u8>, c: u64)
    requires
        forall|i: int, j: int|
            0 <= i < j < ws.len() ==> #[trigger] ws[i].conn_id != #[trigger] ws[j].conn_id,
    ensures
        count_id(woken_ids(ws, f), c) == (if exists|i: int|
            0 <= i < ws.len() && (#[trigger] ws[i].conn_id) == c && should_wake(ws[i], f) {
            1int
        } else {
            0int
        }),
    decreases ws.len(),
{
    if ws.len() == 0 {
    } else {
        let pre = ws.drop_last();
        lemma_wake_exactly_once(pre, f, c);
        let tail = if should_wake(ws.last(), f) {
            seq![ws.last().conn_id]
        } else {
            Seq::<u64>::empty()
        };
        lemma_count_id_concat(woken_ids(pre, f), tail, c);
        if tail.len() > 0 {
            assert(tail.drop_last() =~= Seq::<u64>::empty());
            assert(tail.len() == 1);
            assert(tail.last() == ws.last().conn_id);
            assert(count_id(tail.drop_last(), c) == 0);
            assert(count_id(tail, c) == count_id(tail.drop_last(), c) + (if tail.last() == c {
                1int
            } else {
                0int
            }));
        }
        assert(forall|i: int| 0 <= i < pre.len() ==> pre[i] == #[trigger] ws[i]);
        if ws.last().conn_id == c && should_wake(ws.last(), f) {
            assert(!(exists|i: int|
                0 <= i < pre.len() && (#[trigger] pre[i].conn_id) == c && should_wake(
                    pre[i],
                    f,
                ))) by {
                if exists|i: int|
                    0 <= i < pre.len() && (#[trigger] pre[i].conn_id) == c && should_wake(
                    pre[i],
                    f,
                ) {
                    let i = choose|i: int|
                        0 <= i < pre.len() && (#[trigger] pre[i].conn_id) == c && should_wake(
                            pre[i],
                            f,
                        );
                    assert(ws[i].conn_id == ws[ws.len() - 1].conn_id);
                }
            }
            assert((ws[ws.len() - 1].conn_id) == c && should_wake(ws[ws.len() - 1], f));
        } else {
            if exists|i: int|
                0 <= i < ws.len() && (#[trigger] ws[i].conn_id) == c && should_wake(ws[i], f) {
                let i = choose|i: int|
                    0 <= i < ws.len() && (#[trigger] ws[i].conn_id) == c && should_wake(
                        ws[i],
                        f,
                    );
                assert(i < pre.len() || ws[i] == ws.last());
                assert(i < pre.len());
                assert((pre[i].conn_id) == c && should_wake(pre[i], f));
            }
            if exists|i: int|
                0 <= i < pre.len() && (#[trigger] pre[i].conn_id) == c && should_wake(pre[i], f) {
                let i = choose|i: int|
                    0 <= i < pre.len() && (#[trigger] pre[i].conn_id) == c && should_wake(
                        pre[i],
                        f,
                    );
                assert((ws[i].conn_id) == c && should_wake(ws[i], f));
            }
        }
    }
}

/// After a wake for `f` nobody is left to rouse: the next arrival for
/// `f` sends no NOOP until someone sleeps again.
pub proof fn lemma_no_second_wake(pre: crate::worker::WorkerRegistry, post: crate::worker::WorkerRegistry, f: Seq<u8>)
    requires
        crate::service::workers_woken(pre, post, f),
    ensures
        woken_ids(post.workers@, f) == Seq::<u64>::empty(),
{
    assert(forall|i: int|
        0 <= i < post.workers@.len() ==> !should_wake(#[trigger] post.workers@[i], f));
    lemma_woken_ids_empty(post.workers@, f);
}

proof fn lemma_woken_ids_empty(ws: Seq<Worker>, f: Seq<u8>)
    requires
        forall|i: int| 0 <= i < ws.len() ==> !should_wake(#[trigger] ws[i], f),
    ensures
        woken_ids(ws, f) == Seq::<u64>::empty(),
    decreases ws.len(),
{
    if ws.len() > 0 {
        assert(forall|i: int|
            0 <= i < ws.len() - 1 ==> !should_wake(#[trigger] ws.drop_last()[i], f));
        lemma_woken_ids_empty(ws.drop_last(), f);
        assert(woken_ids(ws, f) =~= Seq::<u64>::empty());
    }
}

/// Retry on worker loss: the one RUNNING non-background job of a lost
/// connection reappears at the head of its priority queue, exactly
/// once, and runs nowhere.
pub proof fn lemma_retry_on_worker_loss(b0: Broker, b1: Broker, conn: u64, i: int)
    requires
        0 <= i < b0.queues.running@.len(),
        b0.queues.running@[i].assigned == Some(conn),
        forall|k: int|
            0 <= k < b0.queues.running@.len() && k != i
                ==> #[trigger] b0.queues.running@[k].assigned != Some(conn),
        !b0.queues.running@[i].background,
        ({
            // the job is not also queued under its own handle
            let j = b0.queues.running@[i];
            let fi = fname_scan(b0.queues.funcs@, 0, j.fname@);
            fi < b0.queues.funcs@.len() ==> forall|k: int|
                0 <= k < fq_sel(b0.queues.funcs@[fi], j.priority).len() ==> (#[trigger] fq_sel(
                    b0.queues.funcs@[fi],
                    j.priority,
                )[k]).handle@ != j.handle@
        }),
        // the broker state after the connection is torn down
        b1.queues.running@ == b0.queues.running@.remove(i),
        requeued_front(b0.queues.funcs@, b1.queues.funcs@, b0.queues.running@[i]),
    ensures
        ({
            let j = b0.queues.running@[i];
            let fi = fname_scan(b0.queues.funcs@, 0, j.fname@);
            let fi1 = if fi < b0.queues.funcs@.len() {
                fi
            } else {
                b0.queues.funcs@.len() as int
            };
            let q = fq_sel(b1.queues.funcs@[fi1], j.priority);
            &&& q.len() >= 1
            &&& q[0] == with_assigned(j, None)
            &&& handle_scan(q, 1, j.handle@) == q.len()
        }),
{
    let j = b0.queues.running@[i];
    let fi = fname_scan(b0.queues.funcs@, 0, j.fname@);
    let fl = b0.queues.funcs@.len() as int;
    lemma_fname_scan_bounds(b0.queues.funcs@, 0, j.fname@);
    if fi < fl {
        let q = fq_sel(b1.queues.funcs@[fi], j.priority);
        let q0 = fq_sel(b0.queues.funcs@[fi], j.priority);
        assert(q == seq![with_assigned(j, None)] + q0);
        assert(q[0] == with_assigned(j, None));
        lemma_handle_scan_bounds(q, 1, j.handle@);
        if handle_scan(q, 1, j.handle@) < q.len() {
            let at = handle_scan(q, 1, j.handle@);
            assert(q[at] == q0[at - 1]);
        }
    } else {
        let q = fq_sel(b1.queues.funcs@[fl], j.priority);
        assert(q == seq![with_assigned(j, None)]);
        lemma_handle_scan_bounds(q, 1, j.handle@);
    }
}

/// Background isolation: a background submission answers its submitter
/// with JOB_CREATED alone, and a later terminal report on it reaches
/// nobody, because nobody ever waits on it.
pub proof fn lemma_background_isolation(
    b0: Broker,
    b1: Broker,
    b2: Broker,
    conn: u64,
    f: Seq<u8>,
    u: Seq<u8>,
    pl: Seq<u8>,
    prio: Priority,
    ptype: u32,
    h: Seq<u8>,
    data: Seq<u8>,
    out1: Vec<Delivery>,
    out2: Vec<Delivery>,
)
    requires
        b0.waiters@.len() == 0,
        submit_post(b0, b1, conn, f, u, pl, prio, true, None, Ok(out1)),
        work_terminal_post(b1, b2, ptype, h, data, out2@),
    ensures
        out1@[0].target == conn,
        is_res_packet(out1@[0].packet, JOB_CREATED, handle_of(b0.next_handle)) || key_present(
            b0.queues,
            f,
            u,
        ),
        out2@.len() == 0,
{
    assert(b1.waiters@.len() == 0);
    crate::service::lemma_wh_scan_bounds(b1.waiters@, 0, h);
}

/// Admin idempotence: two `version` commands in a row answer with the
/// same line and leave the broker exactly as it was.
pub proof fn lemma_version_idempotent(
    p1: Packet,
    p2: Packet,
    b0: Broker,
    b1: Broker,
    b2: Broker,
    conn: u64,
    out1: Vec<Delivery>,
    out2: Vec<Delivery>,
)
    requires
        p1.magic == PacketMagic::TEXT,
        p1.ptype == ADMIN_VERSION,
        p2.magic == PacketMagic::TEXT,
        p2.ptype == ADMIN_VERSION,
        process_post(p1, b0, b1, conn, Ok(out1)),
        process_post(p2, b1, b2, conn, Ok(out2)),
    ensures
        b1 == b0,
        b2 == b0,
        out1@.len() == 1 && out2@.len() == 1,
        is_text_packet(out1@[0].packet, version_data()),
        is_text_packet(out2@[0].packet, version_data()),
        out1@[0].packet.data@ == out2@[0].packet.data@,
{
}

} // verus!
