//! The worker registry: per-connection abilities, client ids, and the
//! PRE_SLEEP / NOOP wake discipline.

use vstd::prelude::*;

use crate::codec::vec_eq;
use crate::wire::clone_bytes;

verus! {

pub struct Worker {
    pub conn_id: u64,
    pub client_id: Vec<u8>,
    /// Function names, in declaration order, each held once.
    pub functions: Vec<Vec<u8>>,
    pub sleeping: bool,
}

/// Whether the worker declared the ability `f`.
pub open spec fn w_has_fn(w: Worker, f: Seq<u8>) -> bool {
    exists|i: int| 0 <= i < w.functions@.len() && #[trigger] w.functions@[i]@ == f
}

/// `w`, awake.
pub open spec fn woken(w: Worker) -> Worker {
    Worker { sleeping: false, ..w }
}

/// Whether a wake for `f` must rouse `w`.
pub open spec fn should_wake(w: Worker, f: Seq<u8>) -> bool {
    w.sleeping && w_has_fn(w, f)
}

/// First index at or after `i` of the worker on connection `c`.
pub open spec fn wconn_scan(ws: Seq<Worker>, i: int, c: u64) -> int
    decreases ws.len() - i,
{
    if i < 0 || i >= ws.len() {
        ws.len() as int
    } else if ws[i].conn_id == c {
        i
    } else {
        wconn_scan(ws, i + 1, c)
    }
}

pub proof fn lemma_wconn_scan_bounds(ws: Seq<Worker>, i: int, c: u64)
    requires
        0 <= i <= ws.len(),
    ensures
        i <= wconn_scan(ws, i, c) <= ws.len(),
        wconn_scan(ws, i, c) < ws.len() ==> ws[wconn_scan(ws, i, c)].conn_id == c,
        forall|k: int| i <= k < wconn_scan(ws, i, c) ==> #[trigger] ws[k].conn_id != c,
    decreases ws.len() - i,
{
    if i < ws.len() && ws[i].conn_id != c {
        lemma_wconn_scan_bounds(ws, i + 1, c);
    }
}

/// First index at or after `i` of the name `f` in an ability list.
pub open spec fn fn_scan(fs: Seq<Vec<u8>>, i: int, f: Seq<u8>) -> int
    decreases fs.len() - i,
{
    if i < 0 || i >= fs.len() {
        fs.len() as int
    } else if fs[i]@ == f {
        i
    } else {
        fn_scan(fs, i + 1, f)
    }
}

pub proof fn lemma_fn_scan_bounds(fs: Seq<Vec<u8>>, i: int, f: Seq<u8>)
    requires
        0 <= i <= fs.len(),
    ensures
        i <= fn_scan(fs, i, f) <= fs.len(),
        fn_scan(fs, i, f) < fs.len() ==> fs[fn_scan(fs, i, f)]@ == f,
        forall|k: int| i <= k < fn_scan(fs, i, f) ==> #[trigger] fs[k]@ != f,
    decreases fs.len() - i,
{
    if i < fs.len() && fs[i]@ != f {
        lemma_fn_scan_bounds(fs, i + 1, f);
    }
}

/// The connection ids a wake for `f` rouses, in registry order.
pub open spec fn woken_ids(ws: Seq<Worker>, f: Seq<u8>) -> Seq<u64>
    decreases ws.len(),
{
    if ws.len() == 0 {
        Seq::<u64>::empty()
    } else {
        woken_ids(ws.drop_last(), f) + if should_wake(ws.last(), f) {
            seq![ws.last().conn_id]
        } else {
            Seq::<u64>::empty()
        }
    }
}

/// How often `c` occurs in `s`.
pub open spec fn count_id(s: Seq<u64>, c: u64) -> int
    decreases s.len(),
{
    if s.len() == 0 {
        0
    } else {
        count_id(s.drop_last(), c) + if s.last() == c {
            1int
        } else {
            0int
        }
    }
}

pub proof fn lemma_count_id_concat(a: Seq<u64>, b: Seq<u64>, c: u64)
    ensures
        count_id(a + b, c) == count_id(a, c) + count_id(b, c),
    decreases b.len(),
{
    if b.len() == 0 {
        assert(a + b =~= a);
    } else {
        lemma_count_id_concat(a, b.drop_last(), c);
        assert((a + b).drop_last() =~= a + b.drop_last());
    }
}

pub struct WorkerRegistry {
    pub workers: Vec<Worker>,
}

impl WorkerRegistry {
    /// Each connection holds at most one worker record.
    pub open spec fn wf(&self) -> bool {
        forall|i: int, j: int|
            0 <= i < j < self.workers@.len() ==> #[trigger] self.workers@[i].conn_id
                != #[trigger] self.workers@[j].conn_id
    }

    pub fn new() -> (r: WorkerRegistry)
        ensures
            r.wf(),
            r.workers@.len() == 0,
    {
        WorkerRegistry { workers: Vec::new() }
    }

    pub fn find(&self, conn_id: u64) -> (r: usize)
        ensures
            r == wconn_scan(self.workers@, 0, conn_id),
    {
        let len = self.workers.len();
        let mut i: usize = 0;
        while i < len
            invariant
                0 <= i <= len,
                len == self.workers@.len(),
                wconn_scan(self.workers@, 0, conn_id) == wconn_scan(
                    self.workers@,
                    i as int,
                    conn_id,
                ),
            decreases len - i,
        {
            if self.workers[i].conn_id == conn_id {
                return i;
            }
            i = i + 1;
        }
        i
    }

    /// The record for `conn_id`, created asleep-less and with the
    /// default client id `-` when the connection has none yet; returns
    /// its index.
    fn ensure_worker(&mut self, conn_id: u64) -> (r: usize)
        requires
            old(self).wf(),
        ensures
            final(self).wf(),
            r == wconn_scan(final(self).workers@, 0, conn_id),
            r < final(self).workers@.len(),
            ({
                let i = wconn_scan(old(self).workers@, 0, conn_id);
                if i < old(self).workers@.len() {
                    final(self).workers@ == old(self).workers@ && r == i
                } else {
                    &&& final(self).workers@.len() == old(self).workers@.len() + 1
                    &&& final(self).workers@.take(old(self).workers@.len() as int) == old(self).workers@
                    &&& final(self).workers@.last().conn_id == conn_id
                    &&& final(self).workers@.last().client_id@ == seq![45u8]
                    &&& final(self).workers@.last().functions@.len() == 0
                    &&& final(self).workers@.last().sleeping == false
                }
            }),
    {
        let i = self.find(conn_id);
        proof {
            lemma_wconn_scan_bounds(self.workers@, 0, conn_id);
        }
        if i < self.workers.len() {
            return i;
        }
        let mut client_id: Vec<u8> = Vec::new();
        client_id.push(45u8);
        let w = Worker { conn_id, client_id, functions: Vec::new(), sleeping: false };
        self.workers.push(w);
        proof {
            assert(final(self).workers@.take(old(self).workers@.len() as int) =~= old(self).workers@);
            lemma_wconn_scan_same_prefix(old(self).workers@, final(self).workers@, conn_id);
        }
        self.workers.len() - 1
    }

    /// Registers an ability: idempotent, keeps declaration order.
    pub fn can_do(&mut self, conn_id: u64, fname: Vec<u8>)
        requires
            old(self).wf(),
        ensures
            final(self).wf(),
            ({
                let i = wconn_scan(final(self).workers@, 0, conn_id);
                &&& i < final(self).workers@.len()
                &&& w_has_fn(final(self).workers@[i], fname@)
                &&& (forall|k: int|
                    0 <= k < final(self).workers@.len() && k != i ==> #[trigger] final(self).workers@[k] == wconn_preserved(old(self).workers@, k))
                &&& ({
                    let iw = wconn_scan(old(self).workers@, 0, conn_id);
                    iw < old(self).workers@.len() ==> {
                        let w = old(self).workers@[iw];
                        &&& i == iw
                        &&& final(self).workers@[i].conn_id == w.conn_id
                        &&& final(self).workers@[i].client_id@ == w.client_id@
                        &&& final(self).workers@[i].sleeping == w.sleeping
                        &&& final(self).workers@[i].functions@ == (if w_has_fn(w, fname@) {
                            w.functions@
                        } else {
                            w.functions@.push(fname)
                        })
                    }
                })
            }),
    {
        let i = self.ensure_worker(conn_id);
        let ghost ws1 = self.workers@;
        proof {
            lemma_wconn_scan_bounds(ws1, 0, conn_id);
        }
        let mut w = self.workers.remove(i);
        let fi = Self::fn_idx(&w.functions, &fname);
        proof {
            lemma_fn_scan_bounds(w.functions@, 0, fname@);
        }
        if fi == w.functions.len() {
            w.functions.push(fname);
            proof {
                assert(w.functions@[w.functions@.len() - 1]@ == fname@);
            }
        } else {
            proof {
                assert(w.functions@[fi as int]@ == fname@);
            }
        }
        proof {
            assert(w_has_fn(w, fname@));
        }
        self.workers.insert(i, w);
        proof {
            assert(final(self).workers@ =~= ws1.update(i as int, final(self).workers@[i as int]));
            lemma_wconn_scan_update(ws1, final(self).workers@, i as int, conn_id);
            assert(forall|k: int|
                0 <= k < old(self).workers@.len() && k != i as int ==> ws1[k] == old(self).workers@.take(old(self).workers@.len() as int)[k]);
        }
    }

    fn fn_idx(fs: &Vec<Vec<u8>>, f: &Vec<u8>) -> (r: usize)
        ensures
            r == fn_scan(fs@, 0, f@),
    {
        let len = fs.len();
        let mut i: usize = 0;
        while i < len
            invariant
                0 <= i <= len,
                len == fs@.len(),
                fn_scan(fs@, 0, f@) == fn_scan(fs@, i as int, f@),
            decreases len - i,
        {
            if vec_eq(&fs[i], f) {
                return i;
            }
            i = i + 1;
        }
        i
    }

    /// Withdraws an ability; nothing happens when the connection never
    /// declared it.
    pub fn cant_do(&mut self, conn_id: u64, fname: &Vec<u8>)
        requires
            old(self).wf(),
        ensures
            final(self).wf(),
            ({
                let i = wconn_scan(old(self).workers@, 0, conn_id);
                if i < old(self).workers@.len() {
                    let w = old(self).workers@[i];
                    let fi = fn_scan(w.functions@, 0, fname@);
                    &&& final(self).workers@.len() == old(self).workers@.len()
                    &&& (forall|k: int|
                        0 <= k < old(self).workers@.len() && k != i ==> #[trigger] final(self).workers@[k] == old(self).workers@[k])
                    &&& final(self).workers@[i].conn_id == w.conn_id
                    &&& final(self).workers@[i].client_id@ == w.client_id@
                    &&& final(self).workers@[i].sleeping == w.sleeping
                    &&& final(self).workers@[i].functions@ == (if fi < w.functions@.len() {
                        w.functions@.remove(fi)
                    } else {
                        w.functions@
                    })
                } else {
                    final(self).workers@ == old(self).workers@
                }
            }),
    {
        let i = self.find(conn_id);
        proof {
            lemma_wconn_scan_bounds(self.workers@, 0, conn_id);
        }
        if i < self.workers.len() {
            let mut w = self.workers.remove(i);
            let fi = Self::fn_idx(&w.functions, fname);
            proof {
                lemma_fn_scan_bounds(w.functions@, 0, fname@);
            }
            if fi < w.functions.len() {
                let _ = w.functions.remove(fi);
            }
            self.workers.insert(i, w);
            proof {
                assert(final(self).workers@ =~= old(self).workers@.update(i as int, final(self).workers@[i as int]));
            }
        }
    }

    /// Forgets every ability of the connection.
    pub fn reset_abilities(&mut self, conn_id: u64)
        requires
            old(self).wf(),
        ensures
            final(self).wf(),
            ({
                let i = wconn_scan(old(self).workers@, 0, conn_id);
                if i < old(self).workers@.len() {
                    let w = old(self).workers@[i];
                    &&& final(self).workers@.len() == old(self).workers@.len()
                    &&& (forall|k: int|
                        0 <= k < old(self).workers@.len() && k != i ==> #[trigger] final(self).workers@[k] == old(self).workers@[k])
                    &&& final(self).workers@[i].conn_id == w.conn_id
                    &&& final(self).workers@[i].client_id@ == w.client_id@
                    &&& final(self).workers@[i].sleeping == w.sleeping
                    &&& final(self).workers@[i].functions@.len() == 0
                } else {
                    final(self).workers@ == old(self).workers@
                }
            }),
    {
        let i = self.find(conn_id);
        proof {
            lemma_wconn_scan_bounds(self.workers@, 0, conn_id);
        }
        if i < self.workers.len() {
            let mut w = self.workers.remove(i);
            w.functions = Vec::new();
            self.workers.insert(i, w);
            proof {
                assert(final(self).workers@ =~= old(self).workers@.update(i as int, final(self).workers@[i as int]));
            }
        }
    }

    /// Stores the client-announced id for the connection.
    pub fn set_client_id(&mut self, conn_id: u64, id: Vec<u8>)
        requires
            old(self).wf(),
        ensures
            final(self).wf(),
            ({
                let i = wconn_scan(final(self).workers@, 0, conn_id);
                &&& i < final(self).workers@.len()
                &&& final(self).workers@[i].client_id@ == id@
                &&& final(self).workers@[i].conn_id == conn_id
            }),
    {
        let i = self.ensure_worker(conn_id);
        let ghost ws1 = self.workers@;
        proof {
            lemma_wconn_scan_bounds(ws1, 0, conn_id);
        }
        let mut w = self.workers.remove(i);
        w.client_id = id;
        self.workers.insert(i, w);
        proof {
            assert(final(self).workers@ =~= ws1.update(i as int, final(self).workers@[i as int]));
            lemma_wconn_scan_update(ws1, final(self).workers@, i as int, conn_id);
        }
    }

    /// Marks the worker asleep; it will be roused by the next wake for
    /// one of its functions.
    pub fn pre_sleep(&mut self, conn_id: u64)
        requires
            old(self).wf(),
        ensures
            final(self).wf(),
            ({
                let i = wconn_scan(final(self).workers@, 0, conn_id);
                &&& i < final(self).workers@.len()
                &&& final(self).workers@[i].sleeping == true
                &&& final(self).workers@[i].conn_id == conn_id
                &&& ({
                    let iw = wconn_scan(old(self).workers@, 0, conn_id);
                    iw < old(self).workers@.len() ==> {
                        let w = old(self).workers@[iw];
                        &&& i == iw
                        &&& final(self).workers@.len() == old(self).workers@.len()
                        &&& (forall|k: int|
                            0 <= k < old(self).workers@.len() && k != i ==> #[trigger] final(self).workers@[k] == old(self).workers@[k])
                        &&& final(self).workers@[i].client_id@ == w.client_id@
                        &&& final(self).workers@[i].functions@ == w.functions@
                    }
                })
            }),
    {
        let i = self.ensure_worker(conn_id);
        let ghost ws1 = self.workers@;
        proof {
            lemma_wconn_scan_bounds(ws1, 0, conn_id);
        }
        let mut w = self.workers.remove(i);
        w.sleeping = true;
        self.workers.insert(i, w);
        proof {
            assert(final(self).workers@ =~= ws1.update(i as int, final(self).workers@[i as int]));
            lemma_wconn_scan_update(ws1, final(self).workers@, i as int, conn_id);
        }
    }

    /// Rouses every sleeping worker able to run `f` and says which
    /// connections get the one NOOP each.
    pub fn wake(&mut self, f: &Vec<u8>) -> (r: Vec<u64>)
        requires
            old(self).wf(),
        ensures
            final(self).wf(),
            r@ == woken_ids(old(self).workers@, f@),
            final(self).workers@.len() == old(self).workers@.len(),
            forall|i: int|
                0 <= i < old(self).workers@.len() ==> #[trigger] final(self).workers@[i] == (
                if should_wake(old(self).workers@[i], f@) {
                    woken(old(self).workers@[i])
                } else {
                    old(self).workers@[i]
                }),
    {
        let len = self.workers.len();
        let mut r: Vec<u64> = Vec::new();
        let mut i: usize = 0;
        while i < len
            invariant
                0 <= i <= len,
                len == self.workers@.len(),
                len == old(self).workers@.len(),
                r@ == woken_ids(old(self).workers@.take(i as int), f@),
                forall|k: int|
                    0 <= k < i ==> #[trigger] self.workers@[k] == (if should_wake(
                        old(self).workers@[k],
                        f@,
                    ) {
                        woken(old(self).workers@[k])
                    } else {
                        old(self).workers@[k]
                    }),
                forall|k: int| i <= k < len ==> #[trigger] self.workers@[k] == old(self).workers@[k],
            decreases len - i,
        {
            proof {
                assert(old(self).workers@.take(i as int + 1).drop_last() =~= old(self).workers@.take(i as int));
                assert(old(self).workers@.take(i as int + 1).last() == old(self).workers@[i as int]);
            }
            let has = Self::fn_idx(&self.workers[i].functions, f);
            proof {
                lemma_fn_scan_bounds(self.workers@[i as int].functions@, 0, f@);
            }
            if self.workers[i].sleeping && has < self.workers[i].functions.len() {
                r.push(self.workers[i].conn_id);
                let ghost wsb = self.workers@;
                let mut w = self.workers.remove(i);
                w.sleeping = false;
                self.workers.insert(i, w);
                proof {
                    assert(self.workers@ =~= wsb.update(i as int, self.workers@[i as int]));
                    assert(self.workers@[i as int] == woken(old(self).workers@[i as int]));
                }
            }
            i = i + 1;
        }
        proof {
            assert(old(self).workers@.take(len as int) =~= old(self).workers@);
            assert(final(self).wf()) by {
                assert(forall|a: int|
                    0 <= a < final(self).workers@.len() ==> #[trigger] final(self).workers@[a].conn_id == old(self).workers@[a].conn_id);
            }
        }
        r
    }

    /// Drops the worker record of a closed connection.
    pub fn remove_conn(&mut self, conn_id: u64)
        requires
            old(self).wf(),
        ensures
            final(self).wf(),
            ({
                let i = wconn_scan(old(self).workers@, 0, conn_id);
                if i < old(self).workers@.len() {
                    final(self).workers@ == old(self).workers@.remove(i)
                } else {
                    final(self).workers@ == old(self).workers@
                }
            }),
    {
        let i = self.find(conn_id);
        proof {
            lemma_wconn_scan_bounds(self.workers@, 0, conn_id);
        }
        if i < self.workers.len() {
            let _ = self.workers.remove(i);
        }
    }

    /// A copy of the connection's declared functions, in order.
    pub fn fns_of(&self, conn_id: u64) -> (r: Vec<Vec<u8>>)
        ensures
            ({
                let i = wconn_scan(self.workers@, 0, conn_id);
                if i < self.workers@.len() {
                    crate::queues::views_of(r@) == crate::queues::views_of(
                        self.workers@[i].functions@,
                    )
                } else {
                    r@.len() == 0
                }
            }),
    {
        let i = self.find(conn_id);
        proof {
            lemma_wconn_scan_bounds(self.workers@, 0, conn_id);
        }
        let mut r: Vec<Vec<u8>> = Vec::new();
        if i < self.workers.len() {
            let fs = &self.workers[i].functions;
            let len = fs.len();
            let mut k: usize = 0;
            while k < len
                invariant
                    0 <= k <= len,
                    len == fs@.len(),
                    r@.len() == k,
                    forall|j: int| 0 <= j < k ==> #[trigger] r@[j]@ == fs@[j]@,
                decreases len - k,
            {
                r.push(clone_bytes(&fs[k]));
                k = k + 1;
            }
            proof {
                assert(crate::queues::views_of(r@) =~= crate::queues::views_of(fs@));
            }
        }
        r
    }

    /// How many registered workers declare `f`.
    pub fn count_for(&self, f: &Vec<u8>) -> (r: usize)
        ensures
            r == worker_count(self.workers@, f@),
            r <= self.workers@.len(),
    {
        let len = self.workers.len();
        let mut i: usize = 0;
        let mut r: usize = 0;
        while i < len
            invariant
                0 <= i <= len,
                len == self.workers@.len(),
                r == worker_count(self.workers@.take(i as int), f@),
                r <= i,
            decreases len - i,
        {
            proof {
                assert(self.workers@.take(i as int + 1).drop_last() =~= self.workers@.take(
                    i as int,
                ));
                assert(self.workers@.take(i as int + 1).last() == self.workers@[i as int]);
            }
            let has = Self::fn_idx(&self.workers[i].functions, f);
            proof {
                lemma_fn_scan_bounds(self.workers@[i as int].functions@, 0, f@);
            }
            if has < self.workers[i].functions.len() {
                r = r + 1;
                proof {
                    assert(self.workers@[i as int].functions@[has as int]@ == f@);
                    assert(w_has_fn(self.workers@[i as int], f@));
                }
            } else {
                proof {
                    assert(!w_has_fn(self.workers@[i as int], f@));
                }
            }
            i = i + 1;
        }
        proof {
            assert(self.workers@.take(len as int) =~= self.workers@);
        }
        r
    }
}

/// How many workers in `ws` declare the ability `f`.
pub open spec fn worker_count(ws: Seq<Worker>, f: Seq<u8>) -> int
    decreases ws.len(),
{
    if ws.len() == 0 {
        0
    } else {
        worker_count(ws.drop_last(), f) + if w_has_fn(ws.last(), f) {
            1int
        } else {
            0int
        }
    }
}

/// A scan for `c` that failed over a prefix still fails over the prefix
/// of the extended sequence.
pub proof fn lemma_wconn_scan_same_prefix(ws: Seq<Worker>, ws2: Seq<Worker>, c: u64)
    requires
        wconn_scan(ws, 0, c) == ws.len(),
        ws2.len() == ws.len() + 1,
        ws2.take(ws.len() as int) == ws,
        ws2.last().conn_id == c,
    ensures
        wconn_scan(ws2, 0, c) == ws.len(),
{
    lemma_wconn_scan_bounds(ws, 0, c);
    lemma_wconn_scan_bounds(ws2, 0, c);
    if wconn_scan(ws2, 0, c) < ws.len() {
        assert(ws[wconn_scan(ws2, 0, c)].conn_id == c);
    }
    assert(forall|k: int| 0 <= k < ws.len() ==> #[trigger] ws2[k].conn_id != c);
    if wconn_scan(ws2, 0, c) > ws.len() {
        assert(ws2[ws.len() as int].conn_id != c);
    }
}

/// Updating a record in place, keeping its connection id, moves no scan.
pub proof fn lemma_wconn_scan_update(ws: Seq<Worker>, ws2: Seq<Worker>, i: int, c: u64)
    requires
        0 <= i < ws.len(),
        ws2 == ws.update(i, ws2[i]),
        ws2.len() == ws.len(),
        ws[i].conn_id == c,
        ws2[i].conn_id == c,
        wconn_scan(ws, 0, c) == i,
    ensures
        wconn_scan(ws2, 0, c) == i,
{
    lemma_wconn_scan_bounds(ws, 0, c);
    lemma_wconn_scan_bounds(ws2, 0, c);
    if wconn_scan(ws2, 0, c) < i {
        assert(ws[wconn_scan(ws2, 0, c)].conn_id == c);
    }
    if wconn_scan(ws2, 0, c) > i {
        assert(ws2[i].conn_id != c);
    }
}

/// The record other connections see, unchanged across an update at `k`'s
/// own slot; a helper to phrase frame-level contracts.
pub open spec fn wconn_preserved(ws: Seq<Worker>, k: int) -> Worker
    recommends
        0 <= k < ws.len(),
{
    ws[k]
}

} // verus!
