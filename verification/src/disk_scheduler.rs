//! The disk scheduler: a FIFO request queue drained by a single worker
//! that dispatches each request to the disk manager and reports one
//! completion per request, in submission order.
//!
//! A request owns its page-sized buffer; the completion hands the buffer
//! back together with the success flag, so no caller memory is shared
//! while a request is in flight. The concurrent shell runs the worker on
//! its own thread and delivers each completion through the request's
//! one-shot callback channel; the dispatch decisions and the ordering are
//! all verified here. The queue carries `Option<DiskRequest>`: `None` is
//! the shutdown sentinel that makes the worker exit.

use vstd::prelude::*;

use crate::channel::Channel;
use crate::config::{PageId, DOCKBASE_PAGE_SIZE};
use crate::disk_manager::{DiskManager, DiskModel};
use crate::exception::Exception;

verus! {

/// The two operations a request can ask for.
pub enum RequestType {
    Read,
    Write,
}

/// One I/O request: the operation, the target page, and the caller's
/// page-sized buffer, owned by the scheduler while the request is in
/// flight.
pub struct DiskRequest {
    pub request_type: RequestType,
    pub page_id: PageId,
    pub data: Vec<u8>,
}

/// The outcome of one request: whether it succeeded, and the buffer
/// handed back (holding the page's bytes after a successful read).
pub struct Completion {
    pub success: bool,
    pub data: Vec<u8>,
}

/// A request is well-formed when its buffer is exactly one page.
pub open spec fn request_wf(r: DiskRequest) -> bool {
    r.data@.len() == DOCKBASE_PAGE_SIZE
}

/// The outcome of executing one request against a disk-manager state:
/// the next state, the success flag, and the bytes of the handed-back
/// buffer.
pub open spec fn execute_tr(m: DiskModel, r: DiskRequest) -> (DiskModel, bool, Seq<u8>) {
    match r.request_type {
        RequestType::Read => {
            if m.meta.pages.contains_key(r.page_id) {
                (m, true, m.page_content(r.page_id))
            } else {
                (m, false, r.data@)
            }
        },
        RequestType::Write => {
            if m.write_succeeds(r.page_id) {
                (m.write_page_tr(r.page_id, r.data@), true, r.data@)
            } else {
                (m, false, r.data@)
            }
        },
    }
}

/// Executing a request sequence in order: the final state and the
/// completion outcomes, one per request, in submission order.
pub open spec fn run_tr(m: DiskModel, reqs: Seq<DiskRequest>) -> (DiskModel, Seq<(bool, Seq<u8>)>)
    decreases reqs.len(),
{
    if reqs.len() == 0 {
        (m, Seq::empty())
    } else {
        let (m1, ok, bytes) = execute_tr(m, reqs[0]);
        let (m2, rest) = run_tr(m1, reqs.drop_first());
        (m2, seq![(ok, bytes)] + rest)
    }
}

/// The requests before the first shutdown sentinel in the queue.
pub open spec fn live_prefix(q: Seq<Option<DiskRequest>>) -> Seq<DiskRequest>
    decreases q.len(),
{
    if q.len() == 0 {
        Seq::empty()
    } else {
        match q[0] {
            Option::Some(r) => seq![r] + live_prefix(q.drop_first()),
            Option::None => Seq::empty(),
        }
    }
}

/// The live prefix is never longer than the queue.
proof fn lemma_live_prefix_len(q: Seq<Option<DiskRequest>>)
    ensures
        live_prefix(q).len() <= q.len(),
    decreases q.len(),
{
    if q.len() > 0 {
        match q[0] {
            Option::Some(r) => lemma_live_prefix_len(q.drop_first()),
            Option::None => {},
        }
    }
}

/// What remains of the queue once the worker has consumed the live
/// prefix and, if present, the sentinel that ended it.
pub open spec fn after_prefix(q: Seq<Option<DiskRequest>>) -> Seq<Option<DiskRequest>> {
    if live_prefix(q).len() == q.len() {
        Seq::empty()
    } else {
        q.skip(live_prefix(q).len() as int + 1)
    }
}

/// The exec completions match the spec outcomes pointwise.
pub open spec fn completions_match(results: Seq<Completion>, outs: Seq<(bool, Seq<u8>)>) -> bool {
    &&& results.len() == outs.len()
    &&& forall|i: int|
        0 <= i < results.len() ==> (#[trigger] results[i]).success == outs[i].0 && results[i].data@
            == outs[i].1
}

/// `Some`-wrapping of a request sequence, as `schedule` enqueues it.
pub open spec fn queued(s: Seq<DiskRequest>) -> Seq<Option<DiskRequest>> {
    Seq::new(s.len(), |i: int| Some(s[i]))
}

/// The disk scheduler: a disk manager and the FIFO queue its worker
/// drains.
pub struct DiskScheduler {
    disk_manager: DiskManager,
    request_queue: Channel<Option<DiskRequest>>,
}

impl DiskScheduler {
    /// The queued entries, oldest first.
    pub closed spec fn queue(&self) -> Seq<Option<DiskRequest>> {
        self.request_queue@
    }

    /// The model of the owned disk manager.
    pub closed spec fn manager(&self) -> DiskModel {
        self.disk_manager@
    }

    /// The scheduler invariant: the manager's invariant, and a page-sized
    /// buffer in every queued request.
    pub closed spec fn wf(&self) -> bool {
        &&& self.disk_manager.wf()
        &&& forall|i: int|
            0 <= i < self.request_queue@.len() ==> ((#[trigger] self.request_queue@[i])
                matches Some(r) ==> request_wf(r))
    }

    /// Creates a scheduler over `disk_manager` with an empty queue. The
    /// concurrent shell also spawns the worker thread here.
    pub fn new(disk_manager: DiskManager) -> (s: DiskScheduler)
        requires
            disk_manager.wf(),
        ensures
            s.wf(),
            s.manager() == disk_manager@,
            s.queue() == Seq::<Option<DiskRequest>>::empty(),
    {
        DiskScheduler { disk_manager, request_queue: Channel::new() }
    }

    /// Borrows the owned disk manager, e.g. to read its statistics.
    pub fn disk_manager(&self) -> (m: &DiskManager)
        ensures
            m@ == self.manager(),
            self.wf() ==> m.wf(),
    {
        &self.disk_manager
    }

    /// Enqueues the given requests in order. Returns once all are
    /// enqueued; completions are reported by the worker, not here.
    pub fn schedule(&mut self, requests: Vec<DiskRequest>) -> (r: Result<(), Exception>)
        requires
            old(self).wf(),
            forall|i: int| 0 <= i < requests@.len() ==> request_wf(#[trigger] requests@[i]),
        ensures
            final(self).wf(),
            r.is_ok(),
            final(self).manager() == old(self).manager(),
            final(self).queue() == old(self).queue() + queued(requests@),
    {
        let ghost orig = requests@;
        let mut requests = requests;
        let mut rev: Vec<DiskRequest> = Vec::new();
        while requests.len() > 0
            invariant
                requests@.len() + rev@.len() == orig.len(),
                requests@ == orig.take(requests@.len() as int),
                forall|i: int|
                    0 <= i < rev@.len() ==> #[trigger] rev@[i] == orig[orig.len() - 1 - i],
            decreases requests@.len(),
        {
            let req = requests.pop().unwrap();
            rev.push(req);
        }
        while rev.len() > 0
            invariant
                old(self).wf(),
                self.disk_manager == old(self).disk_manager,
                rev@.len() <= orig.len(),
                forall|i: int|
                    0 <= i < rev@.len() ==> #[trigger] rev@[i] == orig[orig.len() - 1 - i],
                forall|i: int| 0 <= i < orig.len() ==> request_wf(#[trigger] orig[i]),
                self.request_queue@ == old(self).queue() + queued(
                    orig.take(orig.len() - rev@.len()),
                ),
            decreases rev@.len(),
        {
            let ghost processed = orig.len() - rev@.len();
            let req = rev.pop().unwrap();
            let _ = self.request_queue.put(Some(req));
            proof {
                assert(self.request_queue@ =~= old(self).queue() + queued(
                    orig.take(processed + 1),
                ));
            }
        }
        proof {
            assert(orig.take(orig.len() as int) =~= orig);
            assert(self.request_queue@ =~= old(self).queue() + queued(orig));
        }
        Ok(())
    }

    /// Enqueues the shutdown sentinel: the worker exits once it reaches
    /// it. The concurrent shell enqueues it on drop and then joins the
    /// worker thread.
    pub fn shut_down(&mut self) -> (r: Result<(), Exception>)
        requires
            old(self).wf(),
        ensures
            final(self).wf(),
            r.is_ok(),
            final(self).manager() == old(self).manager(),
            final(self).queue() == old(self).queue().push(None::<DiskRequest>),
    {
        self.request_queue.put(None)
    }

    /// The worker loop: dequeues until the queue is empty or a sentinel
    /// is reached, dispatches each request to the disk manager, and
    /// returns the completions in submission order. The concurrent shell
    /// runs this loop on the worker thread, blocking on an empty queue
    /// instead of returning.
    pub fn run_worker(&mut self) -> (results: Vec<Completion>)
        requires
            old(self).wf(),
        ensures
            final(self).wf(),
            final(self).manager() == run_tr(old(self).manager(), live_prefix(old(self).queue())).0,
            completions_match(
                results@,
                run_tr(old(self).manager(), live_prefix(old(self).queue())).1,
            ),
            final(self).queue() == after_prefix(old(self).queue()),
    {
        let ghost m0 = old(self).manager();
        let ghost q0 = old(self).queue();
        let ghost total = run_tr(m0, live_prefix(q0)).1;
        let mut results: Vec<Completion> = Vec::new();
        let mut stopped = false;
        while !stopped && self.request_queue.len() > 0
            invariant
                self.wf(),
                completions_match(results@, total.take(results@.len() as int)),
                total == run_tr(m0, live_prefix(q0)).1,
                !stopped ==> run_tr(self.manager(), live_prefix(self.queue())).0 == run_tr(
                    m0,
                    live_prefix(q0),
                ).0,
                !stopped ==> results@.len() + run_tr(
                    self.manager(),
                    live_prefix(self.queue()),
                ).1.len() == total.len(),
                !stopped ==> run_tr(self.manager(), live_prefix(self.queue())).1 == total.skip(
                    results@.len() as int,
                ),
                !stopped ==> after_prefix(self.queue()) == after_prefix(q0),
                stopped ==> results@.len() == total.len() && self.manager() == run_tr(
                    m0,
                    live_prefix(q0),
                ).0 && self.queue() == after_prefix(q0),
            decreases self.queue().len() + (if stopped { 0int } else { 1int }),
        {
            let ghost q_pre = self.queue();
            let ghost m_pre = self.manager();
            let ghost done = results@.len() as int;
            let next = match self.request_queue.get() {
                Ok(n) => n,
                Err(_) => {
                    proof {
                        assert(false);
                    }
                    None
                },
            };
            match next {
                Some(request) => {
                    proof {
                        assert(live_prefix(q_pre) =~= seq![request] + live_prefix(self.queue()));
                        assert(live_prefix(q_pre)[0] == request);
                        assert(live_prefix(q_pre).drop_first() =~= live_prefix(self.queue()));
                        assert(live_prefix(q_pre).len() > 0);
                        assert(live_prefix(q_pre).len() == 1 + live_prefix(self.queue()).len());
                        assert(q_pre.len() == 1 + self.queue().len());
                        if live_prefix(q_pre).len() == q_pre.len() {
                            assert(live_prefix(self.queue()).len() == self.queue().len());
                            assert(after_prefix(q_pre) =~= after_prefix(self.queue()));
                        } else {
                            lemma_live_prefix_len(self.queue());
                            assert(live_prefix(self.queue()).len() < self.queue().len());
                            assert(after_prefix(q_pre) == q_pre.skip(
                                live_prefix(q_pre).len() as int + 1,
                            ));
                            assert(after_prefix(q_pre) =~= self.queue().skip(
                                live_prefix(self.queue()).len() as int + 1,
                            ));
                            assert(after_prefix(q_pre) == after_prefix(self.queue()));
                        }
                    }
                    let ghost step = execute_tr(m_pre, request);
                    let DiskRequest { request_type, page_id, mut data } = request;
                    let success = match request_type {
                        RequestType::Read => {
                            let r = self.disk_manager.read_page(page_id, data.as_mut_slice());
                            r.is_ok()
                        },
                        RequestType::Write => {
                            let r = self.disk_manager.write_page(page_id, data.as_slice());
                            r.is_ok()
                        },
                    };
                    proof {
                        assert(self.manager() == step.0);
                        assert(success == step.1);
                        assert(data@ == step.2);
                        assert(run_tr(m_pre, live_prefix(q_pre)).1 == seq![(step.1, step.2)]
                            + run_tr(step.0, live_prefix(self.queue())).1);
                        assert(total.skip(done) == run_tr(m_pre, live_prefix(q_pre)).1);
                        assert(run_tr(m_pre, live_prefix(q_pre)).1.len() > 0);
                        assert(done < total.len());
                        assert(total[done] == total.skip(done)[0]);
                        assert(total[done] == (step.1, step.2));
                    }
                    results.push(Completion { success, data });
                    proof {
                        assert(total.take(done + 1) =~= total.take(done).push(total[done]));
                        assert(total.skip(done).drop_first() =~= total.skip(done + 1));
                        assert(run_tr(self.manager(), live_prefix(self.queue())).1 == total.skip(
                            done + 1,
                        ));
                    }
                },
                None => {
                    stopped = true;
                    proof {
                        assert(live_prefix(q_pre) =~= Seq::<DiskRequest>::empty());
                        assert(run_tr(m_pre, live_prefix(q_pre)).1 =~= Seq::<(
                            bool,
                            Seq<u8>,
                        )>::empty());
                        assert(results@.len() == total.len());
                        assert(live_prefix(q_pre).len() < q_pre.len());
                        assert(after_prefix(q_pre) =~= q_pre.skip(1));
                        assert(self.queue() == after_prefix(q0));
                    }
                },
            }
        }
        proof {
            assert(total.take(results@.len() as int) =~= total);
            if !stopped {
                assert(self.queue().len() == 0);
                assert(live_prefix(self.queue()) =~= Seq::<DiskRequest>::empty());
                assert(results@.len() == total.len());
                assert(after_prefix(q0) =~= self.queue());
            }
        }
        results
    }
}

/// Law: the worker completes requests in submission order: a run yields
/// exactly one completion per request, and the i-th completion is the
/// outcome of the i-th request against the state its predecessors left.
pub proof fn lemma_completions_in_order(m: DiskModel, reqs: Seq<DiskRequest>)
    ensures
        run_tr(m, reqs).1.len() == reqs.len(),
        forall|i: int|
            0 <= i < reqs.len() ==> #[trigger] run_tr(m, reqs).1[i] == (
            execute_tr(run_tr(m, reqs.take(i)).0, reqs[i]).1,
            execute_tr(run_tr(m, reqs.take(i)).0, reqs[i]).2,
            ),
    decreases reqs.len(),
{
    if reqs.len() > 0 {
        let (m1, ok, bytes) = execute_tr(m, reqs[0]);
        lemma_completions_in_order(m1, reqs.drop_first());
        assert forall|i: int| 0 <= i < reqs.len() implies #[trigger] run_tr(m, reqs).1[i] == (
        execute_tr(run_tr(m, reqs.take(i)).0, reqs[i]).1,
        execute_tr(run_tr(m, reqs.take(i)).0, reqs[i]).2,
        ) by {
            if i == 0 {
                assert(reqs.take(0) =~= Seq::<DiskRequest>::empty());
            } else {
                assert(reqs.drop_first().take(i - 1) =~= reqs.take(i).drop_first());
                assert(run_tr(m, reqs.take(i)).0 == run_tr(m1, reqs.drop_first().take(i - 1)).0);
                assert(run_tr(m, reqs).1[i] == run_tr(m1, reqs.drop_first()).1[i - 1]);
                assert(reqs.drop_first()[i - 1] == reqs[i]);
            }
        }
    }
}

} // verus!
