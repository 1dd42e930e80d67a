//! The dispatcher: one gate shared by one handler per request, and the
//! results collected in request order.
use vstd::prelude::*;
use crate::gate::{Gate, GateView};
use crate::handler::{backoff_spec, Handler, HandlerView, Phase};

verus! {

/// A batch of requests `1..=n` that share one gate.
pub struct Dispatch {
    gate: Gate,
    handlers: Vec<Handler>,
}

/// What a batch is: its gate, and the handler of request `i + 1` at index `i`.
pub ghost struct DispatchView {
    pub gate: GateView,
    pub handlers: Seq<HandlerView>,
}

/// What the runtime reports to a batch.
pub ghost enum Event {
    /// The request asks for admission to make its call.
    Admit(nat),
    /// The request's call returned this payload.
    Complete(nat, Seq<char>),
    /// The request's call failed.
    Fail(nat),
    /// The request's backoff elapsed.
    Resume(nat),
}

/// How many of the handlers are in the middle of an attempt.
pub open spec fn count_attempting(hs: Seq<HandlerView>) -> nat
    decreases hs.len(),
{
    if hs.len() == 0 {
        0
    } else {
        count_attempting(hs.drop_last()) + if hs.last().phase == Phase::Attempting {
            1nat
        } else {
            0nat
        }
    }
}

impl DispatchView {
    /// A new batch of `n` requests sharing a gate of `capacity` slots.
    pub open spec fn init(n: nat, capacity: nat) -> DispatchView {
        DispatchView {
            gate: GateView { capacity, held: 0 },
            handlers: Seq::new(n, |i: int| HandlerView::fresh((i + 1) as nat)),
        }
    }

    /// Its gate holds one admission for each request in the middle of an attempt,
    /// and handler `i` serves request `i + 1`.
    pub open spec fn wf(self) -> bool {
        &&& self.gate.wf()
        &&& self.gate.held == count_attempting(self.handlers)
        &&& forall|i: int|
            0 <= i < self.handlers.len() ==> (#[trigger] self.handlers[i]).request_id == i + 1
                && self.handlers[i].wf()
    }

    pub open spec fn has(self, id: nat) -> bool {
        1 <= id <= self.handlers.len()
    }

    pub open spec fn handler(self, id: nat) -> HandlerView {
        self.handlers[id - 1]
    }

    /// The number of calls in flight.
    pub open spec fn in_flight(self) -> nat {
        count_attempting(self.handlers)
    }

    pub open spec fn can_admit(self, id: nat) -> bool {
        &&& self.has(id)
        &&& self.handler(id).phase == Phase::Pending
        &&& self.gate.can_admit()
    }

    pub open spec fn can_complete(self, id: nat) -> bool {
        &&& self.has(id)
        &&& self.handler(id).phase == Phase::Attempting
    }

    pub open spec fn can_fail(self, id: nat) -> bool {
        &&& self.has(id)
        &&& self.handler(id).can_fail()
    }

    pub open spec fn can_resume(self, id: nat) -> bool {
        &&& self.has(id)
        &&& self.handler(id).phase == Phase::BackingOff
    }

    /// The batch after one event. An event that does not apply changes nothing.
    pub open spec fn step(self, e: Event) -> DispatchView {
        match e {
            Event::Admit(id) => if self.can_admit(id) {
                DispatchView {
                    gate: self.gate.acquired(),
                    handlers: self.handlers.update(id - 1, self.handler(id).begun()),
                }
            } else {
                self
            },
            Event::Complete(id, p) => if self.can_complete(id) {
                DispatchView {
                    gate: self.gate.released(),
                    handlers: self.handlers.update(id - 1, self.handler(id).succeeded(p)),
                }
            } else {
                self
            },
            Event::Fail(id) => if self.can_fail(id) {
                DispatchView {
                    gate: self.gate.released(),
                    handlers: self.handlers.update(id - 1, self.handler(id).failed()),
                }
            } else {
                self
            },
            Event::Resume(id) => if self.can_resume(id) {
                DispatchView {
                    gate: self.gate,
                    handlers: self.handlers.update(id - 1, self.handler(id).resumed()),
                }
            } else {
                self
            },
        }
    }

    /// The batch after a sequence of events, in order.
    pub open spec fn run(self, evs: Seq<Event>) -> DispatchView
        decreases evs.len(),
    {
        if evs.len() == 0 {
            self
        } else {
            self.run(evs.drop_last()).step(evs.last())
        }
    }

    pub open spec fn all_succeeded(self) -> bool {
        forall|i: int| 0 <= i < self.handlers.len() ==> (#[trigger] self.handlers[i]).phase == Phase::Succeeded
    }

    /// The payloads, in request order.
    pub open spec fn results(self) -> Seq<Seq<char>> {
        self.handlers.map_values(|h: HandlerView| h.payload->Some_0)
    }
}

/// Replacing one handler changes the count of attempts by what the old and new one contribute.
proof fn lemma_count_update(hs: Seq<HandlerView>, i: int, h: HandlerView)
    requires
        0 <= i < hs.len(),
    ensures
        count_attempting(hs.update(i, h)) + (if hs[i].phase == Phase::Attempting { 1int } else { 0int })
            == count_attempting(hs) + (if h.phase == Phase::Attempting { 1int } else { 0int }),
    decreases hs.len(),
{
    let hs2 = hs.update(i, h);
    if i < hs.len() - 1 {
        assert(hs2.drop_last() == hs.drop_last().update(i, h));
        lemma_count_update(hs.drop_last(), i, h);
    } else {
        assert(hs2.drop_last() == hs.drop_last());
    }
}

/// Every event keeps a batch well formed.
proof fn lemma_step_wf(d: DispatchView, e: Event)
    requires
        d.wf(),
    ensures
        d.step(e).wf(),
{
    let d2 = d.step(e);
    match e {
        Event::Admit(id) => if d.can_admit(id) {
            lemma_count_update(d.handlers, id - 1, d.handler(id).begun());
        },
        Event::Complete(id, p) => if d.can_complete(id) {
            lemma_count_update(d.handlers, id - 1, d.handler(id).succeeded(p));
        },
        Event::Fail(id) => if d.can_fail(id) {
            lemma_count_update(d.handlers, id - 1, d.handler(id).failed());
        },
        Event::Resume(id) => if d.can_resume(id) {
            lemma_count_update(d.handlers, id - 1, d.handler(id).resumed());
        },
    }
    assert forall|i: int| 0 <= i < d2.handlers.len() implies (#[trigger] d2.handlers[i]).request_id
        == i + 1 && d2.handlers[i].wf() by {
        assert(d.handlers[i].request_id == i + 1 && d.handlers[i].wf());
    }
}

/// A new batch holds no admission and no attempt.
proof fn lemma_count_fresh(hs: Seq<HandlerView>)
    requires
        forall|i: int| 0 <= i < hs.len() ==> (#[trigger] hs[i]).phase == Phase::Pending,
    ensures
        count_attempting(hs) == 0,
    decreases hs.len(),
{
    if hs.len() > 0 {
        lemma_count_fresh(hs.drop_last());
    }
}

proof fn lemma_init_wf(n: nat, capacity: nat)
    requires
        capacity >= 1,
    ensures
        DispatchView::init(n, capacity).wf(),
{
    lemma_count_fresh(DispatchView::init(n, capacity).handlers);
}

/// Whatever the events and in whatever order they come, a batch stays well formed.
proof fn lemma_run_wf(n: nat, capacity: nat, evs: Seq<Event>)
    requires
        capacity >= 1,
    ensures
        DispatchView::init(n, capacity).run(evs).wf(),
    decreases evs.len(),
{
    if evs.len() == 0 {
        lemma_init_wf(n, capacity);
    } else {
        lemma_run_wf(n, capacity, evs.drop_last());
        lemma_step_wf(DispatchView::init(n, capacity).run(evs.drop_last()), evs.last());
    }
}

/// Across any interleaving of admissions, completions, failures and backoffs,
/// the count of admissions its gate holds stays between zero and its capacity.
pub proof fn lemma_admissions_within_capacity(n: nat, capacity: nat, evs: Seq<Event>)
    requires
        capacity >= 1,
    ensures
        0 <= DispatchView::init(n, capacity).run(evs).gate.held <= capacity,
        DispatchView::init(n, capacity).run(evs).gate.capacity == capacity,
{
    lemma_run_wf(n, capacity, evs);
    lemma_run_capacity(n, capacity, evs);
}

proof fn lemma_run_capacity(n: nat, capacity: nat, evs: Seq<Event>)
    ensures
        DispatchView::init(n, capacity).run(evs).gate.capacity == capacity,
    decreases evs.len(),
{
    if evs.len() > 0 {
        lemma_run_capacity(n, capacity, evs.drop_last());
    }
}

/// For every capacity and number of requests, and across any interleaving of
/// events, no more calls are in flight than its gate has slots.
pub proof fn lemma_in_flight_within_capacity(n: nat, capacity: nat, evs: Seq<Event>)
    requires
        n >= 1,
        capacity >= 1,
    ensures
        DispatchView::init(n, capacity).run(evs).in_flight() <= capacity,
{
    lemma_admissions_within_capacity(n, capacity, evs);
    lemma_run_wf(n, capacity, evs);
}

/// The request `id` reported the payload `p` at some point of `evs`.
pub open spec fn reported(evs: Seq<Event>, id: nat, p: Seq<char>) -> bool {
    exists|k: int| 0 <= k < evs.len() && evs[k] == Event::Complete(id, p)
}

/// A batch keeps its requests, and each payload it holds was reported by its own request.
proof fn lemma_run_payloads(n: nat, capacity: nat, evs: Seq<Event>)
    requires
        capacity >= 1,
    ensures
        DispatchView::init(n, capacity).run(evs).handlers.len() == n,
        forall|i: int|
            0 <= i < n ==> (#[trigger] DispatchView::init(n, capacity).run(evs).handlers[i]).payload
                is Some ==> reported(
                evs,
                (i + 1) as nat,
                DispatchView::init(n, capacity).run(evs).handlers[i].payload->Some_0,
            ),
    decreases evs.len(),
{
    if evs.len() > 0 {
        let pre = evs.drop_last();
        lemma_run_payloads(n, capacity, pre);
        lemma_run_wf(n, capacity, pre);
        let d = DispatchView::init(n, capacity).run(pre);
        let d2 = d.step(evs.last());
        assert forall|i: int| 0 <= i < n && (#[trigger] d2.handlers[i]).payload is Some implies reported(
            evs,
            (i + 1) as nat,
            d2.handlers[i].payload->Some_0,
        ) by {
            if d2.handlers[i] == d.handlers[i] {
                let k = choose|k: int| 0 <= k < pre.len() && pre[k] == Event::Complete(
                    (i + 1) as nat,
                    d.handlers[i].payload->Some_0,
                );
                assert(evs[k] == pre[k]);
            } else {
                assert(evs[evs.len() - 1] == evs.last());
            }
        }
    }
}

/// Whatever order the requests succeed in, once all of them have succeeded the
/// results hold exactly `n` payloads in request order: the one at index `i` is
/// the payload that request `i + 1` reported.
pub proof fn lemma_results_in_request_order(n: nat, capacity: nat, evs: Seq<Event>)
    requires
        capacity >= 1,
    ensures
        DispatchView::init(n, capacity).run(evs).all_succeeded() ==> {
            let r = DispatchView::init(n, capacity).run(evs).results();
            &&& r.len() == n
            &&& forall|i: int| 0 <= i < n ==> reported(evs, (i + 1) as nat, #[trigger] r[i])
        },
{
    lemma_run_payloads(n, capacity, evs);
    lemma_run_wf(n, capacity, evs);
    let d = DispatchView::init(n, capacity).run(evs);
    if d.all_succeeded() {
        assert forall|i: int| 0 <= i < n implies reported(evs, (i + 1) as nat, #[trigger] d.results()[i]) by {
            assert(d.handlers[i].phase == Phase::Succeeded);
        }
    }
}

impl View for Dispatch {
    type V = DispatchView;

    closed spec fn view(&self) -> DispatchView {
        DispatchView { gate: self.gate@, handlers: self.handlers@.map_values(|h: Handler| h@) }
    }
}

impl Dispatch {
    /// A batch of requests `1..=total_requests`, all pending, sharing a gate of
    /// `concurrency_limit` slots.
    pub fn new(total_requests: usize, concurrency_limit: usize) -> (d: Dispatch)
        requires
            total_requests >= 1,
            concurrency_limit >= 1,
        ensures
            d@ == DispatchView::init(total_requests as nat, concurrency_limit as nat),
            d@.wf(),
    {
        let mut handlers: Vec<Handler> = Vec::new();
        let mut i: usize = 0;
        while i < total_requests
            invariant
                i <= total_requests,
                handlers@.len() == i,
                forall|j: int| 0 <= j < i ==> (#[trigger] handlers@[j])@ == HandlerView::fresh((j + 1) as nat),
            decreases total_requests - i,
        {
            handlers.push(Handler::new(i + 1));
            i = i + 1;
        }
        let d = Dispatch { gate: Gate::new(concurrency_limit), handlers };
        assert(d@.handlers == DispatchView::init(total_requests as nat, concurrency_limit as nat).handlers);
        proof {
            lemma_init_wf(total_requests as nat, concurrency_limit as nat);
        }
        d
    }

    /// The number of requests in the batch.
    pub fn total_requests(&self) -> (r: usize)
        ensures
            r == self@.handlers.len(),
    {
        self.handlers.len()
    }

    pub fn capacity(&self) -> (r: usize)
        ensures
            r == self@.gate.capacity,
    {
        self.gate.capacity()
    }

    /// The number of calls in flight: requests admitted and not yet finished with their attempt.
    pub fn in_flight(&self) -> (r: usize)
        requires
            self@.wf(),
        ensures
            r == self@.in_flight(),
            r <= self@.gate.capacity,
    {
        self.gate.held()
    }

    /// Where request `request_id` stands, if the batch has it.
    pub fn phase(&self, request_id: usize) -> (r: Option<Phase>)
        ensures
            r is Some <==> self@.has(request_id as nat),
            r is Some ==> r->Some_0 == self@.handler(request_id as nat).phase,
    {
        if 1 <= request_id && request_id <= self.handlers.len() {
            Some(self.handlers[request_id - 1].phase())
        } else {
            None
        }
    }

    /// How many attempts of request `request_id` have failed, if the batch has it.
    pub fn attempt_count(&self, request_id: usize) -> (r: Option<u32>)
        ensures
            r is Some <==> self@.has(request_id as nat),
            r is Some ==> r->Some_0 == self@.handler(request_id as nat).attempt_count,
    {
        if 1 <= request_id && request_id <= self.handlers.len() {
            Some(self.handlers[request_id - 1].attempt_count())
        } else {
            None
        }
    }

    /// Admits request `request_id` to make its call where it is pending and a
    /// slot is free; tells whether it did.
    pub fn try_admit(&mut self, request_id: usize) -> (admitted: bool)
        requires
            old(self)@.wf(),
        ensures
            admitted == old(self)@.can_admit(request_id as nat),
            final(self)@ == old(self)@.step(Event::Admit(request_id as nat)),
            final(self)@.wf(),
    {
        proof {
            lemma_step_wf(self@, Event::Admit(request_id as nat));
        }
        if 1 <= request_id && request_id <= self.handlers.len()
            && self.handlers[request_id - 1].phase() == Phase::Pending && self.gate.held()
            < self.gate.capacity() {
            self.gate.try_acquire();
            self.handlers[request_id - 1].begin_attempt();
            assert(self@.handlers =~= old(self)@.step(Event::Admit(request_id as nat)).handlers);
            true
        } else {
            false
        }
    }

    /// Records the payload that the call of request `request_id` returned and
    /// frees its slot; tells whether the request had a call in flight.
    pub fn complete(&mut self, request_id: usize, payload: String) -> (done: bool)
        requires
            old(self)@.wf(),
        ensures
            done == old(self)@.can_complete(request_id as nat),
            final(self)@ == old(self)@.step(Event::Complete(request_id as nat, payload@)),
            final(self)@.wf(),
    {
        proof {
            lemma_step_wf(self@, Event::Complete(request_id as nat, payload@));
            if old(self)@.can_complete(request_id as nat) {
                lemma_attempting_held(self@, request_id as nat);
            }
        }
        if 1 <= request_id && request_id <= self.handlers.len()
            && self.handlers[request_id - 1].phase() == Phase::Attempting {
            self.gate.release();
            self.handlers[request_id - 1].succeed(payload);
            assert(self@.handlers =~= old(self)@.step(Event::Complete(request_id as nat, payload@)).handlers);
            true
        } else {
            false
        }
    }

    /// Records that the call of request `request_id` failed and frees its slot;
    /// returns the backoff in seconds, `2^n` for the request's `n`-th failure.
    /// `None` where the request has no call in flight or the backoff would not
    /// fit in a `u64`; the batch is then unchanged.
    pub fn fail(&mut self, request_id: usize) -> (backoff: Option<u64>)
        requires
            old(self)@.wf(),
        ensures
            backoff is Some <==> old(self)@.can_fail(request_id as nat),
            final(self)@ == old(self)@.step(Event::Fail(request_id as nat)),
            final(self)@.wf(),
            backoff is Some ==> backoff->Some_0 == backoff_spec(
                final(self)@.handler(request_id as nat).attempt_count,
            ),
    {
        proof {
            lemma_step_wf(self@, Event::Fail(request_id as nat));
            if old(self)@.can_complete(request_id as nat) {
                lemma_attempting_held(self@, request_id as nat);
            }
        }
        if 1 <= request_id && request_id <= self.handlers.len() {
            if self.handlers[request_id - 1].phase() == Phase::Attempting {
                let backoff = self.handlers[request_id - 1].fail();
                if backoff.is_some() {
                    self.gate.release();
                }
                assert(self@.handlers =~= old(self)@.step(Event::Fail(request_id as nat)).handlers);
                return backoff;
            }
        }
        None
    }

    /// Ends the backoff of request `request_id`, which then waits for admission
    /// again; tells whether it was backing off.
    pub fn resume(&mut self, request_id: usize) -> (resumed: bool)
        requires
            old(self)@.wf(),
        ensures
            resumed == old(self)@.can_resume(request_id as nat),
            final(self)@ == old(self)@.step(Event::Resume(request_id as nat)),
            final(self)@.wf(),
    {
        proof {
            lemma_step_wf(self@, Event::Resume(request_id as nat));
        }
        if 1 <= request_id && request_id <= self.handlers.len() {
            let resumed = self.handlers[request_id - 1].resume();
            assert(self@.handlers =~= old(self)@.step(Event::Resume(request_id as nat)).handlers);
            resumed
        } else {
            false
        }
    }

    /// The payloads in request order once every request has succeeded; `None` before that.
    pub fn results(&self) -> (r: Option<Vec<String>>)
        requires
            self@.wf(),
        ensures
            r is Some <==> self@.all_succeeded(),
            r is Some ==> r->Some_0@.map_values(|s: String| s@) == self@.results(),
            r is Some ==> r->Some_0@.len() == self@.handlers.len(),
            r is Some ==> forall|i: int|
                0 <= i < self@.handlers.len() ==> (#[trigger] r->Some_0@[i])@
                    == self@.handlers[i].payload->Some_0,
    {
        let mut out: Vec<String> = Vec::new();
        let mut i: usize = 0;
        while i < self.handlers.len()
            invariant
                self@.wf(),
                i <= self.handlers@.len(),
                out@.len() == i,
                forall|j: int| 0 <= j < i ==> (#[trigger] self@.handlers[j]).phase == Phase::Succeeded,
                forall|j: int| 0 <= j < i ==> (#[trigger] out@[j])@ == self@.results()[j],
            decreases self.handlers@.len() - i,
        {
            match self.handlers[i].payload() {
                Some(p) => {
                    out.push(p);
                },
                None => {
                    assert(self@.handlers[i as int].wf());
                    return None;
                },
            }
            i = i + 1;
        }
        assert(out@.map_values(|s: String| s@) =~= self@.results());
        Some(out)
    }
}

/// A request in the middle of an attempt holds one of its gate's admissions.
proof fn lemma_attempting_held(d: DispatchView, id: nat)
    requires
        d.wf(),
        d.has(id),
        d.handler(id).phase == Phase::Attempting,
    ensures
        d.gate.held > 0,
{
    lemma_count_update(d.handlers, id - 1, HandlerView { phase: Phase::Pending, ..d.handler(id) });
}

} // verus!
