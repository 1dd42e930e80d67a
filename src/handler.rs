//! The retrying request handler: the state machine that drives one request
//! through attempts and backoffs until it succeeds.
use vstd::prelude::*;
use vstd::arithmetic::power2::{pow2, lemma2_to64, lemma2_to64_rest, lemma_pow2_unfold, lemma_pow2_strictly_increases};

verus! {

/// The largest attempt count whose backoff, `2^count` seconds, fits in a `u64`.
pub const MAX_ATTEMPT_COUNT: u32 = 63;

/// Where a request stands.
#[derive(Clone, Copy, Debug, PartialEq, Eq, Structural)]
pub enum Phase {
    /// Waiting for an admission.
    Pending,
    /// Holding an admission while the remote call runs.
    Attempting,
    /// Sleeping after a failed attempt, holding no admission.
    BackingOff,
    /// Done: the remote call returned a payload.
    Succeeded,
}

/// One request's retry state.
pub struct Handler {
    request_id: usize,
    attempt_count: u32,
    phase: Phase,
    payload: Option<String>,
}

/// What a handler is: its request, how many attempts failed, its phase and,
/// once it has succeeded, the payload.
pub ghost struct HandlerView {
    pub request_id: nat,
    pub attempt_count: nat,
    pub phase: Phase,
    pub payload: Option<Seq<char>>,
}

/// The backoff, in seconds, after the failure that brings the count to `attempt_count`.
pub open spec fn backoff_spec(attempt_count: nat) -> nat {
    pow2(attempt_count)
}

impl HandlerView {
    /// A new request: nothing attempted yet.
    pub open spec fn fresh(request_id: nat) -> HandlerView {
        HandlerView { request_id, attempt_count: 0, phase: Phase::Pending, payload: None }
    }

    /// A payload is held exactly when the request has succeeded, and the count
    /// stays where its backoff can be expressed.
    pub open spec fn wf(self) -> bool {
        &&& (self.phase == Phase::Succeeded) == self.payload.is_some()
        &&& self.attempt_count <= MAX_ATTEMPT_COUNT
    }

    /// Admitted: a pending request starts an attempt.
    pub open spec fn begun(self) -> HandlerView {
        if self.phase == Phase::Pending {
            HandlerView { phase: Phase::Attempting, ..self }
        } else {
            self
        }
    }

    /// The attempt returned `payload`: the request is done.
    pub open spec fn succeeded(self, payload: Seq<char>) -> HandlerView {
        if self.phase == Phase::Attempting {
            HandlerView { phase: Phase::Succeeded, payload: Some(payload), ..self }
        } else {
            self
        }
    }

    /// A running attempt can fail where the next backoff is still expressible.
    pub open spec fn can_fail(self) -> bool {
        &&& self.phase == Phase::Attempting
        &&& self.attempt_count < MAX_ATTEMPT_COUNT
    }

    /// The attempt failed: count it and back off.
    pub open spec fn failed(self) -> HandlerView {
        if self.can_fail() {
            HandlerView {
                phase: Phase::BackingOff,
                attempt_count: self.attempt_count + 1,
                ..self
            }
        } else {
            self
        }
    }

    /// The backoff elapsed: wait for admission again.
    pub open spec fn resumed(self) -> HandlerView {
        if self.phase == Phase::BackingOff {
            HandlerView { phase: Phase::Pending, ..self }
        } else {
            self
        }
    }

    /// One failed round: admitted, failed, backed off.
    pub open spec fn retry_round(self) -> HandlerView {
        self.begun().failed().resumed()
    }

    /// The handler after `j` failed rounds.
    pub open spec fn after_rounds(self, j: nat) -> HandlerView
        decreases j,
    {
        if j == 0 {
            self
        } else {
            self.after_rounds((j - 1) as nat).retry_round()
        }
    }
}

/// After `j` failed rounds a new request is pending again, with `j` failures counted.
proof fn lemma_after_rounds(request_id: nat, j: nat)
    requires
        j <= MAX_ATTEMPT_COUNT,
    ensures
        HandlerView::fresh(request_id).after_rounds(j) == (HandlerView {
            request_id,
            attempt_count: j,
            phase: Phase::Pending,
            payload: None,
        }),
    decreases j,
{
    if j > 0 {
        lemma_after_rounds(request_id, (j - 1) as nat);
    }
}

/// A request that fails `k` times in a row backs off for 2, 4, 8, ..., 2^k
/// seconds: its `j`-th attempt can fail, the failure brings the count to `j`, and
/// the backoff that follows is `2^j` seconds, longer than the one before, with
/// no cap below the largest count whose backoff a `u64` holds.
pub proof fn lemma_backoff_doubles(request_id: nat, k: nat)
    requires
        k <= MAX_ATTEMPT_COUNT,
    ensures
        forall|j: nat|
            1 <= j <= k ==> {
                let attempt = #[trigger] HandlerView::fresh(request_id).after_rounds(
                    (j - 1) as nat,
                ).begun();
                &&& attempt.can_fail()
                &&& attempt.failed().attempt_count == j
                &&& backoff_spec(attempt.failed().attempt_count) == pow2(j)
            },
        backoff_spec(1) == 2,
        forall|j: nat| 1 <= j < k ==> #[trigger] backoff_spec(j) < backoff_spec(j + 1),
{
    assert forall|j: nat| 1 <= j <= k implies {
        let attempt = #[trigger] HandlerView::fresh(request_id).after_rounds((j - 1) as nat).begun();
        &&& attempt.can_fail()
        &&& attempt.failed().attempt_count == j
        &&& backoff_spec(attempt.failed().attempt_count) == pow2(j)
    } by {
        lemma_after_rounds(request_id, (j - 1) as nat);
    }
    lemma2_to64();
    assert forall|j: nat| 1 <= j < k implies #[trigger] backoff_spec(j) < backoff_spec(j + 1) by {
        lemma_pow2_strictly_increases(j, j + 1);
    }
}

/// The backoff after the failure that brings the count to `attempt_count`: `2^attempt_count` seconds.
pub fn backoff_secs(attempt_count: u32) -> (secs: u64)
    requires
        attempt_count <= MAX_ATTEMPT_COUNT,
    ensures
        secs == backoff_spec(attempt_count as nat),
{
    let mut secs: u64 = 1;
    let mut i: u32 = 0;
    proof {
        lemma2_to64();
        lemma2_to64_rest();
    }
    while i < attempt_count
        invariant
            i <= attempt_count <= MAX_ATTEMPT_COUNT,
            secs == pow2(i as nat),
            pow2(63) == 0x8000_0000_0000_0000,
        decreases attempt_count - i,
    {
        proof {
            lemma_pow2_unfold((i + 1) as nat);
            if i + 1 < 63 {
                lemma_pow2_strictly_increases((i + 1) as nat, 63);
            }
        }
        secs = secs * 2;
        i = i + 1;
    }
    secs
}

impl View for Handler {
    type V = HandlerView;

    closed spec fn view(&self) -> HandlerView {
        HandlerView {
            request_id: self.request_id as nat,
            attempt_count: self.attempt_count as nat,
            phase: self.phase,
            payload: match self.payload {
                Some(p) => Some(p@),
                None => None,
            },
        }
    }
}

impl Handler {
    /// A handler for request `request_id`, pending, with no failed attempt.
    pub fn new(request_id: usize) -> (h: Handler)
        ensures
            h@ == HandlerView::fresh(request_id as nat),
    {
        Handler { request_id, attempt_count: 0, phase: Phase::Pending, payload: None }
    }

    pub fn request_id(&self) -> (r: usize)
        ensures
            r == self@.request_id,
    {
        self.request_id
    }

    /// How many attempts have failed so far.
    pub fn attempt_count(&self) -> (r: u32)
        ensures
            r == self@.attempt_count,
    {
        self.attempt_count
    }

    pub fn phase(&self) -> (r: Phase)
        ensures
            r == self@.phase,
    {
        self.phase
    }

    /// A copy of the payload, once the request has succeeded.
    pub fn payload(&self) -> (r: Option<String>)
        ensures
            r is Some <==> self@.payload is Some,
            r is Some ==> r->Some_0@ == self@.payload->Some_0,
    {
        match &self.payload {
            Some(p) => Some(p.clone()),
            None => None,
        }
    }

    /// Starts an attempt if the request is pending; tells whether it did.
    pub fn begin_attempt(&mut self) -> (started: bool)
        ensures
            started == (old(self)@.phase == Phase::Pending),
            final(self)@ == old(self)@.begun(),
    {
        if self.phase == Phase::Pending {
            self.phase = Phase::Attempting;
            true
        } else {
            false
        }
    }

    /// Records the payload of a running attempt; tells whether one was running.
    pub fn succeed(&mut self, payload: String) -> (done: bool)
        ensures
            done == (old(self)@.phase == Phase::Attempting),
            final(self)@ == old(self)@.succeeded(payload@),
    {
        if self.phase == Phase::Attempting {
            self.phase = Phase::Succeeded;
            self.payload = Some(payload);
            true
        } else {
            false
        }
    }

    /// Records the failure of a running attempt and returns the backoff in
    /// seconds, `2^n` for the `n`-th failure. `None` where no attempt is running
    /// or the next backoff would not fit in a `u64`; the handler is then unchanged.
    pub fn fail(&mut self) -> (backoff: Option<u64>)
        ensures
            backoff is Some <==> old(self)@.can_fail(),
            final(self)@ == old(self)@.failed(),
            backoff is Some ==> backoff->Some_0 == backoff_spec(final(self)@.attempt_count),
    {
        if self.phase == Phase::Attempting && self.attempt_count < MAX_ATTEMPT_COUNT {
            self.attempt_count = self.attempt_count + 1;
            self.phase = Phase::BackingOff;
            Some(backoff_secs(self.attempt_count))
        } else {
            None
        }
    }

    /// Ends a backoff: the request waits for admission again. Tells whether it was backing off.
    pub fn resume(&mut self) -> (resumed: bool)
        ensures
            resumed == (old(self)@.phase == Phase::BackingOff),
            final(self)@ == old(self)@.resumed(),
    {
        if self.phase == Phase::BackingOff {
            self.phase = Phase::Pending;
            true
        } else {
            false
        }
    }
}

} // verus!
