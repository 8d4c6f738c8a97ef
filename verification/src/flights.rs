//! Shared work between overlapping requests.
//!
//! Equal work is run once: the first request to join becomes the leader and
//! later ones wait for its result. The work is cancelled only when its last
//! waiter leaves before it finished, and a finished flight publishes exactly one
//! outcome. Retained intermediate results are admitted against a byte budget
//! that can never be overdrawn.
use vstd::prelude::*;

use crate::errors::ErrorCode;

verus! {

/// A byte budget for retained intermediate work.
pub struct WorkByteBudget {
    maximum: usize,
    used: usize,
}

impl WorkByteBudget {
    pub closed spec fn maximum(&self) -> usize {
        self.maximum
    }

    pub closed spec fn used(&self) -> usize {
        self.used
    }

    /// The budget is never overdrawn.
    pub open spec fn wf(&self) -> bool {
        self.used() <= self.maximum()
    }

    /// An empty budget of `maximum` bytes.
    pub fn new(maximum: usize) -> (b: WorkByteBudget)
        ensures
            b.wf(),
            b.maximum() == maximum,
            b.used() == 0,
    {
        WorkByteBudget { maximum, used: 0 }
    }

    /// Bytes currently reserved.
    pub fn bytes_used(&self) -> (n: usize)
        ensures
            n == self.used(),
    {
        self.used
    }

    /// Claims `bytes` of the budget when they are positive, fit what is left and
    /// can be counted as 32-bit memory permits; returns the permits to ask the
    /// shared memory pool for. Nothing is claimed on refusal.
    pub fn begin_reserve(&mut self, bytes: usize) -> (r: Option<u32>)
        requires
            old(self).wf(),
        ensures
            final(self).wf(),
            final(self).maximum() == old(self).maximum(),
            match r {
                Some(p) => p == bytes && 0 < bytes && old(self).used() + bytes <= old(self).maximum() && bytes <= u32::MAX
                    && final(self).used() == old(self).used() + bytes,
                None => final(self).used() == old(self).used()
                    && (bytes == 0 || old(self).used() + bytes > old(self).maximum() || bytes > u32::MAX),
            },
    {
        if bytes == 0 || bytes > self.maximum {
            return None;
        }
        let next = match self.used.checked_add(bytes) {
            Some(v) => v,
            None => {
                return None;
            },
        };
        if next > self.maximum {
            return None;
        }
        if bytes > 0xffff_ffffusize {
            return None;
        }
        self.used = next;
        Some(bytes as u32)
    }

    /// Completes a claim: kept when the memory pool granted it (or there is no
    /// pool), given back otherwise. Returns whether the reservation stands.
    pub fn finish_reserve(&mut self, bytes: usize, granted: bool) -> (kept: bool)
        requires
            old(self).wf(),
            bytes <= old(self).used(),
        ensures
            final(self).wf(),
            final(self).maximum() == old(self).maximum(),
            kept == granted,
            final(self).used() == (if granted { old(self).used() as int } else { old(self).used() - bytes }),
    {
        if !granted {
            self.used = self.used - bytes;
        }
        granted
    }

    /// Returns a reservation's bytes to the budget.
    pub fn release(&mut self, bytes: usize)
        requires
            old(self).wf(),
            bytes <= old(self).used(),
        ensures
            final(self).wf(),
            final(self).maximum() == old(self).maximum(),
            final(self).used() == old(self).used() - bytes,
    {
        self.used = self.used - bytes;
    }
}

/// A shared intermediate result handed to a waiter, and whether the registry
/// retains it for later requests.
pub struct WorkValue<T> {
    value: std::sync::Arc<T>,
    retained: bool,
}

impl<T> WorkValue<T> {
    pub closed spec fn value_spec(&self) -> std::sync::Arc<T> {
        self.value
    }

    pub closed spec fn retained_spec(&self) -> bool {
        self.retained
    }

    pub fn new(value: std::sync::Arc<T>, retained: bool) -> (w: WorkValue<T>)
        ensures
            w.value_spec() == value,
            w.retained_spec() == retained,
    {
        WorkValue { value, retained }
    }

    /// Whether the result stays available to later requests.
    pub fn retained(&self) -> (r: bool)
        ensures
            r == self.retained_spec(),
    {
        self.retained
    }

    /// The shared result itself.
    pub fn into_arc(self) -> (r: std::sync::Arc<T>)
        ensures
            r == self.value_spec(),
    {
        self.value
    }
}

/// The published outcome of a flight.
#[derive(Clone, Copy, Debug, PartialEq, Eq, Structural)]
pub enum FlightOutcome {
    InFlight,
    /// A value, and whether it is retained for later requests.
    Ready { retained: bool },
    Failed(ErrorCode),
}

/// The shared state of one flight of work: who waits for it, whether it was
/// cancelled, and what it published.
pub struct FlightState {
    waiters: usize,
    cancelled: bool,
    outcome: FlightOutcome,
}

pub struct FlightView {
    pub waiters: nat,
    pub cancelled: bool,
    pub outcome: FlightOutcome,
}

impl View for FlightState {
    type V = FlightView;

    closed spec fn view(&self) -> FlightView {
        FlightView { waiters: self.waiters as nat, cancelled: self.cancelled, outcome: self.outcome }
    }
}

impl FlightState {
    /// A new flight, before its leader joins.
    pub fn new() -> (f: FlightState)
        ensures
            f@ == (FlightView { waiters: 0, cancelled: false, outcome: FlightOutcome::InFlight }),
    {
        FlightState { waiters: 0, cancelled: false, outcome: FlightOutcome::InFlight }
    }

    /// Whether the flight has published an outcome.
    pub fn finished(&self) -> (r: bool)
        ensures
            r == !(self@.outcome is InFlight),
    {
        match self.outcome {
            FlightOutcome::InFlight => false,
            _ => true,
        }
    }

    pub fn is_cancelled(&self) -> (r: bool)
        ensures
            r == self@.cancelled,
    {
        self.cancelled
    }

    pub fn waiter_count(&self) -> (n: usize)
        ensures
            n == self@.waiters,
    {
        self.waiters
    }

    pub fn outcome(&self) -> (o: FlightOutcome)
        ensures
            o == self@.outcome,
    {
        self.outcome
    }

    /// One more request waits for the flight.
    pub fn add_waiter(&mut self)
        requires
            old(self)@.waiters < usize::MAX,
        ensures
            final(self)@ == (FlightView { waiters: old(self)@.waiters + 1, ..old(self)@ }),
    {
        self.waiters = self.waiters + 1;
    }

    /// A waiting request leaves. When it was the last waiter of unfinished work,
    /// the work is cancelled; otherwise the flight goes on.
    pub fn drop_waiter(&mut self)
        ensures
            final(self)@ == drop_waiter_spec(old(self)@),
    {
        self.waiters = self.waiters.saturating_sub(1);
        if self.waiters == 0 && !self.finished() {
            self.cancelled = true;
        }
    }

    /// Publishes a value, unless the flight was cancelled or already finished.
    pub fn publish_ready(&mut self, retained: bool) -> (published: bool)
        ensures
            (published, final(self)@) == publish_ready_spec(old(self)@, retained),
    {
        if self.cancelled || self.finished() {
            return false;
        }
        self.outcome = FlightOutcome::Ready { retained };
        true
    }

    /// Publishes a failure, unless the flight already finished.
    pub fn publish_failed(&mut self, code: ErrorCode) -> (published: bool)
        ensures
            (published, final(self)@) == publish_failed_spec(old(self)@, code),
    {
        if self.finished() {
            return false;
        }
        self.outcome = FlightOutcome::Failed(code);
        true
    }
}

/// A waiter leaving: one fewer waiter; unfinished work whose last waiter left
/// is cancelled.
pub open spec fn drop_waiter_spec(v: FlightView) -> FlightView {
    let waiters: nat = if v.waiters == 0 { 0 } else { (v.waiters - 1) as nat };
    FlightView { waiters, cancelled: v.cancelled || (waiters == 0 && v.outcome is InFlight), outcome: v.outcome }
}

/// Publishing a value: whether it was published, and the flight after.
pub open spec fn publish_ready_spec(v: FlightView, retained: bool) -> (bool, FlightView) {
    if !v.cancelled && v.outcome is InFlight {
        (true, FlightView { outcome: FlightOutcome::Ready { retained }, ..v })
    } else {
        (false, v)
    }
}

/// Publishing a failure: whether it was published, and the flight after.
pub open spec fn publish_failed_spec(v: FlightView, code: ErrorCode) -> (bool, FlightView) {
    if v.outcome is InFlight {
        (true, FlightView { outcome: FlightOutcome::Failed(code), ..v })
    } else {
        (false, v)
    }
}

/// Only the last waiter cancels shared work: while another request still waits,
/// a waiter leaving does not cancel the flight.
pub proof fn lemma_only_last_waiter_cancels(v: FlightView)
    requires
        !v.cancelled,
        v.waiters >= 2,
    ensures
        !drop_waiter_spec(v).cancelled,
{
}

/// The last waiter leaving unfinished work cancels it.
pub proof fn lemma_last_waiter_cancels_unfinished(v: FlightView)
    requires
        v.waiters == 1,
        v.outcome is InFlight,
    ensures
        drop_waiter_spec(v).cancelled,
{
}

/// A flight publishes at most one outcome: once finished, neither kind of
/// publication succeeds or changes it.
pub proof fn lemma_outcome_published_once(v: FlightView, retained: bool, code: ErrorCode)
    requires
        !(v.outcome is InFlight),
    ensures
        publish_ready_spec(v, retained) == (false, v),
        publish_failed_spec(v, code) == (false, v),
{
}

/// Cancelled work never publishes a value.
pub proof fn lemma_cancelled_never_ready(v: FlightView, retained: bool)
    requires
        v.cancelled,
    ensures
        !publish_ready_spec(v, retained).0,
{
}

// ----- artifact flights keyed by cache keys -----

/// One artifact flight: the cache keys it generates, how many requests wait for
/// it, whether its work was cancelled, whether that work is still running, and
/// its published result (success or failure), if any.
pub struct SharedFlightView {
    pub keys: Seq<[u8; 32]>,
    pub waiters: nat,
    pub cancelled: bool,
    pub running: bool,
    pub result: Option<bool>,
}

struct SharedFlight {
    keys: Vec<[u8; 32]>,
    waiters: usize,
    cancelled: bool,
    running: bool,
    result: Option<bool>,
}

/// The artifact flights of a process, one per set of missing cache keys.
/// Identical concurrent misses share one flight: the first request to join
/// leads the generation and the others wait for its result.
pub struct SingleFlight {
    flights: Vec<SharedFlight>,
}

spec fn shared_view(f: SharedFlight) -> SharedFlightView {
    SharedFlightView { keys: f.keys@, waiters: f.waiters as nat, cancelled: f.cancelled, running: f.running, result: f.result }
}

impl View for SingleFlight {
    type V = Seq<SharedFlightView>;

    closed spec fn view(&self) -> Seq<SharedFlightView> {
        self.flights@.map_values(|f: SharedFlight| shared_view(f))
    }
}

/// A flight is alive while a request waits for it or its work still runs; a
/// flight that is not alive is gone and can no longer be joined.
pub open spec fn shared_live(f: SharedFlightView) -> bool {
    f.waiters > 0 || f.running
}

/// The first live flight, from position `k` on, for exactly these keys.
pub open spec fn live_flight_from(fs: Seq<SharedFlightView>, keys: Seq<[u8; 32]>, k: int) -> Option<int>
    decreases fs.len() - k,
{
    if k >= fs.len() {
        None
    } else if shared_live(fs[k]) && fs[k].keys == keys {
        Some(k)
    } else {
        live_flight_from(fs, keys, k + 1)
    }
}

/// The first slot, from position `k` on, whose flight is gone; the end when none is.
pub open spec fn free_slot_from(fs: Seq<SharedFlightView>, k: int) -> int
    decreases fs.len() - k,
{
    if k >= fs.len() {
        fs.len() as int
    } else if !shared_live(fs[k]) {
        k
    } else {
        free_slot_from(fs, k + 1)
    }
}

/// Joining the flight for `keys`: the flights after, the joined flight's
/// position, and whether the caller leads it. A live flight for the same keys
/// gains a waiter; otherwise a new flight with the caller as its only waiter
/// takes the first free slot.
pub open spec fn join_spec(fs: Seq<SharedFlightView>, keys: Seq<[u8; 32]>) -> (Seq<SharedFlightView>, int, bool) {
    match live_flight_from(fs, keys, 0) {
        Some(p) => (fs.update(p, SharedFlightView { waiters: fs[p].waiters + 1, ..fs[p] }), p, false),
        None => {
            let d = free_slot_from(fs, 0);
            let fresh = SharedFlightView { keys, waiters: 1, cancelled: false, running: false, result: None };
            (if d == fs.len() { fs.push(fresh) } else { fs.update(d, fresh) }, d, true)
        },
    }
}

/// A waiter of flight `id` leaving: the last waiter leaving cancels the work.
pub open spec fn leave_spec(fs: Seq<SharedFlightView>, id: int) -> Seq<SharedFlightView> {
    let waiters: nat = (fs[id].waiters - 1) as nat;
    fs.update(id, SharedFlightView { waiters, cancelled: fs[id].cancelled || waiters == 0, ..fs[id] })
}

/// At most one live flight exists for any set of keys.
pub open spec fn unique_live(fs: Seq<SharedFlightView>) -> bool {
    forall|i: int, j: int| 0 <= i < fs.len() && 0 <= j < fs.len() && i != j && shared_live(#[trigger] fs[i])
        && shared_live(#[trigger] fs[j]) ==> fs[i].keys != fs[j].keys
}

proof fn lemma_live_flight_from(fs: Seq<SharedFlightView>, keys: Seq<[u8; 32]>, k: int)
    requires
        0 <= k,
    ensures
        match live_flight_from(fs, keys, k) {
            Some(p) => k <= p < fs.len() && shared_live(fs[p]) && fs[p].keys == keys,
            None => forall|i: int| k <= i < fs.len() ==> !(shared_live(#[trigger] fs[i]) && fs[i].keys == keys),
        },
    decreases fs.len() - k,
{
    if k < fs.len() {
        lemma_live_flight_from(fs, keys, k + 1);
    }
}

proof fn lemma_free_slot_from(fs: Seq<SharedFlightView>, k: int)
    requires
        0 <= k <= fs.len(),
    ensures
        k <= free_slot_from(fs, k) <= fs.len(),
        free_slot_from(fs, k) < fs.len() ==> !shared_live(fs[free_slot_from(fs, k)]),
    decreases fs.len() - k,
{
    if k < fs.len() {
        lemma_free_slot_from(fs, k + 1);
    }
}

fn same_key(a: &[u8; 32], b: &[u8; 32]) -> (r: bool)
    ensures
        r == (*a == *b),
{
    let mut i: usize = 0;
    while i < 32
        invariant
            i <= 32,
            forall|j: int| 0 <= j < i ==> a[j] == b[j],
        decreases 32 - i,
    {
        if a[i] != b[i] {
            return false;
        }
        i = i + 1;
    }
    assert(*a =~= *b);
    true
}

fn same_keys(a: &Vec<[u8; 32]>, b: &Vec<[u8; 32]>) -> (r: bool)
    ensures
        r == (a@ == b@),
{
    if a.len() != b.len() {
        return false;
    }
    let mut i: usize = 0;
    while i < a.len()
        invariant
            i <= a.len(),
            a.len() == b.len(),
            forall|j: int| 0 <= j < i ==> a@[j] == b@[j],
        decreases a.len() - i,
    {
        if !same_key(&a[i], &b[i]) {
            return false;
        }
        i = i + 1;
    }
    assert(a@ =~= b@);
    true
}

fn copy_keys(keys: &Vec<[u8; 32]>) -> (r: Vec<[u8; 32]>)
    ensures
        r@ == keys@,
{
    let mut out: Vec<[u8; 32]> = Vec::new();
    let mut i: usize = 0;
    while i < keys.len()
        invariant
            i <= keys.len(),
            out@ == keys@.take(i as int),
        decreases keys.len() - i,
    {
        out.push(keys[i]);
        assert(keys@.take(i + 1) =~= keys@.take(i as int).push(keys@[i as int]));
        i = i + 1;
    }
    assert(keys@.take(i as int) =~= keys@);
    out
}

impl SingleFlight {
    /// No flights.
    pub fn new() -> (t: SingleFlight)
        ensures
            t@ == Seq::<SharedFlightView>::empty(),
            unique_live(t@),
    {
        let t = SingleFlight { flights: Vec::new() };
        assert(t@ =~= Seq::<SharedFlightView>::empty());
        t
    }

    /// Joins the flight for `keys`: returns its identity and whether the caller
    /// leads it (and so must start its work).
    pub fn join(&mut self, keys: &Vec<[u8; 32]>) -> (r: (usize, bool))
        requires
            unique_live(old(self)@),
            forall|i: int| 0 <= i < old(self)@.len() ==> (#[trigger] old(self)@[i]).waiters < usize::MAX,
            old(self)@.len() < usize::MAX,
        ensures
            unique_live(final(self)@),
            (final(self)@, r.0 as int, r.1) == join_spec(old(self)@, keys@),
    {
        let ghost fs = self@;
        let mut k: usize = 0;
        while k < self.flights.len()
            invariant
                k <= self.flights.len(),
                fs == self@,
                fs == old(self)@,
                fs.len() == self.flights.len(),
                unique_live(fs),
                forall|i: int| 0 <= i < fs.len() ==> (#[trigger] fs[i]).waiters < usize::MAX,
                live_flight_from(fs, keys@, 0) == live_flight_from(fs, keys@, k as int),
            decreases self.flights.len() - k,
        {
            assert(fs[k as int] == shared_view(self.flights@[k as int]));
            if (self.flights[k].waiters > 0 || self.flights[k].running) && same_keys(&self.flights[k].keys, keys) {
                let f = &self.flights[k];
                let joined = SharedFlight {
                    keys: copy_keys(&f.keys),
                    waiters: f.waiters + 1,
                    cancelled: f.cancelled,
                    running: f.running,
                    result: f.result,
                };
                self.flights.set(k, joined);
                proof {
                    assert(self@ =~= fs.update(k as int, SharedFlightView { waiters: fs[k as int].waiters + 1, ..fs[k as int] }));
                    assert forall|i: int, j: int| 0 <= i < self@.len() && 0 <= j < self@.len() && i != j && shared_live(#[trigger] self@[i])
                        && shared_live(#[trigger] self@[j]) implies self@[i].keys != self@[j].keys by {
                        assert(shared_live(fs[i]) && shared_live(fs[j]));
                    }
                }
                return (k, false);
            }
            k = k + 1;
        }
        proof {
            lemma_live_flight_from(fs, keys@, 0);
        }
        let fresh = SharedFlight { keys: copy_keys(keys), waiters: 1, cancelled: false, running: false, result: None };
        let mut d: usize = 0;
        while d < self.flights.len() && (self.flights[d].waiters > 0 || self.flights[d].running)
            invariant
                d <= self.flights.len(),
                fs == self@,
                fs.len() == self.flights.len(),
                free_slot_from(fs, 0) == free_slot_from(fs, d as int),
            decreases self.flights.len() - d,
        {
            assert(fs[d as int] == shared_view(self.flights@[d as int]));
            d = d + 1;
        }
        assert(d < fs.len() ==> fs[d as int] == shared_view(self.flights@[d as int]));
        proof {
            lemma_free_slot_from(fs, 0);
        }
        let ghost fresh_view = SharedFlightView { keys: keys@, waiters: 1, cancelled: false, running: false, result: None };
        if d == self.flights.len() {
            self.flights.push(fresh);
            proof {
                assert(self@ =~= fs.push(fresh_view));
            }
        } else {
            self.flights.set(d, fresh);
            proof {
                assert(self@ =~= fs.update(d as int, fresh_view));
            }
        }
        proof {
            assert forall|i: int, j: int| 0 <= i < self@.len() && 0 <= j < self@.len() && i != j && shared_live(#[trigger] self@[i])
                && shared_live(#[trigger] self@[j]) implies self@[i].keys != self@[j].keys by {
                if i != d as int && j != d as int {
                    assert(shared_live(fs[i]) && shared_live(fs[j]));
                } else if i == d as int {
                    assert(shared_live(fs[j]));
                } else {
                    assert(shared_live(fs[i]));
                }
            }
        }
        (d, true)
    }

    /// Number of flight slots.
    pub fn len(&self) -> (n: usize)
        ensures
            n == self@.len(),
    {
        self.flights.len()
    }

    /// The leader of flight `id` starts its work; the running work keeps the
    /// flight alive until it completes.
    pub fn start(&mut self, id: usize)
        requires
            id < old(self)@.len(),
            old(self)@[id as int].waiters > 0,
            unique_live(old(self)@),
        ensures
            unique_live(final(self)@),
            final(self)@ == old(self)@.update(id as int, SharedFlightView { running: true, ..old(self)@[id as int] }),
    {
        let ghost fs = self@;
        assert(fs[id as int] == shared_view(self.flights@[id as int]));
        let f = &self.flights[id];
        let started = SharedFlight { keys: copy_keys(&f.keys), waiters: f.waiters, cancelled: f.cancelled, running: true, result: f.result };
        self.flights.set(id, started);
        proof {
            assert(self@ =~= fs.update(id as int, SharedFlightView { running: true, ..fs[id as int] }));
            assert forall|i: int, j: int| 0 <= i < self@.len() && 0 <= j < self@.len() && i != j && shared_live(#[trigger] self@[i])
                && shared_live(#[trigger] self@[j]) implies self@[i].keys != self@[j].keys by {
                assert(shared_live(fs[i]) && shared_live(fs[j]));
            }
        }
    }

    /// The work of flight `id` finished with a success or a failure: the result
    /// is published to every waiter and the work no longer holds the flight.
    pub fn complete(&mut self, id: usize, succeeded: bool)
        requires
            id < old(self)@.len(),
            old(self)@[id as int].running,
            unique_live(old(self)@),
        ensures
            unique_live(final(self)@),
            final(self)@ == old(self)@.update(id as int, SharedFlightView { running: false, result: Some(succeeded), ..old(self)@[id as int] }),
    {
        let ghost fs = self@;
        assert(fs[id as int] == shared_view(self.flights@[id as int]));
        let f = &self.flights[id];
        let done = SharedFlight { keys: copy_keys(&f.keys), waiters: f.waiters, cancelled: f.cancelled, running: false, result: Some(succeeded) };
        self.flights.set(id, done);
        proof {
            assert(self@ =~= fs.update(id as int, SharedFlightView { running: false, result: Some(succeeded), ..fs[id as int] }));
            assert forall|i: int, j: int| 0 <= i < self@.len() && 0 <= j < self@.len() && i != j && shared_live(#[trigger] self@[i])
                && shared_live(#[trigger] self@[j]) implies self@[i].keys != self@[j].keys by {
                assert(shared_live(fs[i]) && shared_live(fs[j]));
            }
        }
    }

    /// A waiter of flight `id` leaves, with or without its result; the last
    /// waiter leaving cancels the flight's work.
    pub fn leave(&mut self, id: usize)
        requires
            id < old(self)@.len(),
            old(self)@[id as int].waiters > 0,
            unique_live(old(self)@),
        ensures
            unique_live(final(self)@),
            final(self)@ == leave_spec(old(self)@, id as int),
    {
        let ghost fs = self@;
        assert(fs[id as int] == shared_view(self.flights@[id as int]));
        let f = &self.flights[id];
        let waiters = f.waiters - 1;
        let left = SharedFlight { keys: copy_keys(&f.keys), waiters, cancelled: f.cancelled || waiters == 0, running: f.running, result: f.result };
        self.flights.set(id, left);
        proof {
            assert(self@ =~= leave_spec(fs, id as int));
            assert forall|i: int, j: int| 0 <= i < self@.len() && 0 <= j < self@.len() && i != j && shared_live(#[trigger] self@[i])
                && shared_live(#[trigger] self@[j]) implies self@[i].keys != self@[j].keys by {
                assert(shared_live(fs[i]) && shared_live(fs[j]));
            }
        }
    }

    /// Requests waiting for flight `id`.
    pub fn waiter_count(&self, id: usize) -> (n: usize)
        requires
            id < self@.len(),
        ensures
            n == self@[id as int].waiters,
    {
        assert(self@[id as int] == shared_view(self.flights@[id as int]));
        self.flights[id].waiters
    }

    /// Whether the work of flight `id` was cancelled.
    pub fn is_cancelled(&self, id: usize) -> (c: bool)
        requires
            id < self@.len(),
        ensures
            c == self@[id as int].cancelled,
    {
        assert(self@[id as int] == shared_view(self.flights@[id as int]));
        self.flights[id].cancelled
    }

    /// The published result of flight `id`, if any: success or failure.
    pub fn result(&self, id: usize) -> (r: Option<bool>)
        requires
            id < self@.len(),
        ensures
            r == self@[id as int].result,
    {
        assert(self@[id as int] == shared_view(self.flights@[id as int]));
        self.flights[id].result
    }
}

proof fn lemma_unique_live_finds(fs: Seq<SharedFlightView>, keys: Seq<[u8; 32]>, p: int)
    requires
        unique_live(fs),
        0 <= p < fs.len(),
        shared_live(fs[p]),
        fs[p].keys == keys,
    ensures
        live_flight_from(fs, keys, 0) == Some(p),
{
    lemma_live_flight_from(fs, keys, 0);
    match live_flight_from(fs, keys, 0) {
        Some(q) => {
            if q != p {
                assert(shared_live(fs[q]) && shared_live(fs[p]));
            }
        },
        None => {
            assert(!(shared_live(fs[p]) && fs[p].keys == keys));
        },
    }
}

/// Identical misses share one flight: once a request joined the flight for a
/// set of keys, the next request for the same keys joins that flight as a
/// follower, whether or not the first one led it.
pub proof fn lemma_identical_joins_share(fs: Seq<SharedFlightView>, keys: Seq<[u8; 32]>)
    requires
        unique_live(fs),
    ensures
        ({
            let (after, id, _) = join_spec(fs, keys);
            let (_, again, leads) = join_spec(after, keys);
            again == id && !leads
        }),
{
    lemma_live_flight_from(fs, keys, 0);
    lemma_free_slot_from(fs, 0);
    let (after, id, _) = join_spec(fs, keys);
    assert(0 <= id < after.len() && shared_live(after[id]) && after[id].keys == keys);
    assert forall|i: int, j: int| 0 <= i < after.len() && 0 <= j < after.len() && i != j && shared_live(#[trigger] after[i])
        && shared_live(#[trigger] after[j]) implies after[i].keys != after[j].keys by {
        if i != id && j != id {
            assert(after[i] == fs[i] && after[j] == fs[j]);
        } else if i == id {
            assert(after[j] == fs[j]);
        } else {
            assert(after[i] == fs[i]);
        }
    }
    lemma_unique_live_finds(after, keys, id);
}

/// A request joining while a live flight for its keys exists never leads: it
/// waits for that flight.
pub proof fn lemma_live_flight_is_joined(fs: Seq<SharedFlightView>, keys: Seq<[u8; 32]>, p: int)
    requires
        unique_live(fs),
        0 <= p < fs.len(),
        shared_live(fs[p]),
        fs[p].keys == keys,
    ensures
        join_spec(fs, keys).1 == p,
        !join_spec(fs, keys).2,
        join_spec(fs, keys).0[p].waiters == fs[p].waiters + 1,
{
    lemma_unique_live_finds(fs, keys, p);
}

/// Only the last waiter cancels shared work: while another request still waits
/// for a flight, one request leaving does not cancel it.
pub proof fn lemma_only_last_leaver_cancels(fs: Seq<SharedFlightView>, id: int)
    requires
        0 <= id < fs.len(),
        fs[id].waiters >= 2,
        !fs[id].cancelled,
    ensures
        !leave_spec(fs, id)[id].cancelled,
        leave_spec(fs, id)[id].waiters == fs[id].waiters - 1,
{
}

/// The last waiter leaving cancels the flight's work.
pub proof fn lemma_last_leaver_cancels(fs: Seq<SharedFlightView>, id: int)
    requires
        0 <= id < fs.len(),
        fs[id].waiters == 1,
    ensures
        leave_spec(fs, id)[id].cancelled,
{
}

} // verus!
