//! Shared intermediate frame work of overlapping generation requests.
//!
//! Decoding and normalizing a frame is keyed by the frame and its recipe. Each
//! request joins that work inside a batch lease: the first to join leads it, the
//! others wait. A finished result is retained for later requests only when it
//! fits the registry's byte budget; it stays reachable while a waiter or an open
//! lease holds it, and its bytes return to the budget when the last holder goes.
use vstd::prelude::*;

use crate::errors::ErrorCode;
use crate::flights::{FlightOutcome, FlightView, drop_waiter_spec, publish_failed_spec, publish_ready_spec};
use crate::handles::same_bytes;

verus! {

/// The two kinds of intermediate frame work.
#[derive(Clone, Copy, Debug, PartialEq, Eq, Structural)]
pub enum WorkKind {
    Decoded,
    Normalized,
}

/// One flight of frame work: its key, its flight state, the bytes it holds from
/// the budget and whether the registry still offers it to new requests.
pub struct WorkEntryView {
    pub kind: WorkKind,
    pub key: Seq<u8>,
    pub flight: FlightView,
    pub reserved: nat,
    pub registered: bool,
}

/// A batch lease: whether it is still open, and the work it holds, one entry per key.
pub struct LeaseView {
    pub open: bool,
    pub held: Seq<usize>,
}

pub struct RegistryView {
    pub maximum: nat,
    pub used: nat,
    pub entries: Seq<WorkEntryView>,
    pub leases: Seq<LeaseView>,
}

#[derive(Clone, Copy)]
struct EntryState {
    waiters: usize,
    cancelled: bool,
    outcome: FlightOutcome,
    reserved: usize,
    registered: bool,
}

/// The registry of shared frame work of one process.
pub struct WorkRegistry {
    maximum: usize,
    used: usize,
    kinds: Vec<WorkKind>,
    keys: Vec<Vec<u8>>,
    states: Vec<EntryState>,
    leases: Vec<Vec<usize>>,
    open: Vec<bool>,
}

spec fn entry_view(kind: WorkKind, key: Seq<u8>, s: EntryState) -> WorkEntryView {
    WorkEntryView {
        kind,
        key,
        flight: FlightView { waiters: s.waiters as nat, cancelled: s.cancelled, outcome: s.outcome },
        reserved: s.reserved as nat,
        registered: s.registered,
    }
}

impl View for WorkRegistry {
    type V = RegistryView;

    closed spec fn view(&self) -> RegistryView {
        RegistryView {
            maximum: self.maximum as nat,
            used: self.used as nat,
            entries: Seq::new(self.states@.len(), |i: int| entry_view(self.kinds@[i], self.keys@[i]@, self.states@[i])),
            leases: Seq::new(self.leases@.len(), |l: int| LeaseView { open: self.open@[l], held: self.leases@[l]@ }),
        }
    }
}

/// Whether two entries do the same work.
pub open spec fn same_work(a: WorkEntryView, b: WorkEntryView) -> bool {
    a.kind == b.kind && a.key == b.key
}

/// Whether an open lease holds entry `e`.
pub open spec fn held(v: RegistryView, e: int) -> bool {
    exists|l: int, i: int| 0 <= l < v.leases.len() && 0 <= i < v.leases[l].held.len() && v.leases[l].open
        && #[trigger] v.leases[l].held[i] == e
}

/// An entry is alive while a request waits for it or an open lease holds it.
pub open spec fn alive(v: RegistryView, e: int) -> bool {
    v.entries[e].flight.waiters > 0 || held(v, e)
}

/// Bytes reserved by the first `n` entries.
pub open spec fn reserved_total(entries: Seq<WorkEntryView>, n: nat) -> nat
    decreases n,
{
    if n == 0 { 0 } else { reserved_total(entries, (n - 1) as nat) + entries[n - 1].reserved }
}

/// The registry's invariant: the budget is the entries' reservations and never
/// overdrawn; only live entries hold bytes or stay registered; a registered
/// entry is unique for its work; a lease holds one entry per work; and only a
/// retained value holds bytes.
pub open spec fn registry_wf(v: RegistryView) -> bool {
    &&& v.used <= v.maximum
    &&& v.used == reserved_total(v.entries, v.entries.len())
    &&& forall|e: int| 0 <= e < v.entries.len() && !alive(v, e) ==> (#[trigger] v.entries[e]).reserved == 0 && !v.entries[e].registered
    &&& forall|l: int, i: int| 0 <= l < v.leases.len() && 0 <= i < v.leases[l].held.len() ==> #[trigger] v.leases[l].held[i] < v.entries.len()
    &&& forall|e: int, f: int| 0 <= e < v.entries.len() && 0 <= f < v.entries.len() && e != f && (#[trigger] v.entries[e]).registered
        && (#[trigger] v.entries[f]).registered ==> !same_work(v.entries[e], v.entries[f])
    &&& forall|l: int, i: int, j: int| 0 <= l < v.leases.len() && 0 <= i < v.leases[l].held.len() && 0 <= j < v.leases[l].held.len() && i != j
        ==> !same_work(v.entries[#[trigger] v.leases[l].held[i] as int], v.entries[#[trigger] v.leases[l].held[j] as int])
    &&& forall|e: int| 0 <= e < v.entries.len() && (#[trigger] v.entries[e]).reserved > 0 ==> v.entries[e].flight.outcome == (FlightOutcome::Ready { retained: true })
}

/// The registry's invariant, except that entries in `s` may be dead and still
/// hold bytes or registration.
pub open spec fn wf_except(v: RegistryView, s: Set<int>) -> bool {
    &&& v.used <= v.maximum
    &&& v.used == reserved_total(v.entries, v.entries.len())
    &&& forall|e: int| 0 <= e < v.entries.len() && !s.contains(e) && !alive(v, e) ==> (#[trigger] v.entries[e]).reserved == 0 && !v.entries[e].registered
    &&& forall|l: int, i: int| 0 <= l < v.leases.len() && 0 <= i < v.leases[l].held.len() ==> #[trigger] v.leases[l].held[i] < v.entries.len()
    &&& forall|e: int, f: int| 0 <= e < v.entries.len() && 0 <= f < v.entries.len() && e != f && (#[trigger] v.entries[e]).registered
        && (#[trigger] v.entries[f]).registered ==> !same_work(v.entries[e], v.entries[f])
    &&& forall|l: int, i: int, j: int| 0 <= l < v.leases.len() && 0 <= i < v.leases[l].held.len() && 0 <= j < v.leases[l].held.len() && i != j
        ==> !same_work(v.entries[#[trigger] v.leases[l].held[i] as int], v.entries[#[trigger] v.leases[l].held[j] as int])
    &&& forall|e: int| 0 <= e < v.entries.len() && (#[trigger] v.entries[e]).reserved > 0 ==> v.entries[e].flight.outcome == (FlightOutcome::Ready { retained: true })
}

proof fn lemma_wf_except_empty(v: RegistryView)
    ensures
        wf_except(v, Set::empty()) == registry_wf(v),
{
}

proof fn lemma_total_update(entries: Seq<WorkEntryView>, n: nat, e: int, x: WorkEntryView)
    requires
        n <= entries.len(),
        0 <= e < entries.len(),
    ensures
        e < n ==> reserved_total(entries.update(e, x), n) == reserved_total(entries, n) - entries[e].reserved + x.reserved,
        e >= n ==> reserved_total(entries.update(e, x), n) == reserved_total(entries, n),
    decreases n,
{
    if n > 0 {
        lemma_total_update(entries, (n - 1) as nat, e, x);
    }
}

proof fn lemma_total_push(entries: Seq<WorkEntryView>, n: nat, x: WorkEntryView)
    requires
        n <= entries.len(),
    ensures
        reserved_total(entries.push(x), n) == reserved_total(entries, n),
    decreases n,
{
    if n > 0 {
        lemma_total_push(entries, (n - 1) as nat, x);
    }
}

proof fn lemma_total_bounds(entries: Seq<WorkEntryView>, n: nat, e: int)
    requires
        n <= entries.len(),
        0 <= e < n,
    ensures
        entries[e].reserved <= reserved_total(entries, n),
    decreases n,
{
    if e < n - 1 {
        lemma_total_bounds(entries, (n - 1) as nat, e);
    }
}

/// Entry `e` after it may have lost its last holder: a dead entry gives its
/// bytes back and is no longer offered to new requests.
pub open spec fn settle_spec(v: RegistryView, e: int) -> RegistryView {
    if alive(v, e) {
        v
    } else {
        RegistryView {
            used: (v.used - v.entries[e].reserved) as nat,
            entries: v.entries.update(e, WorkEntryView { reserved: 0, registered: false, ..v.entries[e] }),
            ..v
        }
    }
}

/// The registry with entry `e` replaced by `x`.
pub open spec fn with_entry(v: RegistryView, e: int, x: WorkEntryView) -> RegistryView {
    RegistryView { entries: v.entries.update(e, x), ..v }
}

/// A waiter of entry `e` leaves: the last waiter of unfinished work cancels it,
/// and an entry nothing holds any more gives its bytes back.
pub open spec fn leave_spec(v: RegistryView, e: int) -> RegistryView {
    settle_spec(with_entry(v, e, WorkEntryView { flight: drop_waiter_spec(v.entries[e].flight), ..v.entries[e] }), e)
}

/// The work of entry `e` failed: it is no longer offered to new requests, and the
/// failure is published unless the flight already finished.
pub open spec fn fail_spec(v: RegistryView, e: int, code: ErrorCode) -> RegistryView {
    with_entry(v, e, WorkEntryView { registered: false, flight: publish_failed_spec(v.entries[e].flight, code).1, ..v.entries[e] })
}

/// Entry `e`'s work completed with a result of `bytes` bytes: the result is
/// retained when its bytes can be reserved (a positive count, within the budget,
/// countable as 32-bit permits) and the entry holds no reservation yet; it is
/// published unless the flight was cancelled or already finished; an
/// unpublished result gives its bytes back; and a result that is not both
/// retained and published is withdrawn from new requests. Also returns whether
/// the result stays available to later requests.
pub open spec fn complete_spec(v: RegistryView, e: int, bytes: nat) -> (RegistryView, bool) {
    let x = v.entries[e];
    let can = 0 < bytes && v.used + bytes <= v.maximum && bytes <= u32::MAX;
    let retained = can && x.reserved == 0;
    let used1: nat = if retained { v.used + bytes } else { v.used };
    let reserved1: nat = if retained { bytes } else { x.reserved };
    let (published, flight) = publish_ready_spec(x.flight, retained);
    let used2: nat = if published { used1 } else { (used1 - reserved1) as nat };
    let reserved2: nat = if published { reserved1 } else { 0 };
    (
        RegistryView {
            used: used2,
            entries: v.entries.update(e, WorkEntryView { flight, reserved: reserved2, registered: x.registered && retained && published, ..x }),
            ..v
        },
        retained && published,
    )
}

/// Whether entry `e` does the work of `kind` and `key`.
pub open spec fn does(x: WorkEntryView, kind: WorkKind, key: Seq<u8>) -> bool {
    x.kind == kind && x.key == key
}

/// The first registered, uncancelled entry, from `k` on, doing this work.
pub open spec fn joinable_from(v: RegistryView, kind: WorkKind, key: Seq<u8>, k: int) -> Option<int>
    decreases v.entries.len() - k,
{
    if k < 0 || k >= v.entries.len() {
        None
    } else if v.entries[k].registered && !v.entries[k].flight.cancelled && does(v.entries[k], kind, key) {
        Some(k)
    } else {
        joinable_from(v, kind, key, k + 1)
    }
}

/// The first position, from `i` on, where lease `l` holds an entry doing this work.
pub open spec fn held_position_from(v: RegistryView, l: int, kind: WorkKind, key: Seq<u8>, i: int) -> Option<int>
    decreases v.leases[l].held.len() - i,
{
    if i < 0 || i >= v.leases[l].held.len() {
        None
    } else if does(v.entries[v.leases[l].held[i] as int], kind, key) {
        Some(i)
    } else {
        held_position_from(v, l, kind, key, i + 1)
    }
}

/// The entries with every registered one doing this work withdrawn.
pub open spec fn withdraw(entries: Seq<WorkEntryView>, kind: WorkKind, key: Seq<u8>) -> Seq<WorkEntryView> {
    Seq::new(entries.len(), |i: int| if entries[i].registered && does(entries[i], kind, key) {
        WorkEntryView { registered: false, ..entries[i] }
    } else {
        entries[i]
    })
}

/// The entry side of joining: a registered, uncancelled entry doing the work
/// gains a waiter; otherwise any registered entry doing it is withdrawn and a new
/// flight, led by the caller, is registered at the end. Also the entry joined and
/// whether the caller leads it.
pub open spec fn join_entry_spec(v: RegistryView, kind: WorkKind, key: Seq<u8>) -> (RegistryView, int, bool) {
    match joinable_from(v, kind, key, 0) {
        Some(p) => (
            with_entry(v, p, WorkEntryView { flight: FlightView { waiters: v.entries[p].flight.waiters + 1, ..v.entries[p].flight }, ..v.entries[p] }),
            p,
            false,
        ),
        None => {
            let fresh = WorkEntryView {
                kind,
                key,
                flight: FlightView { waiters: 1, cancelled: false, outcome: FlightOutcome::InFlight },
                reserved: 0,
                registered: true,
            };
            (RegistryView { entries: withdraw(v.entries, kind, key).push(fresh), ..v }, v.entries.len() as int, true)
        },
    }
}

/// Joining the work of `kind` and `key` inside lease `l`: the entry side, then
/// the lease holds the joined entry in place of any entry it held for the same
/// work, which gives its bytes back if nothing else holds it.
pub open spec fn join_spec(v: RegistryView, l: int, kind: WorkKind, key: Seq<u8>) -> (RegistryView, int, bool) {
    let (v1, id, leader) = join_entry_spec(v, kind, key);
    let lease = v1.leases[l];
    match held_position_from(v1, l, kind, key, 0) {
        Some(i) => {
            let q = lease.held[i] as int;
            let v2 = RegistryView { leases: v1.leases.update(l, LeaseView { held: lease.held.update(i, id as usize), ..lease }), ..v1 };
            (if q != id { settle_spec(v2, q) } else { v2 }, id, leader)
        },
        None => (RegistryView { leases: v1.leases.update(l, LeaseView { held: lease.held.push(id as usize), ..lease }), ..v1 }, id, leader),
    }
}

proof fn lemma_joinable_from(v: RegistryView, kind: WorkKind, key: Seq<u8>, k: int)
    requires
        0 <= k,
    ensures
        match joinable_from(v, kind, key, k) {
            Some(p) => k <= p < v.entries.len() && v.entries[p].registered && !v.entries[p].flight.cancelled && does(v.entries[p], kind, key),
            None => forall|y: int| k <= y < v.entries.len() ==> !(#[trigger] v.entries[y].registered && !v.entries[y].flight.cancelled
                && does(v.entries[y], kind, key)),
        },
    decreases v.entries.len() - k,
{
    if k < v.entries.len() {
        lemma_joinable_from(v, kind, key, k + 1);
    }
}

proof fn lemma_total_same(a: Seq<WorkEntryView>, b: Seq<WorkEntryView>, n: nat)
    requires
        n <= a.len(),
        n <= b.len(),
        forall|y: int| 0 <= y < n ==> #[trigger] a[y].reserved == b[y].reserved,
    ensures
        reserved_total(a, n) == reserved_total(b, n),
    decreases n,
{
    if n > 0 {
        lemma_total_same(a, b, (n - 1) as nat);
    }
}

proof fn lemma_held_position_from(v: RegistryView, l: int, kind: WorkKind, key: Seq<u8>, i: int)
    requires
        0 <= l < v.leases.len(),
        0 <= i,
    ensures
        match held_position_from(v, l, kind, key, i) {
            Some(p) => i <= p < v.leases[l].held.len() && does(v.entries[v.leases[l].held[p] as int], kind, key),
            None => forall|j: int| i <= j < v.leases[l].held.len() ==> !does(v.entries[#[trigger] v.leases[l].held[j] as int], kind, key),
        },
    decreases v.leases[l].held.len() - i,
{
    if i < v.leases[l].held.len() {
        lemma_held_position_from(v, l, kind, key, i + 1);
    }
}

/// Settles the entries `ids[0..n]`, in order.
pub open spec fn settle_all(v: RegistryView, ids: Seq<usize>, n: nat) -> RegistryView
    decreases n,
{
    if n == 0 { v } else { settle_spec(settle_all(v, ids, (n - 1) as nat), ids[n - 1] as int) }
}

/// Ending batch lease `l`: it no longer holds its entries, and each of them that
/// nothing else holds gives its bytes back.
pub open spec fn end_batch_spec(v: RegistryView, l: int) -> RegistryView {
    let closed = RegistryView { leases: v.leases.update(l, LeaseView { open: false, ..v.leases[l] }), ..v };
    settle_all(closed, v.leases[l].held, v.leases[l].held.len())
}

/// The entries held at positions `i..` of `ids`.
pub open spec fn held_from(ids: Seq<usize>, i: int) -> Set<int> {
    Set::new(|x: int| exists|j: int| i <= j < ids.len() && ids[j] as int == x)
}

/// Registered entries among the first `n`.
pub open spec fn registered_count(entries: Seq<WorkEntryView>, n: nat) -> nat
    decreases n,
{
    if n == 0 { 0 } else { registered_count(entries, (n - 1) as nat) + if entries[n - 1].registered { 1nat } else { 0nat } }
}

proof fn lemma_wf_except_weaken(v: RegistryView, a: Set<int>, b: Set<int>)
    requires
        wf_except(v, a),
        a.subset_of(b),
    ensures
        wf_except(v, b),
{
    assert forall|e: int| 0 <= e < v.entries.len() && !b.contains(e) && !alive(v, e)
        implies (#[trigger] v.entries[e]).reserved == 0 && !v.entries[e].registered by {
        assert(!a.contains(e));
    }
}

proof fn lemma_registered_count_bound(entries: Seq<WorkEntryView>, n: nat)
    requires
        n <= entries.len(),
    ensures
        registered_count(entries, n) <= n,
    decreases n,
{
    if n > 0 {
        lemma_registered_count_bound(entries, (n - 1) as nat);
    }
}

impl WorkRegistry {
    spec fn lengths_agree(&self) -> bool {
        &&& self.kinds@.len() == self.states@.len()
        &&& self.keys@.len() == self.states@.len()
        &&& self.open@.len() == self.leases@.len()
    }

    /// The registry is consistent.
    pub closed spec fn inv(&self) -> bool {
        self.lengths_agree() && registry_wf(self@)
    }

    proof fn lemma_view_lengths(&self)
        requires
            self.lengths_agree(),
        ensures
            self@.entries.len() == self.states@.len(),
            self@.leases.len() == self.leases@.len(),
            forall|e: int| 0 <= e < self.states@.len() ==> #[trigger] self@.entries[e] == entry_view(self.kinds@[e], self.keys@[e]@, self.states@[e]),
            forall|l: int| 0 <= l < self.leases@.len() ==> #[trigger] self@.leases[l] == (LeaseView { open: self.open@[l], held: self.leases@[l]@ }),
    {
    }

    /// An empty registry with a budget of `max_bytes`.
    pub fn new(max_bytes: usize) -> (r: WorkRegistry)
        ensures
            r.inv(),
            r@ == (RegistryView { maximum: max_bytes as nat, used: 0, entries: Seq::empty(), leases: Seq::empty() }),
    {
        let r = WorkRegistry {
            maximum: max_bytes,
            used: 0,
            kinds: Vec::new(),
            keys: Vec::new(),
            states: Vec::new(),
            leases: Vec::new(),
            open: Vec::new(),
        };
        assert(r@.entries =~= Seq::<WorkEntryView>::empty());
        assert(r@.leases =~= Seq::<LeaseView>::empty());
        r
    }

    /// Bytes of retained results.
    pub fn bytes_used(&self) -> (n: usize)
        ensures
            n == self@.used,
    {
        self.used
    }

    fn is_held(&self, e: usize) -> (r: bool)
        requires
            self.lengths_agree(),
        ensures
            r == held(self@, e as int),
    {
        proof { self.lemma_view_lengths(); }
        let ghost v = self@;
        let mut l: usize = 0;
        while l < self.leases.len()
            invariant
                l <= self.leases@.len(),
                v == self@,
                self.lengths_agree(),
                v.leases.len() == self.leases@.len(),
                forall|q: int| 0 <= q < self.leases@.len() ==> #[trigger] v.leases[q] == (LeaseView { open: self.open@[q], held: self.leases@[q]@ }),
                forall|q: int, i: int| 0 <= q < l && 0 <= i < v.leases[q].held.len() && v.leases[q].open ==> #[trigger] v.leases[q].held[i] != e,
            decreases self.leases@.len() - l,
        {
            if self.open[l] {
                let mut i: usize = 0;
                while i < self.leases[l].len()
                    invariant
                        l < self.leases@.len(),
                        i <= self.leases@[l as int].len(),
                        v == self@,
                        self.lengths_agree(),
                        self.open@[l as int],
                        v.leases[l as int] == (LeaseView { open: self.open@[l as int], held: self.leases@[l as int]@ }),
                        forall|j: int| 0 <= j < i ==> #[trigger] v.leases[l as int].held[j] != e,
                    decreases self.leases@[l as int].len() - i,
                {
                    if self.leases[l][i] == e {
                        assert(v.leases[l as int].held[i as int] == e);
                        return true;
                    }
                    i = i + 1;
                }
            }
            l = l + 1;
        }
        false
    }

    fn settle(&mut self, e: usize, Ghost(s): Ghost<Set<int>>)
        requires
            old(self).lengths_agree(),
            e < old(self)@.entries.len(),
            wf_except(old(self)@, s),
        ensures
            final(self).lengths_agree(),
            final(self)@ == settle_spec(old(self)@, e as int),
            wf_except(final(self)@, s.remove(e as int)),
    {
        proof { self.lemma_view_lengths(); }
        let ghost v = self@;
        if self.states[e].waiters > 0 || self.is_held(e) {
            assert(alive(v, e as int));
            assert forall|x: int| 0 <= x < v.entries.len() && !s.remove(e as int).contains(x) && !alive(v, x)
                implies (#[trigger] v.entries[x]).reserved == 0 && !v.entries[x].registered by {
                assert(!s.contains(x));
            }
            return;
        }
        let st = self.states[e];
        proof {
            lemma_total_bounds(v.entries, v.entries.len(), e as int);
        }
        self.used = self.used - st.reserved;
        self.states.set(e, EntryState { reserved: 0, registered: false, ..st });
        proof {
            self.lemma_view_lengths();
            let w = self@;
            let x = WorkEntryView { reserved: 0, registered: false, ..v.entries[e as int] };
            assert(w.entries =~= v.entries.update(e as int, x));
            assert(w.leases =~= v.leases);
            lemma_total_update(v.entries, v.entries.len(), e as int, x);
            assert forall|y: int| 0 <= y < w.entries.len() implies alive(w, y) == alive(v, y) by {
                if held(w, y) {
                    let (lw, iw) = choose|lw: int, iw: int| 0 <= lw < w.leases.len() && 0 <= iw < w.leases[lw].held.len() && w.leases[lw].open
                        && #[trigger] w.leases[lw].held[iw] == y;
                    assert(v.leases[lw].held[iw] == y);
                }
                if held(v, y) {
                    let (lv, iv) = choose|lv: int, iv: int| 0 <= lv < v.leases.len() && 0 <= iv < v.leases[lv].held.len() && v.leases[lv].open
                        && #[trigger] v.leases[lv].held[iv] == y;
                    assert(w.leases[lv].held[iv] == y);
                }
            }
            assert(w == settle_spec(v, e as int));
            assert forall|y: int| 0 <= y < w.entries.len() && !s.remove(e as int).contains(y) && !alive(w, y)
                implies (#[trigger] w.entries[y]).reserved == 0 && !w.entries[y].registered by {
                if y != e as int {
                    assert(!s.contains(y));
                    assert(w.entries[y] == v.entries[y]);
                }
            }
            assert forall|y: int, f: int| 0 <= y < w.entries.len() && 0 <= f < w.entries.len() && y != f && (#[trigger] w.entries[y]).registered
                && (#[trigger] w.entries[f]).registered implies !same_work(w.entries[y], w.entries[f]) by {
                assert(w.entries[y] == v.entries[y] && w.entries[f] == v.entries[f]);
            }
            assert forall|l: int, i: int, j: int| 0 <= l < w.leases.len() && 0 <= i < w.leases[l].held.len() && 0 <= j < w.leases[l].held.len() && i != j
                implies !same_work(w.entries[#[trigger] w.leases[l].held[i] as int], w.entries[#[trigger] w.leases[l].held[j] as int]) by {
                assert(v.leases[l].held[i] < v.entries.len());
                assert(v.leases[l].held[j] < v.entries.len());
            }
            assert forall|y: int| 0 <= y < w.entries.len() && (#[trigger] w.entries[y]).reserved > 0
                implies w.entries[y].flight.outcome == (FlightOutcome::Ready { retained: true }) by {
                assert(w.entries[y] == v.entries[y]);
            }
        }
    }

    proof fn lemma_same_holders(v: RegistryView, w: RegistryView)
        requires
            w.leases == v.leases,
            w.entries.len() == v.entries.len(),
        ensures
            forall|y: int| 0 <= y < w.entries.len() ==> held(w, y) == held(v, y),
    {
        assert forall|y: int| 0 <= y < w.entries.len() implies held(w, y) == held(v, y) by {
            if held(w, y) {
                let (lw, iw) = choose|lw: int, iw: int| 0 <= lw < w.leases.len() && 0 <= iw < w.leases[lw].held.len() && w.leases[lw].open
                    && #[trigger] w.leases[lw].held[iw] == y;
                assert(v.leases[lw].held[iw] == y);
            }
            if held(v, y) {
                let (lv, iv) = choose|lv: int, iv: int| 0 <= lv < v.leases.len() && 0 <= iv < v.leases[lv].held.len() && v.leases[lv].open
                    && #[trigger] v.leases[lv].held[iv] == y;
                assert(w.leases[lv].held[iv] == y);
            }
        }
    }

    /// A waiter of entry `e` leaves, with or without its result.
    pub fn leave(&mut self, e: usize)
        requires
            old(self).inv(),
            e < old(self)@.entries.len(),
            old(self)@.entries[e as int].flight.waiters > 0,
        ensures
            final(self).inv(),
            final(self)@ == leave_spec(old(self)@, e as int),
    {
        proof { self.lemma_view_lengths(); }
        let ghost v = self@;
        let st = self.states[e];
        let waiters = st.waiters - 1;
        let cancelled = st.cancelled || (waiters == 0 && match st.outcome {
            FlightOutcome::InFlight => true,
            _ => false,
        });
        self.states.set(e, EntryState { waiters, cancelled, ..st });
        let ghost mid = self@;
        proof {
            self.lemma_view_lengths();
            let x = WorkEntryView { flight: drop_waiter_spec(v.entries[e as int].flight), ..v.entries[e as int] };
            assert(mid.entries =~= v.entries.update(e as int, x));
            assert(mid.leases =~= v.leases);
            assert(mid == with_entry(v, e as int, x));
            lemma_total_update(v.entries, v.entries.len(), e as int, x);
            Self::lemma_same_holders(v, mid);
            assert forall|y: int| 0 <= y < mid.entries.len() && !set![e as int].contains(y) && !alive(mid, y)
                implies (#[trigger] mid.entries[y]).reserved == 0 && !mid.entries[y].registered by {
                assert(mid.entries[y] == v.entries[y]);
            }
            assert forall|y: int, f: int| 0 <= y < mid.entries.len() && 0 <= f < mid.entries.len() && y != f && (#[trigger] mid.entries[y]).registered
                && (#[trigger] mid.entries[f]).registered implies !same_work(mid.entries[y], mid.entries[f]) by {
                assert(same_work(mid.entries[y], mid.entries[f]) == same_work(v.entries[y], v.entries[f]));
            }
            assert forall|l: int, i: int, j: int| 0 <= l < mid.leases.len() && 0 <= i < mid.leases[l].held.len() && 0 <= j < mid.leases[l].held.len() && i != j
                implies !same_work(mid.entries[#[trigger] mid.leases[l].held[i] as int], mid.entries[#[trigger] mid.leases[l].held[j] as int]) by {
                assert(v.leases[l].held[i] < v.entries.len());
                assert(v.leases[l].held[j] < v.entries.len());
            }
            assert(wf_except(mid, set![e as int]));
        }
        let ghost only = set![e as int];
        self.settle(e, Ghost(only));
        proof {
            assert(set![e as int].remove(e as int) =~= Set::<int>::empty());
            lemma_wf_except_empty(self@);
        }
    }

    /// The work of entry `e` failed: the entry is withdrawn from new requests and
    /// its waiters receive the failure.
    pub fn fail(&mut self, e: usize, code: ErrorCode)
        requires
            old(self).inv(),
            e < old(self)@.entries.len(),
        ensures
            final(self).inv(),
            final(self)@ == fail_spec(old(self)@, e as int, code),
    {
        proof { self.lemma_view_lengths(); }
        let ghost v = self@;
        let st = self.states[e];
        let outcome = match st.outcome {
            FlightOutcome::InFlight => FlightOutcome::Failed(code),
            other => other,
        };
        self.states.set(e, EntryState { registered: false, outcome, ..st });
        proof {
            self.lemma_view_lengths();
            let w = self@;
            let x = WorkEntryView { registered: false, flight: publish_failed_spec(v.entries[e as int].flight, code).1, ..v.entries[e as int] };
            assert(w.entries =~= v.entries.update(e as int, x));
            assert(w.leases =~= v.leases);
            assert(w == fail_spec(v, e as int, code));
            lemma_total_update(v.entries, v.entries.len(), e as int, x);
            Self::lemma_same_holders(v, w);
            assert forall|y: int| 0 <= y < w.entries.len() && !alive(w, y)
                implies (#[trigger] w.entries[y]).reserved == 0 && !w.entries[y].registered by {
                assert(alive(w, y) == alive(v, y));
            }
            assert forall|y: int, f: int| 0 <= y < w.entries.len() && 0 <= f < w.entries.len() && y != f && (#[trigger] w.entries[y]).registered
                && (#[trigger] w.entries[f]).registered implies !same_work(w.entries[y], w.entries[f]) by {
                assert(w.entries[y] == v.entries[y] && w.entries[f] == v.entries[f]);
            }
            assert forall|l: int, i: int, j: int| 0 <= l < w.leases.len() && 0 <= i < w.leases[l].held.len() && 0 <= j < w.leases[l].held.len() && i != j
                implies !same_work(w.entries[#[trigger] w.leases[l].held[i] as int], w.entries[#[trigger] w.leases[l].held[j] as int]) by {
                assert(v.leases[l].held[i] < v.entries.len());
                assert(v.leases[l].held[j] < v.entries.len());
            }
            assert forall|y: int| 0 <= y < w.entries.len() && (#[trigger] w.entries[y]).reserved > 0
                implies w.entries[y].flight.outcome == (FlightOutcome::Ready { retained: true }) by {
                assert(v.entries[y].reserved > 0);
            }
        }
    }

    /// Entry `e`'s work produced a result of `bytes` bytes; returns whether the
    /// result is retained for later requests.
    pub fn complete(&mut self, e: usize, bytes: usize) -> (kept: bool)
        requires
            old(self).inv(),
            e < old(self)@.entries.len(),
            alive(old(self)@, e as int),
        ensures
            final(self).inv(),
            (final(self)@, kept) == complete_spec(old(self)@, e as int, bytes as nat),
    {
        proof { self.lemma_view_lengths(); }
        let ghost v = self@;
        let st = self.states[e];
        let can = bytes > 0 && bytes <= self.maximum - self.used && bytes <= 0xffff_ffffusize;
        let retained = can && st.reserved == 0;
        let reserved1 = if retained { bytes } else { st.reserved };
        proof {
            lemma_total_bounds(v.entries, v.entries.len(), e as int);
        }
        let used1 = if retained { self.used + bytes } else { self.used };
        let published = !st.cancelled && match st.outcome {
            FlightOutcome::InFlight => true,
            _ => false,
        };
        let outcome = if published { FlightOutcome::Ready { retained } } else { st.outcome };
        let used2 = if published { used1 } else { used1 - reserved1 };
        let reserved2 = if published { reserved1 } else { 0 };
        self.used = used2;
        self.states.set(e, EntryState { outcome, reserved: reserved2, registered: st.registered && retained && published, ..st });
        proof {
            self.lemma_view_lengths();
            let w = self@;
            let (cv, ck) = complete_spec(v, e as int, bytes as nat);
            let x = cv.entries[e as int];
            assert(w.entries =~= cv.entries);
            assert(w.leases =~= v.leases);
            assert(w == cv);
            lemma_total_update(v.entries, v.entries.len(), e as int, x);
            Self::lemma_same_holders(v, w);
            assert forall|y: int| 0 <= y < w.entries.len() && !alive(w, y)
                implies (#[trigger] w.entries[y]).reserved == 0 && !w.entries[y].registered by {
                assert(alive(w, y) == alive(v, y));
            }
            assert forall|y: int, f: int| 0 <= y < w.entries.len() && 0 <= f < w.entries.len() && y != f && (#[trigger] w.entries[y]).registered
                && (#[trigger] w.entries[f]).registered implies !same_work(w.entries[y], w.entries[f]) by {
                assert(same_work(w.entries[y], w.entries[f]) == same_work(v.entries[y], v.entries[f]));
                assert(w.entries[y].registered ==> v.entries[y].registered);
                assert(w.entries[f].registered ==> v.entries[f].registered);
            }
            assert forall|l: int, i: int, j: int| 0 <= l < w.leases.len() && 0 <= i < w.leases[l].held.len() && 0 <= j < w.leases[l].held.len() && i != j
                implies !same_work(w.entries[#[trigger] w.leases[l].held[i] as int], w.entries[#[trigger] w.leases[l].held[j] as int]) by {
                assert(v.leases[l].held[i] < v.entries.len());
                assert(v.leases[l].held[j] < v.entries.len());
            }
            assert forall|y: int| 0 <= y < w.entries.len() && (#[trigger] w.entries[y]).reserved > 0
                implies w.entries[y].flight.outcome == (FlightOutcome::Ready { retained: true }) by {
                if y != e as int {
                    assert(w.entries[y] == v.entries[y]);
                }
            }
        }
        retained && published
    }

    fn find_joinable(&self, kind: WorkKind, key: &Vec<u8>) -> (r: Option<usize>)
        requires
            self.lengths_agree(),
        ensures
            r matches Some(p) ==> joinable_from(self@, kind, key@, 0) == Some(p as int),
            r is None ==> joinable_from(self@, kind, key@, 0) is None,
    {
        proof { self.lemma_view_lengths(); }
        let mut k: usize = 0;
        while k < self.states.len()
            invariant
                k <= self.states@.len(),
                self.lengths_agree(),
                self@.entries.len() == self.states@.len(),
                joinable_from(self@, kind, key@, 0) == joinable_from(self@, kind, key@, k as int),
            decreases self.states@.len() - k,
        {
            proof { self.lemma_view_lengths(); }
            let st = self.states[k];
            if st.registered && !st.cancelled && self.kinds[k] == kind && same_bytes(&self.keys[k], key) {
                return Some(k);
            }
            k = k + 1;
        }
        None
    }

    fn copy_key(key: &Vec<u8>) -> (r: Vec<u8>)
        ensures
            r@ == key@,
    {
        let mut out: Vec<u8> = Vec::new();
        let mut i: usize = 0;
        while i < key.len()
            invariant
                i <= key.len(),
                out@ == key@.take(i as int),
            decreases key.len() - i,
        {
            out.push(key[i]);
            assert(key@.take(i + 1) =~= key@.take(i as int).push(key@[i as int]));
            i = i + 1;
        }
        assert(key@.take(i as int) =~= key@);
        out
    }

    fn join_entry(&mut self, kind: WorkKind, key: &Vec<u8>) -> (r: (usize, bool))
        requires
            old(self).inv(),
            forall|e: int| 0 <= e < old(self)@.entries.len() ==> (#[trigger] old(self)@.entries[e]).flight.waiters < usize::MAX,
        ensures
            final(self).lengths_agree(),
            registry_wf(final(self)@),
            (final(self)@, r.0 as int, r.1) == join_entry_spec(old(self)@, kind, key@),
            r.0 < final(self)@.entries.len(),
            final(self)@.entries[r.0 as int].flight.waiters > 0,
            does(final(self)@.entries[r.0 as int], kind, key@),
    {
        proof { self.lemma_view_lengths(); }
        let ghost v = self@;
        match self.find_joinable(kind, key) {
            Some(p) => {
                proof {
                    lemma_joinable_from(v, kind, key@, 0);
                    assert(v.entries[p as int] == entry_view(self.kinds@[p as int], self.keys@[p as int]@, self.states@[p as int]));
                }
                let st = self.states[p];
                self.states.set(p, EntryState { waiters: st.waiters + 1, ..st });
                proof {
                    self.lemma_view_lengths();
                    let w = self@;
                    let x = WorkEntryView { flight: FlightView { waiters: v.entries[p as int].flight.waiters + 1, ..v.entries[p as int].flight }, ..v.entries[p as int] };
                    assert(w.entries =~= v.entries.update(p as int, x));
                    assert(w.leases =~= v.leases);
                    lemma_total_update(v.entries, v.entries.len(), p as int, x);
                    Self::lemma_same_holders(v, w);
                    assert forall|y: int| 0 <= y < w.entries.len() && !alive(w, y)
                        implies (#[trigger] w.entries[y]).reserved == 0 && !w.entries[y].registered by {
                        assert(w.entries[y] == v.entries[y]);
                    }
                    assert forall|y: int, f: int| 0 <= y < w.entries.len() && 0 <= f < w.entries.len() && y != f && (#[trigger] w.entries[y]).registered
                        && (#[trigger] w.entries[f]).registered implies !same_work(w.entries[y], w.entries[f]) by {
                        assert(same_work(w.entries[y], w.entries[f]) == same_work(v.entries[y], v.entries[f]));
                    }
                    assert forall|l: int, i: int, j: int| 0 <= l < w.leases.len() && 0 <= i < w.leases[l].held.len() && 0 <= j < w.leases[l].held.len() && i != j
                        implies !same_work(w.entries[#[trigger] w.leases[l].held[i] as int], w.entries[#[trigger] w.leases[l].held[j] as int]) by {
                        assert(v.leases[l].held[i] < v.entries.len());
                        assert(v.leases[l].held[j] < v.entries.len());
                    }
                    assert forall|y: int| 0 <= y < w.entries.len() && (#[trigger] w.entries[y]).reserved > 0
                        implies w.entries[y].flight.outcome == (FlightOutcome::Ready { retained: true }) by {
                        assert(v.entries[y].reserved > 0);
                    }
                    lemma_joinable_from(v, kind, key@, 0);
                }
                (p, false)
            },
            None => {
                let n = self.states.len();
                let mut i: usize = 0;
                while i < n
                    invariant
                        i <= n,
                        n == v.entries.len(),
                        self.lengths_agree(),
                        self.states@.len() == n,
                        self.used == v.used,
                        self.maximum == v.maximum,
                        self.leases@ == old(self).leases@,
                        self.open@ == old(self).open@,
                        self.kinds@ == old(self).kinds@,
                        self.keys@ == old(self).keys@,
                        forall|y: int| 0 <= y < n ==> #[trigger] self@.entries[y] == (if y < i { withdraw(v.entries, kind, key@)[y] } else { v.entries[y] }),
                    decreases n - i,
                {
                    proof { self.lemma_view_lengths(); }
                    let st = self.states[i];
                    if st.registered && self.kinds[i] == kind && same_bytes(&self.keys[i], key) {
                        self.states.set(i, EntryState { registered: false, ..st });
                    }
                    proof {
                        self.lemma_view_lengths();
                        assert forall|y: int| 0 <= y < n implies #[trigger] self@.entries[y] == (if y < i + 1 { withdraw(v.entries, kind, key@)[y] } else { v.entries[y] }) by {
                            if y == i as int {
                                assert(self@.entries[y] == withdraw(v.entries, kind, key@)[y]);
                            }
                        }
                    }
                    i = i + 1;
                }
                let ghost mid = self@;
                let ghost mid_kinds = self.kinds@;
                let ghost mid_keys = self.keys@;
                let ghost mid_states = self.states@;
                proof {
                    self.lemma_view_lengths();
                }
                self.kinds.push(kind);
                self.keys.push(Self::copy_key(key));
                self.states.push(EntryState { waiters: 1, cancelled: false, outcome: FlightOutcome::InFlight, reserved: 0, registered: true });
                proof {
                    self.lemma_view_lengths();
                    let w = self@;
                    let fresh = WorkEntryView {
                        kind,
                        key: key@,
                        flight: FlightView { waiters: 1, cancelled: false, outcome: FlightOutcome::InFlight },
                        reserved: 0,
                        registered: true,
                    };
                    let wd = withdraw(v.entries, kind, key@);
                    assert forall|y: int| 0 <= y < n implies #[trigger] w.entries[y] == wd[y] by {
                        assert(self.kinds@[y] == mid_kinds[y]);
                        assert(self.keys@[y] == mid_keys[y]);
                        assert(self.states@[y] == mid_states[y]);
                        assert(mid.entries[y] == wd[y]);
                    }
                    assert(w.entries[n as int] == fresh);
                    assert(w.entries =~= wd.push(fresh));
                    assert(w.leases =~= v.leases);
                    lemma_joinable_from(v, kind, key@, 0);
                    assert(w == join_entry_spec(v, kind, key@).0);
                    // budget: withdrawal and the fresh entry reserve nothing new
                    assert forall|y: int| 0 <= y < wd.len() implies #[trigger] wd[y].reserved == v.entries[y].reserved by {}
                    lemma_total_same(wd, v.entries, n as nat);
                    lemma_total_push(wd, n as nat, fresh);
                    assert(held(w, n as int) || !held(w, n as int));
                    assert forall|y: int| 0 <= y < n implies held(w, y) == held(v, y) by {
                        if held(w, y) {
                            let (lw, iw) = choose|lw: int, iw: int| 0 <= lw < w.leases.len() && 0 <= iw < w.leases[lw].held.len() && w.leases[lw].open
                                && #[trigger] w.leases[lw].held[iw] == y;
                            assert(v.leases[lw].held[iw] == y);
                        }
                        if held(v, y) {
                            let (lv, iv) = choose|lv: int, iv: int| 0 <= lv < v.leases.len() && 0 <= iv < v.leases[lv].held.len() && v.leases[lv].open
                                && #[trigger] v.leases[lv].held[iv] == y;
                            assert(w.leases[lv].held[iv] == y);
                        }
                    }
                    assert forall|y: int| 0 <= y < w.entries.len() && !alive(w, y)
                        implies (#[trigger] w.entries[y]).reserved == 0 && !w.entries[y].registered by {
                        if y < n {
                            assert(alive(w, y) == alive(v, y));
                        }
                    }
                    assert forall|l: int, ii: int| 0 <= l < w.leases.len() && 0 <= ii < w.leases[l].held.len() implies #[trigger] w.leases[l].held[ii] < w.entries.len() by {
                        assert(v.leases[l].held[ii] < v.entries.len());
                    }
                    assert forall|y: int, f: int| 0 <= y < w.entries.len() && 0 <= f < w.entries.len() && y != f && (#[trigger] w.entries[y]).registered
                        && (#[trigger] w.entries[f]).registered implies !same_work(w.entries[y], w.entries[f]) by {
                        if y < n && f < n {
                            assert(v.entries[y].registered && v.entries[f].registered);
                        } else if y == n {
                            assert(!does(v.entries[f], kind, key@) || !v.entries[f].registered);
                        } else {
                            assert(!does(v.entries[y], kind, key@) || !v.entries[y].registered);
                        }
                    }
                    assert forall|l: int, a: int, b: int| 0 <= l < w.leases.len() && 0 <= a < w.leases[l].held.len() && 0 <= b < w.leases[l].held.len() && a != b
                        implies !same_work(w.entries[#[trigger] w.leases[l].held[a] as int], w.entries[#[trigger] w.leases[l].held[b] as int]) by {
                        assert(v.leases[l].held[a] < v.entries.len());
                        assert(v.leases[l].held[b] < v.entries.len());
                        assert(same_work(w.entries[w.leases[l].held[a] as int], w.entries[w.leases[l].held[b] as int])
                            == same_work(v.entries[v.leases[l].held[a] as int], v.entries[v.leases[l].held[b] as int]));
                    }
                    assert forall|y: int| 0 <= y < w.entries.len() && (#[trigger] w.entries[y]).reserved > 0
                        implies w.entries[y].flight.outcome == (FlightOutcome::Ready { retained: true }) by {
                        if y < n {
                            assert(v.entries[y].reserved > 0);
                        }
                    }
                }
                (n, true)
            },
        }
    }

    fn find_held(&self, l: usize, kind: WorkKind, key: &Vec<u8>) -> (r: Option<usize>)
        requires
            self.lengths_agree(),
            registry_wf(self@),
            l < self@.leases.len(),
        ensures
            r matches Some(i) ==> held_position_from(self@, l as int, kind, key@, 0) == Some(i as int),
            r is None ==> held_position_from(self@, l as int, kind, key@, 0) is None,
    {
        proof { self.lemma_view_lengths(); }
        let ghost v = self@;
        let mut i: usize = 0;
        while i < self.leases[l].len()
            invariant
                l < self.leases@.len(),
                i <= self.leases@[l as int].len(),
                v == self@,
                self.lengths_agree(),
                registry_wf(v),
                v.entries.len() == self.states@.len(),
                v.leases[l as int].held == self.leases@[l as int]@,
                held_position_from(v, l as int, kind, key@, 0) == held_position_from(v, l as int, kind, key@, i as int),
            decreases self.leases@[l as int].len() - i,
        {
            proof { self.lemma_view_lengths(); }
            let h = self.leases[l][i];
            assert(v.leases[l as int].held[i as int] == h);
            assert(h < v.entries.len());
            if self.kinds[h] == kind && same_bytes(&self.keys[h], key) {
                return Some(i);
            }
            i = i + 1;
        }
        None
    }

    /// Joins the work of `kind` and `key` inside open lease `l`: returns the entry
    /// joined and whether the caller leads its work.
    pub fn join(&mut self, l: usize, kind: WorkKind, key: &Vec<u8>) -> (r: (usize, bool))
        requires
            old(self).inv(),
            l < old(self)@.leases.len(),
            old(self)@.leases[l as int].open,
            forall|e: int| 0 <= e < old(self)@.entries.len() ==> (#[trigger] old(self)@.entries[e]).flight.waiters < usize::MAX,
        ensures
            final(self).inv(),
            (final(self)@, r.0 as int, r.1) == join_spec(old(self)@, l as int, kind, key@),
    {
        let ghost v = self@;
        let (id, leader) = self.join_entry(kind, key);
        let ghost v1 = self@;
        proof {
            self.lemma_view_lengths();
            assert(v1.leases == v.leases);
        }
        let found = self.find_held(l, kind, key);
        proof {
            lemma_held_position_from(v1, l as int, kind, key@, 0);
        }
        let old_held = &self.leases[l];
        let mut held_ids: Vec<usize> = Vec::new();
        let mut j: usize = 0;
        while j < old_held.len()
            invariant
                j <= old_held@.len(),
                held_ids@ == old_held@.take(j as int),
            decreases old_held@.len() - j,
        {
            held_ids.push(old_held[j]);
            assert(old_held@.take(j + 1) =~= old_held@.take(j as int).push(old_held@[j as int]));
            j = j + 1;
        }
        assert(old_held@.take(j as int) =~= old_held@);
        let replaced = match found {
            Some(i) => {
                let q = held_ids[i];
                held_ids.set(i, id);
                Some(q)
            },
            None => {
                held_ids.push(id);
                None
            },
        };
        self.leases.set(l, held_ids);
        let ghost v2 = self@;
        proof {
            self.lemma_view_lengths();
            let lease = v1.leases[l as int];
            assert(v2.entries =~= v1.entries);
            match found {
                Some(i) => {
                    let q = lease.held[i as int] as int;
                    assert(v2.leases =~= v1.leases.update(l as int, LeaseView { held: lease.held.update(i as int, id), ..lease }));
                    assert(q < v1.entries.len());
                    assert(does(v1.entries[q], kind, key@));
                    assert forall|y: int| 0 <= y < v2.entries.len() && y != q && y != id as int implies held(v2, y) == held(v1, y) by {
                        if held(v2, y) {
                            let (lw, iw) = choose|lw: int, iw: int| 0 <= lw < v2.leases.len() && 0 <= iw < v2.leases[lw].held.len() && v2.leases[lw].open
                                && #[trigger] v2.leases[lw].held[iw] == y;
                            assert(v1.leases[lw].held[iw] == y);
                        }
                        if held(v1, y) {
                            let (lv, iv) = choose|lv: int, iv: int| 0 <= lv < v1.leases.len() && 0 <= iv < v1.leases[lv].held.len() && v1.leases[lv].open
                                && #[trigger] v1.leases[lv].held[iv] == y;
                            assert(v2.leases[lv].held[iv] == y);
                        }
                    }
                    let s = if q != id as int { set![q] } else { Set::<int>::empty() };
                    assert forall|y: int| 0 <= y < v2.entries.len() && !s.contains(y) && !alive(v2, y)
                        implies (#[trigger] v2.entries[y]).reserved == 0 && !v2.entries[y].registered by {
                        if y == q {
                            assert(q == id as int);
                        }
                        if y != id as int {
                            assert(alive(v2, y) == alive(v1, y));
                        }
                    }
                    assert forall|ll: int, ii: int| 0 <= ll < v2.leases.len() && 0 <= ii < v2.leases[ll].held.len()
                        implies #[trigger] v2.leases[ll].held[ii] < v2.entries.len() by {
                        if !(ll == l as int && ii == i as int) {
                            assert(v2.leases[ll].held[ii] == v1.leases[ll].held[ii]);
                        }
                    }
                    assert forall|ll: int, a: int, b: int| 0 <= ll < v2.leases.len() && 0 <= a < v2.leases[ll].held.len() && 0 <= b < v2.leases[ll].held.len() && a != b
                        implies !same_work(v2.entries[#[trigger] v2.leases[ll].held[a] as int], v2.entries[#[trigger] v2.leases[ll].held[b] as int]) by {
                        if ll == l as int {
                            if a == i as int {
                                assert(!same_work(v1.entries[v1.leases[ll].held[a] as int], v1.entries[v1.leases[ll].held[b] as int]));
                            } else if b == i as int {
                                assert(!same_work(v1.entries[v1.leases[ll].held[a] as int], v1.entries[v1.leases[ll].held[b] as int]));
                            } else {
                                assert(!same_work(v1.entries[v1.leases[ll].held[a] as int], v1.entries[v1.leases[ll].held[b] as int]));
                            }
                        } else {
                            assert(!same_work(v1.entries[v1.leases[ll].held[a] as int], v1.entries[v1.leases[ll].held[b] as int]));
                        }
                    }
                    assert(wf_except(v2, s));
                },
                None => {
                    assert(v2.leases =~= v1.leases.update(l as int, LeaseView { held: lease.held.push(id), ..lease }));
                    assert forall|y: int| 0 <= y < v2.entries.len() && held(v1, y) implies held(v2, y) by {
                        let (lv, iv) = choose|lv: int, iv: int| 0 <= lv < v1.leases.len() && 0 <= iv < v1.leases[lv].held.len() && v1.leases[lv].open
                            && #[trigger] v1.leases[lv].held[iv] == y;
                        assert(v2.leases[lv].held[iv] == y);
                    }
                    assert forall|y: int| 0 <= y < v2.entries.len() && !alive(v2, y)
                        implies (#[trigger] v2.entries[y]).reserved == 0 && !v2.entries[y].registered by {
                        assert(!alive(v1, y));
                    }
                    assert forall|ll: int, ii: int| 0 <= ll < v2.leases.len() && 0 <= ii < v2.leases[ll].held.len()
                        implies #[trigger] v2.leases[ll].held[ii] < v2.entries.len() by {
                        if !(ll == l as int && ii == lease.held.len()) {
                            assert(v2.leases[ll].held[ii] == v1.leases[ll].held[ii]);
                        }
                    }
                    assert forall|ll: int, a: int, b: int| 0 <= ll < v2.leases.len() && 0 <= a < v2.leases[ll].held.len() && 0 <= b < v2.leases[ll].held.len() && a != b
                        implies !same_work(v2.entries[#[trigger] v2.leases[ll].held[a] as int], v2.entries[#[trigger] v2.leases[ll].held[b] as int]) by {
                        if ll == l as int && a == lease.held.len() {
                            assert(!does(v1.entries[v1.leases[ll].held[b] as int], kind, key@));
                        } else if ll == l as int && b == lease.held.len() {
                            assert(!does(v1.entries[v1.leases[ll].held[a] as int], kind, key@));
                        } else {
                            assert(!same_work(v1.entries[v1.leases[ll].held[a] as int], v1.entries[v1.leases[ll].held[b] as int]));
                        }
                    }
                    assert(registry_wf(v2));
                },
            }
        }
        match replaced {
            Some(q) => {
                if q != id {
                    let ghost only = set![q as int];
                    self.settle(q, Ghost(only));
                    proof {
                        assert(only.remove(q as int) =~= Set::<int>::empty());
                        lemma_wf_except_empty(self@);
                    }
                } else {
                    proof {
                        assert(v2.leases[l as int].held =~= v1.leases[l as int].held);
                        lemma_wf_except_empty(v2);
                    }
                }
            },
            None => {},
        }
        (id, leader)
    }

    /// Ends open batch lease `l`.
    pub fn end_batch(&mut self, l: usize)
        requires
            old(self).inv(),
            l < old(self)@.leases.len(),
            old(self)@.leases[l as int].open,
        ensures
            final(self).inv(),
            final(self)@ == end_batch_spec(old(self)@, l as int),
    {
        proof { self.lemma_view_lengths(); }
        let ghost v = self@;
        let ghost ids = v.leases[l as int].held;
        self.open.set(l, false);
        let ghost closed = self@;
        proof {
            self.lemma_view_lengths();
            assert(closed.leases =~= v.leases.update(l as int, LeaseView { open: false, ..v.leases[l as int] }));
            assert(closed.entries =~= v.entries);
            assert forall|y: int| 0 <= y < closed.entries.len() && !held_from(ids, 0).contains(y) && held(v, y) implies held(closed, y) by {
                let (lv, iv) = choose|lv: int, iv: int| 0 <= lv < v.leases.len() && 0 <= iv < v.leases[lv].held.len() && v.leases[lv].open
                    && #[trigger] v.leases[lv].held[iv] == y;
                if lv == l as int {
                    assert(held_from(ids, 0).contains(y));
                }
                assert(closed.leases[lv].held[iv] == y);
            }
            assert forall|y: int| 0 <= y < closed.entries.len() && !held_from(ids, 0).contains(y) && !alive(closed, y)
                implies (#[trigger] closed.entries[y]).reserved == 0 && !closed.entries[y].registered by {
                assert(!alive(v, y));
            }
            assert forall|ll: int, a: int, b: int| 0 <= ll < closed.leases.len() && 0 <= a < closed.leases[ll].held.len() && 0 <= b < closed.leases[ll].held.len() && a != b
                implies !same_work(closed.entries[#[trigger] closed.leases[ll].held[a] as int], closed.entries[#[trigger] closed.leases[ll].held[b] as int]) by {
                assert(closed.leases[ll].held == v.leases[ll].held);
            }
            assert forall|ll: int, ii: int| 0 <= ll < closed.leases.len() && 0 <= ii < closed.leases[ll].held.len()
                implies #[trigger] closed.leases[ll].held[ii] < closed.entries.len() by {
                assert(closed.leases[ll].held == v.leases[ll].held);
            }
            assert(wf_except(closed, held_from(ids, 0)));
        }
        let n = self.leases[l].len();
        let mut i: usize = 0;
        while i < n
            invariant
                i <= n,
                n == ids.len(),
                l < self.leases@.len(),
                self.lengths_agree(),
                self.leases@[l as int]@ == ids,
                self@ == settle_all(closed, ids, i as nat),
                wf_except(self@, held_from(ids, i as int)),
            decreases n - i,
        {
            let e = self.leases[l][i];
            proof {
                self.lemma_view_lengths();
                assert(self@.leases[l as int].held[i as int] == e);
            }
            let ghost s_i = held_from(ids, i as int);
            self.settle(e, Ghost(s_i));
            proof {
                assert(s_i.remove(e as int).subset_of(held_from(ids, i + 1))) by {
                    assert forall|x: int| s_i.remove(e as int).contains(x) implies held_from(ids, i + 1).contains(x) by {
                        let j = choose|j: int| i <= j < ids.len() && ids[j] as int == x;
                        assert(j != i as int);
                    }
                }
                lemma_wf_except_weaken(self@, s_i.remove(e as int), held_from(ids, i + 1));
            }
            i = i + 1;
        }
        proof {
            assert(held_from(ids, n as int) =~= Set::<int>::empty());
            lemma_wf_except_empty(self@);
        }
    }

    /// Registered entries: the work a new request can still join or that waits to
    /// be withdrawn.
    pub fn entry_count(&self) -> (n: usize)
        requires
            self.inv(),
        ensures
            n == registered_count(self@.entries, self@.entries.len()),
    {
        proof { self.lemma_view_lengths(); }
        let mut count: usize = 0;
        let mut i: usize = 0;
        while i < self.states.len()
            invariant
                i <= self.states@.len(),
                self.lengths_agree(),
                self@.entries.len() == self.states@.len(),
                count == registered_count(self@.entries, i as nat),
            decreases self.states@.len() - i,
        {
            proof {
                self.lemma_view_lengths();
                lemma_registered_count_bound(self@.entries, i as nat);
            }
            if self.states[i].registered {
                count = count + 1;
            }
            i = i + 1;
        }
        count
    }

    /// A consistent registry satisfies its invariant.
    pub proof fn lemma_inv_wf(&self)
        requires
            self.inv(),
        ensures
            registry_wf(self@),
    {
    }

    /// Requests waiting for entry `e`.
    pub fn waiter_count(&self, e: usize) -> (n: usize)
        requires
            self.inv(),
            e < self@.entries.len(),
        ensures
            n == self@.entries[e as int].flight.waiters,
    {
        proof { self.lemma_view_lengths(); }
        self.states[e].waiters
    }

    /// Whether the work of entry `e` was cancelled.
    pub fn is_cancelled(&self, e: usize) -> (c: bool)
        requires
            self.inv(),
            e < self@.entries.len(),
        ensures
            c == self@.entries[e as int].flight.cancelled,
    {
        proof { self.lemma_view_lengths(); }
        self.states[e].cancelled
    }

    /// What entry `e` published.
    pub fn outcome(&self, e: usize) -> (o: FlightOutcome)
        requires
            self.inv(),
            e < self@.entries.len(),
        ensures
            o == self@.entries[e as int].flight.outcome,
    {
        proof { self.lemma_view_lengths(); }
        self.states[e].outcome
    }

    /// Opens a batch lease for one generation request; its identity is returned.
    pub fn begin_batch(&mut self) -> (l: usize)
        requires
            old(self).inv(),
        ensures
            final(self).inv(),
            l == old(self)@.leases.len(),
            final(self)@ == (RegistryView { leases: old(self)@.leases.push(LeaseView { open: true, held: Seq::empty() }), ..old(self)@ }),
    {
        let ghost v = self@;
        proof { self.lemma_view_lengths(); }
        let l = self.leases.len();
        self.leases.push(Vec::new());
        self.open.push(true);
        proof {
            self.lemma_view_lengths();
            let w = self@;
            assert(w.leases =~= v.leases.push(LeaseView { open: true, held: Seq::empty() }));
            assert(w.entries =~= v.entries);
            assert forall|e: int| 0 <= e < w.entries.len() implies held(w, e) == held(v, e) by {
                if held(w, e) {
                    let (lw, iw) = choose|lw: int, iw: int| 0 <= lw < w.leases.len() && 0 <= iw < w.leases[lw].held.len() && w.leases[lw].open
                        && #[trigger] w.leases[lw].held[iw] == e;
                    assert(lw < v.leases.len());
                    assert(v.leases[lw].held[iw] == e);
                }
                if held(v, e) {
                    let (lv, iv) = choose|lv: int, iv: int| 0 <= lv < v.leases.len() && 0 <= iv < v.leases[lv].held.len() && v.leases[lv].open
                        && #[trigger] v.leases[lv].held[iv] == e;
                    assert(w.leases[lv].held[iv] == e);
                }
            }
            assert forall|e: int| 0 <= e < w.entries.len() implies alive(w, e) == alive(v, e) by {}
            assert(registry_wf(w));
        }
        l
    }
}

/// Equal work is done once: after a request joined the work of a key, the next
/// request for the same work, in any lease, joins the same entry and does not
/// lead it.
pub proof fn lemma_equal_work_shares_its_entry(
    before: WorkRegistry,
    after: WorkRegistry,
    l: int,
    kind: WorkKind,
    key: Seq<u8>,
    id: int,
    leader: bool,
    l2: int,
)
    requires
        before.inv(),
        after.inv(),
        0 <= l < before@.leases.len(),
        before@.leases[l].open,
        (after@, id, leader) == join_spec(before@, l, kind, key),
    ensures
        join_spec(after@, l2, kind, key).1 == id,
        !join_spec(after@, l2, kind, key).2,
{
    let v = before@;
    let w = after@;
    before.lemma_inv_wf();
    after.lemma_inv_wf();
    lemma_joinable_from(v, kind, key, 0);
    let (v1, id1, _) = join_entry_spec(v, kind, key);
    assert(id1 == id);
    assert(0 <= id < v1.entries.len());
    assert(v1.entries[id].registered && !v1.entries[id].flight.cancelled && does(v1.entries[id], kind, key));
    let lease = v1.leases[l];
    assert(v1.leases == v.leases);
    lemma_held_position_from(v1, l, kind, key, 0);
    match held_position_from(v1, l, kind, key, 0) {
        Some(i) => {
            let q = lease.held[i] as int;
            assert(v.leases[l].held[i] < v.entries.len());
            assert(q < v1.entries.len());
            let v2 = RegistryView { leases: v1.leases.update(l, LeaseView { held: lease.held.update(i, id as usize), ..lease }), ..v1 };
            if q != id {
                assert(w == settle_spec(v2, q));
                assert(w.entries.len() == v1.entries.len());
                assert(w.entries[id] == v1.entries[id]);
            } else {
                assert(w == v2);
            }
        },
        None => {},
    }
    assert(w.entries.len() == v1.entries.len());
    assert(w.entries[id] == v1.entries[id]);
    lemma_joinable_from(w, kind, key, 0);
    match joinable_from(w, kind, key, 0) {
        Some(p) => {
            if p != id {
                assert(w.entries[p].registered && w.entries[id].registered);
                assert(same_work(w.entries[p], w.entries[id]));
            }
        },
        None => {
            assert(w.entries[id].registered && !w.entries[id].flight.cancelled && does(w.entries[id], kind, key));
        },
    }
}

/// A result that is not kept is not offered again: when the registered work of
/// entry `e` completes without being retained and published, the next request
/// for that work leads a new flight.
pub proof fn lemma_unkept_result_is_redone(before: WorkRegistry, after: WorkRegistry, e: int, bytes: nat, l: int)
    requires
        before.inv(),
        after.inv(),
        0 <= e < before@.entries.len(),
        before@.entries[e].registered,
        (after@, false) == complete_spec(before@, e, bytes),
    ensures
        join_spec(after@, l, before@.entries[e].kind, before@.entries[e].key).2,
{
    let v = before@;
    let w = after@;
    before.lemma_inv_wf();
    let kind = v.entries[e].kind;
    let key = v.entries[e].key;
    lemma_joinable_from(w, kind, key, 0);
    match joinable_from(w, kind, key, 0) {
        Some(p) => {
            assert(w.entries[e].registered == false);
            assert(p != e);
            assert(w.entries[p] == v.entries[p]);
            assert(v.entries[p].registered && v.entries[e].registered);
            assert(same_work(v.entries[p], v.entries[e]));
        },
        None => {},
    }
}

/// Whether a result of `bytes` bytes fits the registry's free budget: a
/// positive count within what is left of the budget, countable as 32-bit permits.
pub open spec fn admitted(v: RegistryView, bytes: nat) -> bool {
    0 < bytes && v.used + bytes <= v.maximum && bytes <= u32::MAX
}

/// What every waiter of entry `e` sees when its unfinished, uncancelled work
/// completes with `bytes` bytes: a ready result that is retained exactly when
/// those bytes were admitted to the budget, which then holds them; a result
/// that was not admitted leaves the budget as it was.
pub proof fn lemma_waiters_see_admission(before: WorkRegistry, e: int, bytes: nat)
    requires
        before.inv(),
        0 <= e < before@.entries.len(),
        before@.entries[e].flight.outcome is InFlight,
        !before@.entries[e].flight.cancelled,
    ensures
        ({
            let (after, kept) = complete_spec(before@, e, bytes);
            &&& after.entries[e].flight.outcome == (FlightOutcome::Ready { retained: admitted(before@, bytes) })
            &&& kept == admitted(before@, bytes)
            &&& after.used == (if admitted(before@, bytes) { before@.used + bytes } else { before@.used })
            &&& after.entries[e].reserved == (if admitted(before@, bytes) { bytes } else { 0 })
        }),
{
    before.lemma_inv_wf();
    assert(before@.entries[e].reserved == 0);
}

/// A waiter leaving cancels shared work only when it was the last waiter.
pub proof fn lemma_leaving_cancels_only_last(v: RegistryView, e: int)
    requires
        0 <= e < v.entries.len(),
        v.entries[e].flight.waiters >= 2,
        !v.entries[e].flight.cancelled,
    ensures
        !leave_spec(v, e).entries[e].flight.cancelled,
        leave_spec(v, e).entries[e].flight.waiters == v.entries[e].flight.waiters - 1,
{
}

proof fn lemma_total_zero(entries: Seq<WorkEntryView>, n: nat)
    requires
        n <= entries.len(),
        forall|e: int| 0 <= e < n ==> (#[trigger] entries[e]).reserved == 0,
    ensures
        reserved_total(entries, n) == 0,
    decreases n,
{
    if n > 0 {
        lemma_total_zero(entries, (n - 1) as nat);
    }
}

/// Once no request waits and every lease has ended, every retained byte has
/// returned to the budget.
pub proof fn lemma_idle_registry_holds_no_bytes(v: RegistryView)
    requires
        registry_wf(v),
        forall|e: int| 0 <= e < v.entries.len() ==> (#[trigger] v.entries[e]).flight.waiters == 0,
        forall|l: int| 0 <= l < v.leases.len() ==> !(#[trigger] v.leases[l]).open,
    ensures
        v.used == 0,
{
    assert forall|e: int| 0 <= e < v.entries.len() implies (#[trigger] v.entries[e]).reserved == 0 by {
        assert(!alive(v, e));
    }
    lemma_total_zero(v.entries, v.entries.len());
}

} // verus!
