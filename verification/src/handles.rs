//! The process-local authority for resolved-range handles.
//!
//! A handle names one resolved range for the life of the process. Equal ranges
//! share one handle; the authority never evicts a handle, and refuses a new
//! range once it holds its maximum number of ranges or their canonical
//! encodings would exceed its byte budget. A handle resolves only while the
//! retained frames it names are still exactly the frames it was resolved to.
use vstd::prelude::*;

use crate::epoch::FrameMeta;
use crate::errors::{ErrorCode, ErrorContext, Failure, RetryAdvice, no_context};
use crate::spans::SessionSpan;

verus! {

/// Most ranges one process holds handles for.
pub const MAX_RESOLVED_RANGE_HANDLES: usize = 128;

/// Most bytes of canonical range encodings one process holds.
pub const MAX_RESOLVED_RANGE_HANDLE_BUDGET_BYTES: usize = 16_777_216;

/// What the authority keeps of a resolved range: its scope, its frames in
/// order, and its canonical encoding, which identifies the range and is what
/// the byte budget counts.
#[derive(Debug)]
pub struct RangeRecord {
    pub session_id: u128,
    pub target_id: u128,
    pub resolved: SessionSpan,
    pub frame_ids: Vec<u128>,
    pub encoded: Vec<u8>,
}

pub struct RangeView {
    pub session_id: u128,
    pub target_id: u128,
    pub resolved: SessionSpan,
    pub frame_ids: Seq<u128>,
    pub encoded: Seq<u8>,
}

impl View for RangeRecord {
    type V = RangeView;

    open spec fn view(&self) -> RangeView {
        RangeView {
            session_id: self.session_id,
            target_id: self.target_id,
            resolved: self.resolved,
            frame_ids: self.frame_ids@,
            encoded: self.encoded@,
        }
    }
}

fn copy_ids(v: &Vec<u128>) -> (r: Vec<u128>)
    ensures
        r@ == v@,
{
    let mut out: Vec<u128> = Vec::new();
    let mut i: usize = 0;
    while i < v.len()
        invariant
            i <= v.len(),
            out@ == v@.take(i as int),
        decreases v.len() - i,
    {
        out.push(v[i]);
        assert(v@.take(i + 1) =~= v@.take(i as int).push(v@[i as int]));
        i = i + 1;
    }
    assert(v@.take(i as int) =~= v@);
    out
}

fn copy_bytes(v: &Vec<u8>) -> (r: Vec<u8>)
    ensures
        r@ == v@,
{
    let mut out: Vec<u8> = Vec::new();
    let mut i: usize = 0;
    while i < v.len()
        invariant
            i <= v.len(),
            out@ == v@.take(i as int),
        decreases v.len() - i,
    {
        out.push(v[i]);
        assert(v@.take(i + 1) =~= v@.take(i as int).push(v@[i as int]));
        i = i + 1;
    }
    assert(v@.take(i as int) =~= v@);
    out
}

pub(crate) fn same_bytes(a: &Vec<u8>, b: &Vec<u8>) -> (r: bool)
    ensures
        r == (a@ == b@),
{
    if a.len() != b.len() {
        return false;
    }
    let mut i: usize = 0;
    while i < a.len()
        invariant
            i <= a.len(),
            a.len() == b.len(),
            a@.take(i as int) == b@.take(i as int),
        decreases a.len() - i,
    {
        if a[i] != b[i] {
            assert(a@[i as int] != b@[i as int]);
            return false;
        }
        assert(a@.take(i + 1) =~= a@.take(i as int).push(a@[i as int]));
        assert(b@.take(i + 1) =~= b@.take(i as int).push(b@[i as int]));
        i = i + 1;
    }
    assert(a@.take(i as int) =~= a@);
    assert(b@.take(i as int) =~= b@);
    true
}

impl RangeRecord {
    /// A copy of the record.
    pub fn duplicate(&self) -> (r: RangeRecord)
        ensures
            r@ == self@,
    {
        RangeRecord {
            session_id: self.session_id,
            target_id: self.target_id,
            resolved: self.resolved,
            frame_ids: copy_ids(&self.frame_ids),
            encoded: copy_bytes(&self.encoded),
        }
    }
}

/// The retained metadata still matches the range: one frame per identity, in
/// the range's order, inside its session, target and resolved span, with
/// strictly increasing capture ordinals and non-decreasing session times.
pub open spec fn metadata_matches(range: RangeView, metadata: Seq<FrameMeta>) -> bool {
    &&& metadata.len() == range.frame_ids.len()
    &&& forall|i: int| 0 <= i < metadata.len() ==> #[trigger] frame_in_range(range, metadata, i)
    &&& forall|i: int| 0 <= i < metadata.len() - 1 ==> #[trigger] ordered_at(metadata, i)
}

/// The `i`-th retained frame is the range's `i`-th frame, inside its scope.
pub open spec fn frame_in_range(range: RangeView, metadata: Seq<FrameMeta>, i: int) -> bool {
    let m = metadata[i];
    &&& m.frame_id == range.frame_ids[i]
    &&& m.session_id == range.session_id
    &&& m.target_id == range.target_id
    &&& range.resolved.holds(m.session_time)
}

/// Frames `i` and `i + 1` are in capture order.
pub open spec fn ordered_at(metadata: Seq<FrameMeta>, i: int) -> bool {
    &&& metadata[i].capture_ordinal < metadata[i + 1].capture_ordinal
    &&& metadata[i].session_time <= metadata[i + 1].session_time
}

/// The scope of a range attached to the failures about it.
pub open spec fn range_context(range: RangeView) -> ErrorContext {
    ErrorContext { session_id: Some(range.session_id), target_id: Some(range.target_id), range: Some(range.resolved) }
}

/// The failure for a handle that is unknown to this process, or whose retained
/// evidence changed.
pub fn invalidated_handle(range: Option<&RangeRecord>) -> (f: Failure)
    ensures
        f.code == ErrorCode::EvidenceInvalidated,
        f.message@ == "resolved range handle is unavailable in this process or its retained evidence changed"@,
        f.retry == Some(RetryAdvice::AfterRecovery),
        f.recovery matches Some(r) && r@ == "run temporal_debug_bundle again to resolve currently retained evidence"@,
        f.context == (match range {
            Some(r) => range_context(r@),
            None => no_context(),
        }),
{
    let context = match range {
        Some(r) => ErrorContext { session_id: Some(r.session_id), target_id: Some(r.target_id), range: Some(r.resolved) },
        None => ErrorContext { session_id: None, target_id: None, range: None },
    };
    Failure::new(ErrorCode::EvidenceInvalidated, "resolved range handle is unavailable in this process or its retained evidence changed")
        .with_context(context)
        .with_retry(RetryAdvice::AfterRecovery)
        .with_recovery("run temporal_debug_bundle again to resolve currently retained evidence")
}

fn resource_limit_error() -> (f: Failure)
    ensures
        f.code == ErrorCode::ResourceLimitExceeded,
{
    Failure::new(ErrorCode::ResourceLimitExceeded, "resolved range handle capacity or memory budget has been reached")
}

fn internal_authority_error() -> (f: Failure)
    ensures
        f.code == ErrorCode::Internal,
{
    Failure::new(ErrorCode::Internal, "resolved range handle authority failed")
}

/// Checks that retained metadata read for a range still matches it.
pub fn validate_available_metadata(range: &RangeRecord, metadata: &Vec<FrameMeta>) -> (r: Result<(), Failure>)
    ensures
        match r {
            Ok(()) => metadata_matches(range@, metadata@),
            Err(f) => !metadata_matches(range@, metadata@) && f.code == ErrorCode::EvidenceInvalidated
                && f.context == range_context(range@),
        },
{
    if metadata.len() != range.frame_ids.len() {
        return Err(invalidated_handle(Some(range)));
    }
    let mut i: usize = 0;
    while i < metadata.len()
        invariant
            i <= metadata.len(),
            metadata.len() == range.frame_ids.len(),
            forall|k: int| 0 <= k < i ==> #[trigger] frame_in_range(range@, metadata@, k),
            forall|k: int| 0 <= k < i - 1 ==> #[trigger] ordered_at(metadata@, k),
        decreases metadata.len() - i,
    {
        let m = metadata[i];
        if m.frame_id != range.frame_ids[i] || m.session_id != range.session_id || m.target_id != range.target_id
            || !range.resolved.contains(m.session_time)
        {
            assert(!frame_in_range(range@, metadata@, i as int));
            return Err(invalidated_handle(Some(range)));
        }
        if i > 0 {
            let p = metadata[i - 1];
            if !(p.capture_ordinal < m.capture_ordinal && p.session_time <= m.session_time) {
                assert(!ordered_at(metadata@, i - 1));
                return Err(invalidated_handle(Some(range)));
            }
        }
        i = i + 1;
    }
    Ok(())
}

/// The failure a metadata read for a range ends in: a missing frame invalidates
/// the handle; any other failure is kept as it is.
pub fn metadata_failure(range: &RangeRecord, error: Failure) -> (f: Failure)
    ensures
        error.code == ErrorCode::NotFound ==> f.code == ErrorCode::EvidenceInvalidated && f.context == range_context(range@),
        error.code != ErrorCode::NotFound ==> f.code == error.code && f.message@ == error.message@,
{
    match error.code {
        ErrorCode::NotFound => invalidated_handle(Some(range)),
        _ => error,
    }
}

/// One registered handle.
#[derive(Debug)]
pub struct HandleEntry {
    pub handle: u128,
    pub range: RangeRecord,
}

/// The handles of one process.
#[derive(Debug)]
pub struct RangeHandles {
    entries: Vec<HandleEntry>,
    used_budget_bytes: usize,
    max_entries: usize,
    max_budget_bytes: usize,
}

/// The encoded bytes of the first `n` entries.
pub open spec fn encoded_total(entries: Seq<(u128, RangeView)>, n: nat) -> int
    decreases n,
{
    if n == 0 { 0 } else { encoded_total(entries, (n - 1) as nat) + entries[n - 1].1.encoded.len() }
}

proof fn lemma_encoded_total_prefix(a: Seq<(u128, RangeView)>, b: Seq<(u128, RangeView)>, n: nat)
    requires
        n <= a.len(),
        n <= b.len(),
        forall|k: int| 0 <= k < n ==> a[k] == b[k],
    ensures
        encoded_total(a, n) == encoded_total(b, n),
    decreases n,
{
    if n > 0 {
        lemma_encoded_total_prefix(a, b, (n - 1) as nat);
    }
}

/// Position of the handle among the entries.
pub open spec fn handle_position(entries: Seq<(u128, RangeView)>, handle: u128) -> Option<int> {
    if exists|i: int| 0 <= i < entries.len() && (#[trigger] entries[i]).0 == handle {
        Some(choose|i: int| 0 <= i < entries.len() && (#[trigger] entries[i]).0 == handle)
    } else {
        None
    }
}

/// Position of the entry whose range has the given encoding.
pub open spec fn range_position(entries: Seq<(u128, RangeView)>, encoded: Seq<u8>) -> Option<int> {
    if exists|i: int| 0 <= i < entries.len() && (#[trigger] entries[i]).1.encoded == encoded {
        Some(choose|i: int| 0 <= i < entries.len() && (#[trigger] entries[i]).1.encoded == encoded)
    } else {
        None
    }
}

impl RangeHandles {
    /// The registered entries, in registration order.
    pub closed spec fn entries(&self) -> Seq<(u128, RangeView)> {
        self.entries@.map_values(|e: HandleEntry| (e.handle, e.range@))
    }

    pub closed spec fn used_budget(&self) -> usize {
        self.used_budget_bytes
    }

    pub closed spec fn max_entries(&self) -> usize {
        self.max_entries
    }

    pub closed spec fn max_budget(&self) -> usize {
        self.max_budget_bytes
    }

    /// The range a handle names.
    pub open spec fn range_of(&self, handle: u128) -> Option<RangeView> {
        match handle_position(self.entries(), handle) {
            Some(i) => Some(self.entries()[i].1),
            None => None,
        }
    }

    /// What resolving a handle gives against retained metadata: its range, while
    /// the metadata matches it.
    pub open spec fn resolve_spec(&self, handle: u128, metadata: Seq<FrameMeta>) -> Option<RangeView> {
        match self.range_of(handle) {
            Some(r) => if metadata_matches(r, metadata) { Some(r) } else { None },
            None => None,
        }
    }

    /// Handles are non-nil and distinct, ranges are distinct, and the holdings
    /// stay within the entry limit and the byte budget, which counts exactly the
    /// held encodings.
    pub open spec fn wf(&self) -> bool {
        let es = self.entries();
        &&& forall|i: int| 0 <= i < es.len() ==> (#[trigger] es[i]).0 != 0
        &&& forall|i: int, j: int| 0 <= i < j < es.len() ==> (#[trigger] es[i]).0 != (#[trigger] es[j]).0
        &&& forall|i: int, j: int| 0 <= i < j < es.len() ==> (#[trigger] es[i]).1.encoded != (#[trigger] es[j]).1.encoded
        &&& es.len() <= self.max_entries()
        &&& self.used_budget() == encoded_total(es, es.len())
        &&& self.used_budget() <= self.max_budget()
    }

    /// An empty authority with the given limits.
    pub fn with_limits(max_entries: usize, max_budget_bytes: usize) -> (r: RangeHandles)
        ensures
            r.wf(),
            r.entries() == Seq::<(u128, RangeView)>::empty(),
            r.used_budget() == 0,
            r.max_entries() == max_entries,
            r.max_budget() == max_budget_bytes,
    {
        let r = RangeHandles { entries: Vec::new(), used_budget_bytes: 0, max_entries, max_budget_bytes };
        assert(r.entries() =~= Seq::<(u128, RangeView)>::empty());
        r
    }

    /// An empty authority with the process limits.
    pub fn new() -> (r: RangeHandles)
        ensures
            r.wf(),
            r.entries() == Seq::<(u128, RangeView)>::empty(),
            r.max_entries() == MAX_RESOLVED_RANGE_HANDLES,
            r.max_budget() == MAX_RESOLVED_RANGE_HANDLE_BUDGET_BYTES,
    {
        RangeHandles::with_limits(MAX_RESOLVED_RANGE_HANDLES, MAX_RESOLVED_RANGE_HANDLE_BUDGET_BYTES)
    }

    /// Number of registered handles.
    pub fn len(&self) -> (n: usize)
        ensures
            n == self.entries().len(),
    {
        self.entries.len()
    }

    /// Bytes of canonical encodings currently held.
    pub fn used_budget_bytes(&self) -> (n: usize)
        ensures
            n == self.used_budget(),
    {
        self.used_budget_bytes
    }

    /// Whether the handle is registered.
    pub fn contains(&self, handle: u128) -> (r: bool)
        ensures
            r == self.range_of(handle).is_some(),
    {
        match self.find_handle(handle) {
            Some(_) => true,
            None => false,
        }
    }

    fn find_handle(&self, handle: u128) -> (r: Option<usize>)
        ensures
            match r {
                Some(i) => i < self.entries().len() && self.entries()[i as int].0 == handle
                    && handle_position(self.entries(), handle).is_some(),
                None => handle_position(self.entries(), handle).is_none(),
            },
    {
        let ghost es = self.entries();
        let mut i: usize = 0;
        while i < self.entries.len()
            invariant
                i <= self.entries.len(),
                es == self.entries(),
                es.len() == self.entries@.len(),
                forall|k: int| 0 <= k < i ==> (#[trigger] es[k]).0 != handle,
            decreases self.entries.len() - i,
        {
            assert(es[i as int].0 == self.entries@[i as int].handle);
            if self.entries[i].handle == handle {
                return Some(i);
            }
            i = i + 1;
        }
        None
    }

    fn find_range(&self, encoded: &Vec<u8>) -> (r: Option<usize>)
        ensures
            match r {
                Some(i) => i < self.entries().len() && self.entries()[i as int].1.encoded == encoded@,
                None => range_position(self.entries(), encoded@).is_none(),
            },
    {
        let ghost es = self.entries();
        let mut i: usize = 0;
        while i < self.entries.len()
            invariant
                i <= self.entries.len(),
                es == self.entries(),
                es.len() == self.entries@.len(),
                forall|k: int| 0 <= k < i ==> (#[trigger] es[k]).1.encoded != encoded@,
            decreases self.entries.len() - i,
        {
            assert(es[i as int].1 == self.entries@[i as int].range@);
            if same_bytes(&self.entries[i].range.encoded, encoded) {
                return Some(i);
            }
            i = i + 1;
        }
        None
    }

    /// Registers a range whose retained metadata was just read, and returns its
    /// handle. An equal range already registered keeps its handle; otherwise the
    /// range takes `fresh`, the next identity of the process's identity source,
    /// if the entry limit and byte budget allow it. A nil or already-used
    /// `fresh` is an internal failure. A failure changes nothing.
    pub fn register(&mut self, range: RangeRecord, metadata: &Vec<FrameMeta>, fresh: u128) -> (r: Result<u128, Failure>)
        requires
            old(self).wf(),
        ensures
            final(self).wf(),
            final(self).max_entries() == old(self).max_entries(),
            final(self).max_budget() == old(self).max_budget(),
            match r {
                Ok(h) => metadata_matches(range@, metadata@) && range@.encoded.len() <= old(self).max_budget()
                    && (final(self).range_of(h) matches Some(named) && named.encoded == range@.encoded)
                    && match range_position(old(self).entries(), range@.encoded) {
                    Some(i) => h == old(self).entries()[i].0 && final(self).entries() == old(self).entries(),
                    None => h == fresh && final(self).entries() == old(self).entries().push((fresh, range@)),
                },
                Err(f) => final(self).entries() == old(self).entries() && final(self).used_budget() == old(self).used_budget() && {
                    ||| (range@.encoded.len() > old(self).max_budget() && f.code == ErrorCode::ResourceLimitExceeded)
                    ||| (range@.encoded.len() <= old(self).max_budget() && !metadata_matches(range@, metadata@)
                        && f.code == ErrorCode::EvidenceInvalidated)
                    ||| (metadata_matches(range@, metadata@) && range_position(old(self).entries(), range@.encoded).is_none()
                        && (old(self).entries().len() >= old(self).max_entries()
                            || old(self).used_budget() + range@.encoded.len() > old(self).max_budget())
                        && f.code == ErrorCode::ResourceLimitExceeded)
                    ||| (metadata_matches(range@, metadata@) && range_position(old(self).entries(), range@.encoded).is_none()
                        && old(self).entries().len() < old(self).max_entries()
                        && old(self).used_budget() + range@.encoded.len() <= old(self).max_budget()
                        && (fresh == 0 || old(self).range_of(fresh).is_some())
                        && f.code == ErrorCode::Internal)
                },
            },
    {
        let budget_bytes = range.encoded.len();
        if budget_bytes > self.max_budget_bytes {
            return Err(resource_limit_error());
        }
        validate_available_metadata(&range, metadata)?;
        match self.find_range(&range.encoded) {
            Some(i) => {
                proof {
                    let es = self.entries();
                    let j = range_position(es, range@.encoded).unwrap();
                    if j != i as int {
                        if j < i as int {
                            assert(es[j].1.encoded != es[i as int].1.encoded);
                        } else {
                            assert(es[i as int].1.encoded != es[j].1.encoded);
                        }
                    }
                    self.lemma_position_unique(es[i as int].0, i as int);
                }
                return Ok(self.entries[i].handle);
            },
            None => {},
        }
        let next_budget = match self.used_budget_bytes.checked_add(budget_bytes) {
            Some(v) => v,
            None => {
                return Err(resource_limit_error());
            },
        };
        if self.entries.len() >= self.max_entries || next_budget > self.max_budget_bytes {
            return Err(resource_limit_error());
        }
        if fresh == 0 {
            return Err(internal_authority_error());
        }
        match self.find_handle(fresh) {
            Some(_) => {
                return Err(internal_authority_error());
            },
            None => {},
        }
        let ghost before = self.entries();
        self.entries.push(HandleEntry { handle: fresh, range });
        self.used_budget_bytes = next_budget;
        proof {
            let es = self.entries();
            assert(es =~= before.push((fresh, range@)));
            assert(es.drop_last() =~= before);
            assert forall|i: int| 0 <= i < before.len() implies (#[trigger] before[i]).0 != fresh by {
                if before[i].0 == fresh {
                    assert(handle_position(before, fresh).is_some());
                }
            }
            assert forall|i: int| 0 <= i < before.len() implies (#[trigger] before[i]).1.encoded != range@.encoded by {
                if before[i].1.encoded == range@.encoded {
                    assert(range_position(before, range@.encoded).is_some());
                }
            }
            lemma_encoded_total_prefix(es, before, before.len());
            assert(encoded_total(es, es.len()) == encoded_total(before, before.len()) + range@.encoded.len());
            assert forall|i: int, j: int| 0 <= i < j < es.len() implies (#[trigger] es[i]).0 != (#[trigger] es[j]).0 by {
                if j == before.len() {
                    assert(before[i].0 != fresh);
                } else {
                    assert(before[i].0 != before[j].0);
                }
            }
            assert forall|i: int, j: int| 0 <= i < j < es.len() implies (#[trigger] es[i]).1.encoded != (#[trigger] es[j]).1.encoded by {
                if j == before.len() {
                    assert(before[i].1.encoded != range@.encoded);
                } else {
                    assert(before[i].1.encoded != before[j].1.encoded);
                }
            }
            assert(self.wf());
            self.lemma_position_unique(fresh, before.len() as int);
        }
        Ok(fresh)
    }

    /// The range a handle names, or the invalidation failure for an unknown handle.
    pub fn lookup(&self, handle: u128) -> (r: Result<RangeRecord, Failure>)
        requires
            self.wf(),
        ensures
            match r {
                Ok(range) => self.range_of(handle) == Some(range@),
                Err(f) => self.range_of(handle).is_none() && f.code == ErrorCode::EvidenceInvalidated
                    && f.context == no_context(),
            },
    {
        match self.find_handle(handle) {
            Some(i) => {
                proof { self.lemma_position_unique(handle, i as int); }
                Ok(self.entries[i].range.duplicate())
            },
            None => Err(invalidated_handle(None)),
        }
    }

    proof fn lemma_position_unique(&self, handle: u128, i: int)
        requires
            self.wf(),
            0 <= i < self.entries().len(),
            self.entries()[i].0 == handle,
        ensures
            handle_position(self.entries(), handle) == Some(i),
    {
        let es = self.entries();
        let j = handle_position(es, handle).unwrap();
        if j != i {
            if j < i {
                assert(es[j].0 != es[i].0);
            } else {
                assert(es[i].0 != es[j].0);
            }
        }
    }

    /// Resolves a handle against the retained metadata just read for its range:
    /// the range, while the metadata still matches it.
    pub fn resolve_available(&self, handle: u128, metadata: &Vec<FrameMeta>) -> (r: Result<RangeRecord, Failure>)
        requires
            self.wf(),
        ensures
            match r {
                Ok(range) => self.resolve_spec(handle, metadata@) == Some(range@),
                Err(f) => self.resolve_spec(handle, metadata@).is_none() && f.code == ErrorCode::EvidenceInvalidated,
            },
    {
        let range = self.lookup(handle)?;
        validate_available_metadata(&range, metadata)?;
        Ok(range)
    }
}

/// A range registered under a fresh handle resolves to itself while its retained
/// metadata matches it.
pub proof fn lemma_fresh_registration_resolves(before: RangeHandles, after: RangeHandles, range: RangeView, metadata: Seq<FrameMeta>, fresh: u128)
    requires
        before.wf(),
        after.wf(),
        range_position(before.entries(), range.encoded).is_none(),
        after.entries() == before.entries().push((fresh, range)),
        metadata_matches(range, metadata),
    ensures
        after.resolve_spec(fresh, metadata) == Some(range),
{
    let es = after.entries();
    let n = before.entries().len() as int;
    assert(es[n].0 == fresh);
    let j = handle_position(es, fresh).unwrap();
    if j != n {
        assert(es[j].0 != es[n].0);
    }
}

/// Registering a range that is already registered gives back its handle.
pub proof fn lemma_equal_ranges_share_handle(before: RangeHandles, after: RangeHandles, range: RangeView, fresh: u128)
    requires
        before.wf(),
        after.wf(),
        range_position(before.entries(), range.encoded).is_none(),
        after.entries() == before.entries().push((fresh, range)),
    ensures
        range_position(after.entries(), range.encoded) matches Some(i) && after.entries()[i].0 == fresh,
{
    let es = after.entries();
    let n = before.entries().len() as int;
    assert(es[n].1.encoded == range.encoded);
    let j = range_position(es, range.encoded).unwrap();
    if j != n {
        assert(es[j].1.encoded != es[n].1.encoded);
    }
}

/// Registration never evicts nor renames a handle: every handle registered before
/// a registration names the same range after it.
pub proof fn lemma_registration_keeps_handles(before: RangeHandles, after: RangeHandles, handle: u128)
    requires
        before.wf(),
        after.wf(),
        after.entries() == before.entries() || exists|e: (u128, RangeView)| after.entries() == before.entries().push(e),
        before.range_of(handle).is_some(),
    ensures
        after.range_of(handle) == before.range_of(handle),
{
    let b = before.entries();
    let a = after.entries();
    if a != b {
        let e = choose|e: (u128, RangeView)| a == b.push(e);
        let i = handle_position(b, handle).unwrap();
        assert(a[i] == b[i]);
        let j = handle_position(a, handle).unwrap();
        if j != i {
            if j < i {
                assert(a[j].0 != a[i].0);
            } else {
                assert(a[i].0 != a[j].0);
            }
        }
    }
}

} // verus!
