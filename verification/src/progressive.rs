//! Checks of progressive evidence reads.
//!
//! Every answer a store gives to a progressive request is held against the
//! request: source-frame handles must name exactly the selected frames, in
//! order, inside the resolved scope and within the byte limits; payloads must
//! match their handles' lengths and SHA-256 digests; artifact reads must match
//! their scoped handles.
use vstd::prelude::*;

use crate::epoch::{FrameMeta, ImageFormat};
use crate::errors::{ErrorCode, ErrorContext, Failure, RetryAdvice, no_context};
use crate::framing::{sha256, sha256_spec};
use crate::handles::{RangeRecord, RangeView, same_bytes};
use crate::normalization::first_position;

verus! {

/// The session and target a piece of evidence belongs to.
#[derive(Clone, Copy, Debug, PartialEq, Eq, Structural)]
pub struct EvidenceScope {
    pub session_id: u128,
    pub target_id: u128,
}

/// Fails a request whose caller cancelled it or whose deadline passed.
pub fn check_context(cancelled: bool, deadline_passed: bool) -> (r: Result<(), Failure>)
    ensures
        r is Ok <==> (!cancelled && !deadline_passed),
        r matches Err(f) ==> f.code == ErrorCode::Cancelled && f.message@ == (if cancelled {
            "progressive evidence request was cancelled"@
        } else {
            "progressive evidence request deadline elapsed"@
        }),
{
    if cancelled {
        return Err(Failure::new(ErrorCode::Cancelled, "progressive evidence request was cancelled"));
    }
    if deadline_passed {
        return Err(Failure::new(ErrorCode::Cancelled, "progressive evidence request deadline elapsed"));
    }
    Ok(())
}

/// The handle of a stored artifact.
#[derive(Clone, Copy, Debug)]
pub struct ArtifactHandle {
    pub scope: EvidenceScope,
    pub artifact_id: u128,
    pub encoded_byte_len: u64,
    pub content_sha256: [u8; 32],
}

fn artifact_lifetime_error(code: ErrorCode, scope: EvidenceScope, message: &str) -> (f: Failure)
    ensures
        f.code == code,
        f.message@ == message@,
        f.context == (ErrorContext { session_id: Some(scope.session_id), target_id: Some(scope.target_id), range: None }),
{
    Failure::new(code, message).with_context(ErrorContext { session_id: Some(scope.session_id), target_id: Some(scope.target_id), range: None })
}

/// What the store answered for a stored artifact.
#[derive(Clone, Copy, Debug, PartialEq, Eq, Structural)]
pub enum ArtifactLookup {
    Available,
    /// No longer retained.
    Missing,
    /// Failed provenance validation.
    Invalidated,
}

/// An artifact that is no longer retained is not found; one that failed
/// provenance validation is invalidated evidence; both are scoped to the request.
pub fn check_artifact_lookup(lookup: ArtifactLookup, scope: EvidenceScope) -> (r: Result<(), Failure>)
    ensures
        r is Ok <==> lookup == ArtifactLookup::Available,
        r matches Err(f) ==> f.context == (ErrorContext {
            session_id: Some(scope.session_id),
            target_id: Some(scope.target_id),
            range: None,
        }) && if lookup == ArtifactLookup::Missing {
            f.code == ErrorCode::NotFound && f.message@ == "artifact evidence is no longer retained"@
        } else {
            f.code == ErrorCode::EvidenceInvalidated && f.message@ == "artifact evidence failed provenance validation"@
        },
{
    match lookup {
        ArtifactLookup::Available => Ok(()),
        ArtifactLookup::Missing => Err(artifact_lifetime_error(ErrorCode::NotFound, scope, "artifact evidence is no longer retained")),
        ArtifactLookup::Invalidated => Err(
            artifact_lifetime_error(ErrorCode::EvidenceInvalidated, scope, "artifact evidence failed provenance validation"),
        ),
    }
}

/// An artifact read is consistent with its handle: the requested scope and
/// identity, a positive length equal to the payload's, and the payload's digest.
pub open spec fn artifact_read_consistent(handle: ArtifactHandle, bytes: Seq<u8>, scope: EvidenceScope, artifact_id: u128) -> bool {
    &&& handle.scope == scope
    &&& handle.artifact_id == artifact_id
    &&& handle.encoded_byte_len > 0
    &&& bytes.len() == handle.encoded_byte_len
    &&& sha256_spec(bytes) == handle.content_sha256@
}

fn same_digest(a: &[u8; 32], b: &[u8; 32]) -> (r: bool)
    ensures
        r == (a@ == b@),
{
    let mut i: usize = 0;
    while i < 32
        invariant
            i <= 32,
            a@.len() == 32,
            b@.len() == 32,
            a@.take(i as int) == b@.take(i as int),
        decreases 32 - i,
    {
        if a[i] != b[i] {
            assert(a@[i as int] != b@[i as int]);
            return false;
        }
        assert(a@.take(i + 1) =~= a@.take(i as int).push(a@[i as int]));
        assert(b@.take(i + 1) =~= b@.take(i as int).push(b@[i as int]));
        i = i + 1;
    }
    assert(a@.take(32) =~= a@);
    assert(b@.take(32) =~= b@);
    true
}

/// Whether a payload has the length and SHA-256 digest its handle declares.
pub fn payload_matches(bytes: &[u8], encoded_byte_len: u64, content_sha256: &[u8; 32]) -> (r: bool)
    ensures
        r == (bytes@.len() == encoded_byte_len && sha256_spec(bytes@) == content_sha256@),
{
    if bytes.len() as u64 != encoded_byte_len {
        return false;
    }
    let digest = sha256(bytes);
    same_digest(&digest, content_sha256)
}

/// Checks an artifact read against the request that asked for it: a read that
/// disagrees with its scoped handle is invalidated evidence; a consistent one
/// larger than the requested bound exceeds the resource limit.
pub fn validate_artifact_read(handle: ArtifactHandle, bytes: &[u8], scope: EvidenceScope, artifact_id: u128, max_bytes: u64) -> (r: Result<(), Failure>)
    ensures
        r is Ok <==> (artifact_read_consistent(handle, bytes@, scope, artifact_id) && handle.encoded_byte_len <= max_bytes),
        r matches Err(f) ==> f.code == (if !artifact_read_consistent(handle, bytes@, scope, artifact_id) {
            ErrorCode::EvidenceInvalidated
        } else {
            ErrorCode::ResourceLimitExceeded
        }),
{
    if handle.scope.session_id != scope.session_id || handle.scope.target_id != scope.target_id
        || handle.artifact_id != artifact_id || handle.encoded_byte_len == 0
        || !payload_matches(bytes, handle.encoded_byte_len, &handle.content_sha256)
    {
        return Err(artifact_lifetime_error(ErrorCode::EvidenceInvalidated, scope, "artifact evidence disagrees with its scoped handle"));
    }
    if handle.encoded_byte_len > max_bytes {
        return Err(artifact_lifetime_error(ErrorCode::ResourceLimitExceeded, scope, "artifact evidence exceeds the encoded-byte limit"));
    }
    Ok(())
}

/// The handle of one retained source frame in a progressive answer.
#[derive(Debug)]
pub struct SourceHandle {
    pub scope: EvidenceScope,
    pub frame_id: u128,
    pub request_position: u32,
    pub resolved_position: u32,
    pub provenance: FrameMeta,
    pub media_type: String,
    pub encoded_byte_len: u64,
    pub content_sha256: [u8; 32],
}

pub struct SourceHandleView {
    pub scope: EvidenceScope,
    pub frame_id: u128,
    pub request_position: u32,
    pub resolved_position: u32,
    pub provenance: FrameMeta,
    pub media_type: Seq<char>,
    pub encoded_byte_len: u64,
    pub content_sha256: Seq<u8>,
}

impl View for SourceHandle {
    type V = SourceHandleView;

    open spec fn view(&self) -> SourceHandleView {
        SourceHandleView {
            scope: self.scope,
            frame_id: self.frame_id,
            request_position: self.request_position,
            resolved_position: self.resolved_position,
            provenance: self.provenance,
            media_type: self.media_type@,
            encoded_byte_len: self.encoded_byte_len,
            content_sha256: self.content_sha256@,
        }
    }
}

/// A source frame read checked against the request for it: the requested
/// scope and frame, within the byte bound, with a payload of the declared
/// length and digest.
pub fn check_source_read(handle: &SourceHandle, bytes: &[u8], scope: EvidenceScope, frame_id: u128, max_bytes: u64) -> (r: Result<(), Failure>)
    ensures
        r is Ok <==> (handle.scope == scope && handle.frame_id == frame_id && handle.encoded_byte_len <= max_bytes
            && bytes@.len() == handle.encoded_byte_len && sha256_spec(bytes@) == handle.content_sha256@),
        r matches Err(f) ==> f.code == ErrorCode::EvidenceInvalidated,
{
    if handle.scope.session_id != scope.session_id || handle.scope.target_id != scope.target_id
        || handle.frame_id != frame_id || handle.encoded_byte_len > max_bytes
        || !payload_matches(bytes, handle.encoded_byte_len, &handle.content_sha256)
    {
        return Err(Failure::new(ErrorCode::EvidenceInvalidated, "source frame evidence disagrees with its scoped handle"));
    }
    Ok(())
}

/// Which frames a source request selects.
#[derive(Debug)]
pub enum SourceSelection {
    /// Every frame of the resolved range, in resolved order.
    ResolvedOrder,
    /// The listed frames of the resolved range, in the listed order.
    Ids(Vec<u128>),
}

/// Byte bounds of a source answer.
#[derive(Clone, Copy, Debug, PartialEq, Eq, Structural)]
pub struct SourceLimits {
    pub max_item_bytes: u64,
    pub max_total_bytes: u64,
}

/// A request for source frames of a resolved range.
#[derive(Debug)]
pub struct SourceRequest {
    pub range: RangeRecord,
    pub selection: SourceSelection,
    pub limits: SourceLimits,
}

pub open spec fn selected_ids(request: &SourceRequest) -> Seq<u128> {
    match request.selection {
        SourceSelection::ResolvedOrder => request.range.frame_ids@,
        SourceSelection::Ids(ids) => ids@,
    }
}

/// The media type a frame of the given format is served as.
pub open spec fn media_for(format: ImageFormat) -> Seq<char> {
    match format {
        ImageFormat::Jpeg => "image/jpeg"@,
        ImageFormat::Png => "image/png"@,
    }
}

/// Handle `i` names the `i`-th selected frame at its request and resolved
/// positions, inside the range's scope and span, with the media type of its
/// format and a positive length.
pub open spec fn handle_consistent(range: RangeView, selected: Seq<u128>, h: SourceHandleView, i: int) -> bool {
    let id = selected[i];
    &&& h.frame_id == id
    &&& h.scope.session_id == range.session_id
    &&& h.scope.target_id == range.target_id
    &&& h.request_position == i
    &&& first_position(range.frame_ids, id, 0) matches Some(p) && h.resolved_position == p
    &&& h.provenance.frame_id == id
    &&& h.provenance.session_id == range.session_id
    &&& h.provenance.target_id == range.target_id
    &&& range.resolved.holds(h.provenance.session_time)
    &&& h.media_type == media_for(h.provenance.format)
    &&& h.encoded_byte_len > 0
}

/// The check of the first `n` handles: the running byte total, or the kind of
/// the first failure (`true` for a byte limit, `false` for an inconsistency).
pub open spec fn scan_handles(range: RangeView, selected: Seq<u128>, limits: SourceLimits, hs: Seq<SourceHandleView>, n: nat) -> Result<u64, bool>
    decreases n,
{
    if n == 0 {
        Ok(0)
    } else {
        match scan_handles(range, selected, limits, hs, (n - 1) as nat) {
            Err(k) => Err(k),
            Ok(total) => {
                let h = hs[n - 1];
                if !handle_consistent(range, selected, h, n - 1) {
                    Err(false)
                } else if h.encoded_byte_len > limits.max_item_bytes {
                    Err(true)
                } else if total + h.encoded_byte_len > u64::MAX || total + h.encoded_byte_len > limits.max_total_bytes {
                    Err(true)
                } else {
                    Ok((total + h.encoded_byte_len) as u64)
                }
            },
        }
    }
}

pub open spec fn strictly_captured(hs: Seq<SourceHandleView>) -> bool {
    forall|i: int| 0 <= i < hs.len() - 1 ==> #[trigger] hs[i].provenance.capture_ordinal < hs[i + 1].provenance.capture_ordinal
}

pub open spec fn handle_views(hs: Seq<SourceHandle>) -> Seq<SourceHandleView> {
    hs.map_values(|h: SourceHandle| h@)
}

/// The verdict on a source answer: `Ok`, or the kind of its first failure
/// (`true` for a byte limit, `false` for an inconsistency).
pub open spec fn source_verdict(request: &SourceRequest, result_range: RangeView, hs: Seq<SourceHandleView>) -> Result<(), bool> {
    let selected = selected_ids(request);
    if result_range.encoded != request.range@.encoded {
        Err(false)
    } else if hs.len() != selected.len() {
        Err(false)
    } else {
        match scan_handles(request.range@, selected, request.limits, hs, hs.len()) {
            Err(k) => Err(k),
            Ok(_) => if request.selection is ResolvedOrder && !strictly_captured(hs) { Err(false) } else { Ok(()) },
        }
    }
}

pub open spec fn source_context(range: RangeView) -> ErrorContext {
    ErrorContext { session_id: Some(range.session_id), target_id: Some(range.target_id), range: Some(range.resolved) }
}

proof fn lemma_scan_err_persists(range: RangeView, selected: Seq<u128>, limits: SourceLimits, hs: Seq<SourceHandleView>, k: nat, n: nat)
    requires
        k <= n,
        scan_handles(range, selected, limits, hs, k) is Err,
    ensures
        scan_handles(range, selected, limits, hs, n) == scan_handles(range, selected, limits, hs, k),
    decreases n - k,
{
    if k < n {
        lemma_scan_err_persists(range, selected, limits, hs, k, (n - 1) as nat);
    }
}

fn source_contract_error(range: &RangeRecord, message: &str) -> (f: Failure)
    ensures
        f.code == ErrorCode::PersistenceFailed,
        f.context == source_context(range@),
        f.retry == Some(RetryAdvice::Never),
{
    Failure::new(ErrorCode::PersistenceFailed, message)
        .with_context(ErrorContext { session_id: Some(range.session_id), target_id: Some(range.target_id), range: Some(range.resolved) })
        .with_retry(RetryAdvice::Never)
}

fn source_limit_error(range: &RangeRecord, message: &str) -> (f: Failure)
    ensures
        f.code == ErrorCode::ResourceLimitExceeded,
        f.context == source_context(range@),
        f.recovery matches Some(r) && r@ == "request fewer source frames or lower encoded-byte limits"@,
{
    Failure::new(ErrorCode::ResourceLimitExceeded, message)
        .with_context(ErrorContext { session_id: Some(range.session_id), target_id: Some(range.target_id), range: Some(range.resolved) })
        .with_recovery("request fewer source frames or lower encoded-byte limits")
}

fn position_of(ids: &Vec<u128>, id: u128) -> (r: Option<usize>)
    ensures
        r == first_position(ids@, id, 0),
{
    let mut k: usize = 0;
    while k < ids.len()
        invariant
            k <= ids.len(),
            first_position(ids@, id, 0) == first_position(ids@, id, k as nat),
        decreases ids.len() - k,
    {
        if ids[k] == id {
            return Some(k);
        }
        k = k + 1;
    }
    None
}

fn media_name(format: ImageFormat) -> (r: &'static str)
    ensures
        r@ == media_for(format),
{
    match format {
        ImageFormat::Jpeg => "image/jpeg",
        ImageFormat::Png => "image/png",
    }
}

fn one_handle_consistent(range: &RangeRecord, id: u128, h: &SourceHandle, i: usize) -> (r: bool)
    requires
        i <= u32::MAX,
        range.frame_ids.len() <= u32::MAX,
    ensures
        r == (h.frame_id == id && h.scope.session_id == range.session_id && h.scope.target_id == range.target_id
            && h.request_position == i
            && (first_position(range.frame_ids@, id, 0) matches Some(p) && h.resolved_position == p)
            && h.provenance.frame_id == id && h.provenance.session_id == range.session_id
            && h.provenance.target_id == range.target_id && range.resolved.holds(h.provenance.session_time)
            && h.media_type@ == media_for(h.provenance.format) && h.encoded_byte_len > 0),
{
    let resolved_position = match position_of(&range.frame_ids, id) {
        Some(p) => p,
        None => {
            return false;
        },
    };
    proof { crate::normalization::lemma_first_position_bounds(range.frame_ids@, id, 0); }
    let expected = String::from_str(media_name(h.provenance.format));
    h.frame_id == id && h.scope.session_id == range.session_id && h.scope.target_id == range.target_id
        && h.request_position == i as u32 && h.resolved_position == resolved_position as u32
        && h.provenance.frame_id == id && h.provenance.session_id == range.session_id
        && h.provenance.target_id == range.target_id && range.resolved.contains(h.provenance.session_time)
        && h.media_type == expected && h.encoded_byte_len > 0
}

/// Checks the handles of a source answer against its request: the answer keeps
/// the resolved range, returns exactly the selected frames in order with
/// consistent handles, stays within the per-item and total byte limits, and,
/// for an all-frame request, is in strict capture order. An inconsistency is a
/// persistence failure; a byte limit is a resource-limit failure.
pub fn validate_source_handles(request: &SourceRequest, result_range: &RangeRecord, handles: &Vec<SourceHandle>) -> (r: Result<(), Failure>)
    requires
        selected_ids(request).len() <= u32::MAX,
        request.range.frame_ids.len() <= u32::MAX,
    ensures
        match r {
            Ok(()) => source_verdict(request, result_range@, handle_views(handles@)) == Ok::<(), bool>(()),
            Err(f) => match source_verdict(request, result_range@, handle_views(handles@)) {
                Ok(()) => false,
                Err(limit) => f.code == (if limit { ErrorCode::ResourceLimitExceeded } else { ErrorCode::PersistenceFailed })
                    && f.context == source_context(request.range@),
            },
        },
{
    let ghost hs = handle_views(handles@);
    if !same_bytes(&result_range.encoded, &request.range.encoded) {
        return Err(source_contract_error(&request.range, "source result changed the resolved range"));
    }
    let selected: &Vec<u128> = match &request.selection {
        SourceSelection::ResolvedOrder => &request.range.frame_ids,
        SourceSelection::Ids(ids) => ids,
    };
    if handles.len() != selected.len() {
        return Err(source_contract_error(&request.range, "source result did not return the exact selected frame set"));
    }
    assert(selected@ == selected_ids(request));
    let mut total: u64 = 0;
    let mut i: usize = 0;
    while i < handles.len()
        invariant
            i <= handles.len(),
            handles.len() == selected.len(),
            selected@ == selected_ids(request),
            selected@.len() <= u32::MAX,
            request.range.frame_ids.len() <= u32::MAX,
            hs == handle_views(handles@),
            result_range@.encoded == request.range@.encoded,
            scan_handles(request.range@, selected@, request.limits, hs, i as nat) == Ok::<u64, bool>(total),
        decreases handles.len() - i,
    {
        let h = &handles[i];
        assert(hs[i as int] == h@);
        let ghost n = (i + 1) as nat;
        if !one_handle_consistent(&request.range, selected[i], h, i) {
            proof {
                assert(scan_handles(request.range@, selected@, request.limits, hs, n) == Err::<u64, bool>(false));
                lemma_scan_err_persists(request.range@, selected@, request.limits, hs, n, hs.len());
            }
            return Err(source_contract_error(&request.range, "source handle scope, position, metadata, media type, or length is inconsistent"));
        }
        if h.encoded_byte_len > request.limits.max_item_bytes {
            proof {
                assert(scan_handles(request.range@, selected@, request.limits, hs, n) == Err::<u64, bool>(true));
                lemma_scan_err_persists(request.range@, selected@, request.limits, hs, n, hs.len());
            }
            return Err(source_limit_error(&request.range, "source result exceeds the per-item encoded-byte limit"));
        }
        total = match total.checked_add(h.encoded_byte_len) {
            Some(t) => t,
            None => {
                proof {
                    assert(scan_handles(request.range@, selected@, request.limits, hs, n) == Err::<u64, bool>(true));
                    lemma_scan_err_persists(request.range@, selected@, request.limits, hs, n, hs.len());
                }
                return Err(source_limit_error(&request.range, "source result encoded-byte total overflow"));
            },
        };
        if total > request.limits.max_total_bytes {
            proof {
                assert(scan_handles(request.range@, selected@, request.limits, hs, n) == Err::<u64, bool>(true));
                lemma_scan_err_persists(request.range@, selected@, request.limits, hs, n, hs.len());
            }
            return Err(source_limit_error(&request.range, "source result exceeds the total encoded-byte limit"));
        }
        i = i + 1;
    }
    match request.selection {
        SourceSelection::ResolvedOrder => {
            let mut k: usize = 1;
            while k < handles.len()
                invariant
                    1 <= k,
                    hs == handle_views(handles@),
                    request.selection is ResolvedOrder,
                    result_range@.encoded == request.range@.encoded,
                    hs.len() == selected_ids(request).len(),
                    scan_handles(request.range@, selected_ids(request), request.limits, hs, hs.len()) is Ok,
                    forall|q: int| 0 <= q < k - 1 && q < hs.len() - 1 ==> #[trigger] hs[q].provenance.capture_ordinal < hs[q + 1].provenance.capture_ordinal,
                decreases handles.len() - k,
            {
                if handles[k - 1].provenance.capture_ordinal >= handles[k].provenance.capture_ordinal {
                    assert(hs[k - 1].provenance.capture_ordinal >= hs[k - 1 + 1].provenance.capture_ordinal);
                    return Err(source_contract_error(&request.range, "all-frame source result is not in strict capture order"));
                }
                k = k + 1;
            }
        },
        SourceSelection::Ids(_) => {},
    }
    Ok(())
}

/// Checks a source batch: its handles as above, then every payload against its
/// handle's length and digest.
pub fn validate_source_batch(request: &SourceRequest, result_range: &RangeRecord, handles: &Vec<SourceHandle>, payloads: &Vec<Vec<u8>>) -> (r: Result<(), Failure>)
    requires
        selected_ids(request).len() <= u32::MAX,
        request.range.frame_ids.len() <= u32::MAX,
        payloads.len() == handles.len(),
    ensures
        r is Ok <==> (source_verdict(request, result_range@, handle_views(handles@)) == Ok::<(), bool>(())
            && forall|i: int| 0 <= i < handles.len() ==> (#[trigger] payloads@[i])@.len() == handles@[i].encoded_byte_len
                && sha256_spec(payloads@[i]@) == handles@[i].content_sha256@),
        r matches Err(f) ==> f.context == source_context(request.range@) && f.code == (match source_verdict(request, result_range@, handle_views(handles@)) {
            Err(limit) => if limit { ErrorCode::ResourceLimitExceeded } else { ErrorCode::PersistenceFailed },
            Ok(()) => ErrorCode::PersistenceFailed,
        }),
{
    validate_source_handles(request, result_range, handles)?;
    let mut i: usize = 0;
    while i < handles.len()
        invariant
            i <= handles.len(),
            payloads.len() == handles.len(),
            source_verdict(request, result_range@, handle_views(handles@)) == Ok::<(), bool>(()),
            forall|k: int| 0 <= k < i ==> (#[trigger] payloads@[k])@.len() == handles@[k].encoded_byte_len
                && sha256_spec(payloads@[k]@) == handles@[k].content_sha256@,
        decreases handles.len() - i,
    {
        if !payload_matches(payloads[i].as_slice(), handles[i].encoded_byte_len, &handles[i].content_sha256) {
            return Err(source_contract_error(&request.range, "source payload disagrees with its exact handle"));
        }
        i = i + 1;
    }
    Ok(())
}

/// The scope of a region request, without a range.
pub open spec fn scope_context(session_id: u128, target_id: u128) -> ErrorContext {
    ErrorContext { session_id: Some(session_id), target_id: Some(target_id), range: None }
}

/// A current-reference region needs an active browser session to sample.
pub fn geometry_unavailable_error(session_id: u128, target_id: u128) -> (f: Failure)
    ensures
        f.code == ErrorCode::InvalidLifecycleTransition,
        f.message@ == "current-reference geometry requires an active browser session"@,
        f.context == scope_context(session_id, target_id),
        f.retry == Some(RetryAdvice::AfterRecovery),
        f.recovery matches Some(r) && r@ == "request a current structured snapshot from the active browser session"@,
{
    Failure::new(ErrorCode::InvalidLifecycleTransition, "current-reference geometry requires an active browser session")
        .with_context(ErrorContext { session_id: Some(session_id), target_id: Some(target_id), range: None })
        .with_retry(RetryAdvice::AfterRecovery)
        .with_recovery("request a current structured snapshot from the active browser session")
}

/// Sampled geometry must belong to the requested session, the range's target and
/// the requested reference; otherwise the reference is stale.
pub fn check_reference_geometry(
    sampled_session: u128,
    sampled_target: u128,
    sampled_reference: u128,
    session_id: u128,
    range_session: u128,
    range_target: u128,
    reference: u128,
) -> (r: Result<(), Failure>)
    ensures
        r is Ok <==> (sampled_session == session_id && sampled_target == range_target && sampled_reference == reference),
        r matches Err(f) ==> f.code == ErrorCode::StaleReference && f.context == scope_context(range_session, range_target)
            && f.retry == Some(RetryAdvice::AfterRecovery),
{
    if sampled_session != session_id || sampled_target != range_target || sampled_reference != reference {
        return Err(Failure::new(ErrorCode::StaleReference, "current-reference geometry disagrees with the resolved evidence scope")
            .with_context(ErrorContext { session_id: Some(range_session), target_id: Some(range_target), range: None })
            .with_retry(RetryAdvice::AfterRecovery)
            .with_recovery("request a new structured snapshot and retry with its reference"));
    }
    Ok(())
}

/// Region frames lie inside the resolved span in non-decreasing session time.
pub open spec fn region_timing_ok(resolved: crate::spans::SessionSpan, frames: Seq<FrameMeta>) -> bool {
    &&& forall|i: int| 0 <= i < frames.len() ==> resolved.holds(#[trigger] frames[i].session_time)
    &&& forall|i: int| 0 <= i < frames.len() - 1 ==> #[trigger] frames[i].session_time <= frames[i + 1].session_time
}

/// Position of the first frame with the identity.
pub open spec fn frame_index(frames: Seq<FrameMeta>, id: u128, k: nat) -> Option<usize>
    decreases frames.len() - k,
{
    if k >= frames.len() {
        None
    } else if frames[k as int].frame_id == id {
        Some(k as usize)
    } else {
        frame_index(frames, id, k + 1)
    }
}

/// Checks a region's retained frames and finds its source frame: the position
/// of the source frame, and the filmstrip anchor, which defaults to the source
/// frame's session time.
pub fn check_region_frames(resolved: crate::spans::SessionSpan, frames: &Vec<FrameMeta>, source_frame_id: u128, anchor: Option<u64>) -> (r: Result<(usize, u64), Failure>)
    ensures
        match r {
            Ok((p, a)) => region_timing_ok(resolved, frames@) && frame_index(frames@, source_frame_id, 0) == Some(p)
                && p < frames.len() && a == (match anchor { Some(t) => t, None => frames@[p as int].session_time }),
            Err(f) => f.code == ErrorCode::InvalidInput && (!region_timing_ok(resolved, frames@)
                || frame_index(frames@, source_frame_id, 0).is_none()),
        },
{
    let mut i: usize = 0;
    while i < frames.len()
        invariant
            i <= frames.len(),
            forall|k: int| 0 <= k < i ==> resolved.holds(#[trigger] frames@[k].session_time),
            forall|k: int| 0 <= k < i - 1 ==> #[trigger] frames@[k].session_time <= frames@[k + 1].session_time,
        decreases frames.len() - i,
    {
        if !resolved.contains(frames[i].session_time) || (i > 0 && frames[i - 1].session_time > frames[i].session_time) {
            proof {
                if i > 0 && frames@[i - 1].session_time > frames@[i as int].session_time {
                    assert(!(frames@[i - 1].session_time <= frames@[i - 1 + 1].session_time));
                }
            }
            return Err(Failure::new(ErrorCode::InvalidInput, "region frame timing contradicts the resolved range"));
        }
        i = i + 1;
    }
    assert(region_timing_ok(resolved, frames@));
    let mut k: usize = 0;
    while k < frames.len()
        invariant
            k <= frames.len(),
            region_timing_ok(resolved, frames@),
            frame_index(frames@, source_frame_id, 0) == frame_index(frames@, source_frame_id, k as nat),
        decreases frames.len() - k,
    {
        if frames[k].frame_id == source_frame_id {
            let a = match anchor {
                Some(t) => t,
                None => frames[k].session_time,
            };
            return Ok((k, a));
        }
        k = k + 1;
    }
    Err(Failure::new(ErrorCode::InvalidInput, "region locator frame is not retained"))
}

} // verus!
