use krometrail::epoch::{FrameMeta, ImageFormat};
use krometrail::errors::{ErrorCode, RetryAdvice};
use krometrail::handles::RangeRecord;
use krometrail::progressive::{
    ArtifactHandle, ArtifactLookup, EvidenceScope, SourceHandle, SourceLimits, SourceRequest, SourceSelection,
    check_artifact_lookup, check_context, check_reference_geometry, check_region_frames, check_source_read,
    geometry_unavailable_error, payload_matches, validate_artifact_read, validate_source_batch,
    validate_source_handles,
};
use krometrail::spans::SessionSpan;
use sha2::Digest;

const SCOPE: EvidenceScope = EvidenceScope { session_id: 1, target_id: 2 };

fn digest(bytes: &[u8]) -> [u8; 32] {
    sha2::Sha256::digest(bytes).into()
}

fn frame(id: u128, ordinal: u64, time: u64) -> FrameMeta {
    FrameMeta {
        frame_id: id,
        session_id: 1,
        target_id: 2,
        capture_ordinal: ordinal,
        session_time: time,
        format: ImageFormat::Png,
        image_width: 2,
        image_height: 2,
        viewport_width: 2,
        viewport_height: 2,
        device_scale_bits: 1.0_f64.to_bits(),
        encoded_len: 3,
    }
}

fn range() -> RangeRecord {
    RangeRecord {
        session_id: 1,
        target_id: 2,
        resolved: SessionSpan { start: 0, end: 100 },
        frame_ids: vec![10, 11, 12],
        encoded: b"range".to_vec(),
    }
}

fn handle(id: u128, request_position: u32, resolved_position: u32, ordinal: u64, payload: &[u8]) -> SourceHandle {
    SourceHandle {
        scope: SCOPE,
        frame_id: id,
        request_position,
        resolved_position,
        provenance: frame(id, ordinal, 5 + ordinal),
        media_type: "image/png".to_string(),
        encoded_byte_len: payload.len() as u64,
        content_sha256: digest(payload),
    }
}

fn request(selection: SourceSelection, max_item_bytes: u64, max_total_bytes: u64) -> SourceRequest {
    SourceRequest { range: range(), selection, limits: SourceLimits { max_item_bytes, max_total_bytes } }
}

#[test]
fn cancellation_and_deadlines_end_progressive_requests() {
    assert!(check_context(false, false).is_ok());
    let cancelled = check_context(true, true).unwrap_err();
    assert_eq!(cancelled.code, ErrorCode::Cancelled);
    assert_eq!(cancelled.message, "progressive evidence request was cancelled");
    assert_eq!(check_context(false, true).unwrap_err().message, "progressive evidence request deadline elapsed");
}

#[test]
fn artifact_reads_must_match_their_scoped_handle() {
    let bytes = b"artifact".to_vec();
    let handle = ArtifactHandle { scope: SCOPE, artifact_id: 7, encoded_byte_len: 8, content_sha256: digest(&bytes) };
    assert!(payload_matches(&bytes, 8, &digest(&bytes)));
    assert!(!payload_matches(&bytes, 7, &digest(&bytes)));
    assert!(validate_artifact_read(handle, &bytes, SCOPE, 7, 8).is_ok());
    assert_eq!(validate_artifact_read(handle, &bytes, SCOPE, 7, 7).unwrap_err().code, ErrorCode::ResourceLimitExceeded);
    assert_eq!(validate_artifact_read(handle, &bytes, SCOPE, 8, 8).unwrap_err().code, ErrorCode::EvidenceInvalidated);
    let other_scope = EvidenceScope { session_id: 1, target_id: 3 };
    let invalid = validate_artifact_read(handle, &bytes, other_scope, 7, 8).unwrap_err();
    assert_eq!(invalid.code, ErrorCode::EvidenceInvalidated);
    assert_eq!(invalid.context.target_id, Some(3));
    assert_eq!(validate_artifact_read(handle, b"artifacT", SCOPE, 7, 8).unwrap_err().code, ErrorCode::EvidenceInvalidated);
}

#[test]
fn source_reads_must_match_their_handle() {
    let payload = b"abc".to_vec();
    let h = handle(10, 0, 0, 1, &payload);
    assert!(check_source_read(&h, &payload, SCOPE, 10, 3).is_ok());
    assert_eq!(check_source_read(&h, &payload, SCOPE, 11, 3).unwrap_err().code, ErrorCode::EvidenceInvalidated);
    assert_eq!(check_source_read(&h, &payload, SCOPE, 10, 2).unwrap_err().code, ErrorCode::EvidenceInvalidated);
    assert_eq!(check_source_read(&h, b"abd", SCOPE, 10, 3).unwrap_err().code, ErrorCode::EvidenceInvalidated);
}

#[test]
fn source_answers_name_exactly_the_selected_frames_within_limits() {
    let payloads = vec![b"abc".to_vec(), b"defg".to_vec(), b"h".to_vec()];
    let handles = vec![
        handle(10, 0, 0, 1, &payloads[0]),
        handle(11, 1, 1, 2, &payloads[1]),
        handle(12, 2, 2, 3, &payloads[2]),
    ];
    let all = request(SourceSelection::ResolvedOrder, 4, 8);
    assert!(validate_source_handles(&all, &range(), &handles).is_ok());
    assert!(validate_source_batch(&all, &range(), &handles, &payloads).is_ok());
    // One payload that disagrees with its handle fails the whole batch.
    let mut corrupted = payloads.clone();
    corrupted[2] = b"x".to_vec();
    let failure = validate_source_batch(&all, &range(), &handles, &corrupted).unwrap_err();
    assert_eq!(failure.code, ErrorCode::PersistenceFailed);
    assert_eq!(failure.retry, Some(RetryAdvice::Never));
    assert_eq!(failure.context.range, Some(SessionSpan { start: 0, end: 100 }));
    // Item and total byte limits.
    let tight_item = request(SourceSelection::ResolvedOrder, 3, 8);
    assert_eq!(validate_source_handles(&tight_item, &range(), &handles).unwrap_err().code, ErrorCode::ResourceLimitExceeded);
    let tight_total = request(SourceSelection::ResolvedOrder, 4, 7);
    assert_eq!(validate_source_handles(&tight_total, &range(), &handles).unwrap_err().code, ErrorCode::ResourceLimitExceeded);
    // Selected frames in the listed order, at their resolved positions.
    let listed = request(SourceSelection::Ids(vec![12, 10]), 4, 8);
    let listed_handles = vec![handle(12, 0, 2, 3, &payloads[2]), handle(10, 1, 0, 1, &payloads[0])];
    assert!(validate_source_handles(&listed, &range(), &listed_handles).is_ok());
    let wrong_position = vec![handle(12, 0, 1, 3, &payloads[2]), handle(10, 1, 0, 1, &payloads[0])];
    assert_eq!(validate_source_handles(&listed, &range(), &wrong_position).unwrap_err().code, ErrorCode::PersistenceFailed);
    // A missing handle, or an answer about another range, is a contract failure.
    let missing = vec![handle(10, 0, 0, 1, &payloads[0]), handle(11, 1, 1, 2, &payloads[1])];
    assert_eq!(validate_source_handles(&all, &range(), &missing).unwrap_err().code, ErrorCode::PersistenceFailed);
    let mut other_range = range();
    other_range.encoded = b"other".to_vec();
    assert_eq!(validate_source_handles(&all, &other_range, &handles).unwrap_err().code, ErrorCode::PersistenceFailed);
}

#[test]
fn current_reference_geometry_must_match_the_resolved_scope() {
    assert!(check_reference_geometry(1, 2, 9, 1, 1, 2, 9).is_ok());
    let stale = check_reference_geometry(1, 3, 9, 1, 1, 2, 9).unwrap_err();
    assert_eq!(stale.code, ErrorCode::StaleReference);
    assert_eq!(stale.context.target_id, Some(2));
    assert_eq!(check_reference_geometry(1, 2, 8, 1, 1, 2, 9).unwrap_err().code, ErrorCode::StaleReference);
    let unavailable = geometry_unavailable_error(1, 2);
    assert_eq!(unavailable.code, ErrorCode::InvalidLifecycleTransition);
    assert_eq!(unavailable.message, "current-reference geometry requires an active browser session");
}

#[test]
fn region_frames_must_follow_the_resolved_range_and_hold_the_locator() {
    let frames = vec![frame(10, 1, 6), frame(11, 2, 7), frame(12, 3, 9)];
    let resolved = SessionSpan { start: 0, end: 100 };
    // An omitted anchor is the locator frame's session time.
    assert_eq!(check_region_frames(resolved, &frames, 11, None).unwrap(), (1, 7));
    assert_eq!(check_region_frames(resolved, &frames, 11, Some(50)).unwrap(), (1, 50));
    assert_eq!(check_region_frames(resolved, &frames, 13, None).unwrap_err().code, ErrorCode::InvalidInput);
    let outside = SessionSpan { start: 7, end: 100 };
    assert_eq!(check_region_frames(outside, &frames, 11, None).unwrap_err().code, ErrorCode::InvalidInput);
    let backwards = vec![frame(10, 1, 9), frame(11, 2, 7)];
    assert_eq!(check_region_frames(resolved, &backwards, 11, None).unwrap_err().code, ErrorCode::InvalidInput);
}

#[test]
fn artifact_lookups_that_lost_their_evidence_fail_in_scope() {
    assert!(check_artifact_lookup(ArtifactLookup::Available, SCOPE).is_ok());
    let missing = check_artifact_lookup(ArtifactLookup::Missing, SCOPE).unwrap_err();
    assert_eq!(missing.code, ErrorCode::NotFound);
    assert_eq!(missing.message, "artifact evidence is no longer retained");
    assert_eq!(missing.context.session_id, Some(1));
    assert_eq!(missing.context.target_id, Some(2));
    let invalid = check_artifact_lookup(ArtifactLookup::Invalidated, SCOPE).unwrap_err();
    assert_eq!(invalid.code, ErrorCode::EvidenceInvalidated);
    assert_eq!(invalid.message, "artifact evidence failed provenance validation");
}
