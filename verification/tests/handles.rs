use krometrail::epoch::{FrameMeta, ImageFormat};
use krometrail::errors::{ErrorCode, RetryAdvice};
use krometrail::handles::{
    MAX_RESOLVED_RANGE_HANDLES, RangeHandles, RangeRecord, invalidated_handle, metadata_failure,
    validate_available_metadata,
};
use krometrail::errors::Failure;
use krometrail::spans::SessionSpan;

fn frame(id: u128, ordinal: u64, time: u64) -> FrameMeta {
    FrameMeta {
        frame_id: id,
        session_id: 1,
        target_id: 2,
        capture_ordinal: ordinal,
        session_time: time,
        format: ImageFormat::Png,
        image_width: 2,
        image_height: 2,
        viewport_width: 2,
        viewport_height: 2,
        device_scale_bits: 1.0_f64.to_bits(),
        encoded_len: 10,
    }
}

fn record(encoded: &[u8], ids: &[u128]) -> RangeRecord {
    RangeRecord {
        session_id: 1,
        target_id: 2,
        resolved: SessionSpan { start: 0, end: 100 },
        frame_ids: ids.to_vec(),
        encoded: encoded.to_vec(),
    }
}

fn metadata() -> Vec<FrameMeta> {
    vec![frame(10, 1, 5), frame(11, 2, 6)]
}

#[test]
fn equal_ranges_deduplicate_and_keep_their_handle() {
    let mut handles = RangeHandles::new();
    let first = handles.register(record(b"range-a", &[10, 11]), &metadata(), 500).unwrap();
    assert_eq!(first, 500);
    let again = handles.register(record(b"range-a", &[10, 11]), &metadata(), 501).unwrap();
    assert_eq!(again, 500);
    assert_eq!(handles.len(), 1);
    assert_eq!(handles.used_budget_bytes(), 7);
    let second = handles.register(record(b"range-b", &[10, 11]), &metadata(), 501).unwrap();
    assert_eq!(second, 501);
    assert_eq!(handles.len(), 2);
    assert!(handles.contains(500) && handles.contains(501) && !handles.contains(502));
    assert_eq!(handles.lookup(501).unwrap().encoded, b"range-b".to_vec());
    assert_eq!(MAX_RESOLVED_RANGE_HANDLES, 128);
}

#[test]
fn reordered_or_missing_metadata_invalidates_the_range() {
    let range = record(b"range-a", &[10, 11]);
    assert!(validate_available_metadata(&range, &metadata()).is_ok());
    let reordered = vec![frame(11, 2, 6), frame(10, 1, 5)];
    let err = validate_available_metadata(&range, &reordered).unwrap_err();
    assert_eq!(err.code, ErrorCode::EvidenceInvalidated);
    assert_eq!(err.context.session_id, Some(1));
    let backwards = vec![frame(10, 2, 5), frame(11, 1, 6)];
    assert!(validate_available_metadata(&range, &backwards).is_err());
    let outside = vec![frame(10, 1, 5), frame(11, 2, 101)];
    assert!(validate_available_metadata(&range, &outside).is_err());
    assert!(validate_available_metadata(&range, &vec![frame(10, 1, 5)]).is_err());
    let mut handles = RangeHandles::new();
    assert_eq!(handles.register(range, &reordered, 500).unwrap_err().code, ErrorCode::EvidenceInvalidated);
    assert_eq!(handles.len(), 0);
}

#[test]
fn unknown_handles_fail_and_resolution_revalidates() {
    let mut handles = RangeHandles::new();
    let handle = handles.register(record(b"range-a", &[10, 11]), &metadata(), 500).unwrap();
    let unknown = handles.lookup(77).unwrap_err();
    assert_eq!(unknown.code, ErrorCode::EvidenceInvalidated);
    assert_eq!(unknown.retry, Some(RetryAdvice::AfterRecovery));
    assert_eq!(unknown.context.session_id, None);
    assert_eq!(handles.resolve_available(handle, &metadata()).unwrap().frame_ids, vec![10, 11]);
    let changed = vec![frame(10, 1, 5), frame(12, 2, 6)];
    assert_eq!(handles.resolve_available(handle, &changed).unwrap_err().code, ErrorCode::EvidenceInvalidated);
    let missing = metadata_failure(&record(b"range-a", &[10, 11]), Failure::new(ErrorCode::NotFound, "gone"));
    assert_eq!(missing.code, ErrorCode::EvidenceInvalidated);
    let kept = metadata_failure(&record(b"range-a", &[10, 11]), Failure::new(ErrorCode::PersistenceFailed, "disk"));
    assert_eq!(kept.code, ErrorCode::PersistenceFailed);
    assert_eq!(invalidated_handle(None).code, ErrorCode::EvidenceInvalidated);
}

#[test]
fn capacity_and_budget_reject_only_the_new_range() {
    let mut handles = RangeHandles::with_limits(1, 10);
    handles.register(record(b"range-a", &[10, 11]), &metadata(), 500).unwrap();
    let full = handles.register(record(b"range-b", &[10, 11]), &metadata(), 501).unwrap_err();
    assert_eq!(full.code, ErrorCode::ResourceLimitExceeded);
    assert!(handles.contains(500));
    let mut budget = RangeHandles::with_limits(8, 10);
    budget.register(record(b"range-a", &[10, 11]), &metadata(), 500).unwrap();
    assert_eq!(budget.register(record(b"range-b", &[10, 11]), &metadata(), 501).unwrap_err().code, ErrorCode::ResourceLimitExceeded);
    assert_eq!(budget.register(record(b"longer-than-ten", &[10, 11]), &metadata(), 501).unwrap_err().code, ErrorCode::ResourceLimitExceeded);
    assert_eq!(budget.used_budget_bytes(), 7);
    let mut authority = RangeHandles::new();
    assert_eq!(authority.register(record(b"range-a", &[10, 11]), &metadata(), 0).unwrap_err().code, ErrorCode::Internal);
    authority.register(record(b"range-a", &[10, 11]), &metadata(), 500).unwrap();
    assert_eq!(authority.register(record(b"range-b", &[10, 11]), &metadata(), 500).unwrap_err().code, ErrorCode::Internal);
}
