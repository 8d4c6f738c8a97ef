use krometrail::errors::ErrorCode;
use krometrail::flights::FlightOutcome;
use krometrail::work::{WorkKind, WorkRegistry};

fn decoded_key(index: u128) -> Vec<u8> {
    format!("decoded-{index}").into_bytes()
}

fn normalized_key(index: u128) -> Vec<u8> {
    format!("normalized-{index}-recipe-v1").into_bytes()
}

#[test]
fn a_nonadmitted_entry_is_removed_for_later_work() {
    let mut registry = WorkRegistry::new(3);
    let batch = registry.begin_batch();
    let (entry, leads) = registry.join(batch, WorkKind::Decoded, &decoded_key(3));
    assert!(leads);
    // A four-byte decoded frame does not fit a three-byte budget.
    assert!(!registry.complete(entry, 4));
    registry.leave(entry);
    assert_eq!(registry.bytes_used(), 0);
    assert!(registry.join(batch, WorkKind::Decoded, &decoded_key(3)).1);
}

#[test]
fn work_waiter_cancellation_is_independent_until_the_last_waiter() {
    let mut registry = WorkRegistry::new(64);
    let batch = registry.begin_batch();
    let (first, first_leads) = registry.join(batch, WorkKind::Decoded, &decoded_key(4));
    let (second, second_leads) = registry.join(batch, WorkKind::Decoded, &decoded_key(4));
    assert!(first_leads && !second_leads);
    assert_eq!(first, second);
    registry.leave(first);
    assert!(!registry.is_cancelled(first));
    registry.leave(second);
    assert!(registry.is_cancelled(first));
    assert!(registry.join(batch, WorkKind::Decoded, &decoded_key(4)).1);
}

#[test]
fn work_flight_suppresses_duplicate_leader_and_releases_after_batch() {
    let mut registry = WorkRegistry::new(64);
    let batch = registry.begin_batch();
    let (first, leads) = registry.join(batch, WorkKind::Decoded, &decoded_key(1));
    let (second, follows) = registry.join(batch, WorkKind::Decoded, &decoded_key(1));
    assert!(leads && !follows);
    assert!(registry.complete(first, 4));
    assert_eq!(registry.outcome(second), FlightOutcome::Ready { retained: true });
    registry.leave(first);
    registry.leave(second);
    assert_eq!(registry.bytes_used(), 4);
    assert_eq!(registry.entry_count(), 1);
    // A later request in another batch reuses the retained result.
    let other = registry.begin_batch();
    let (reused, reuse_leads) = registry.join(other, WorkKind::Decoded, &decoded_key(1));
    assert_eq!((reused, reuse_leads), (first, false));
    registry.leave(reused);
    registry.end_batch(batch);
    assert_eq!(registry.bytes_used(), 4);
    registry.end_batch(other);
    assert_eq!(registry.bytes_used(), 0);
    assert_eq!(registry.entry_count(), 0);
}

#[test]
fn failed_work_is_not_cached() {
    let mut registry = WorkRegistry::new(64);
    let batch = registry.begin_batch();
    let (entry, _) = registry.join(batch, WorkKind::Normalized, &normalized_key(2));
    registry.fail(entry, ErrorCode::ArtifactGenerationFailed);
    assert_eq!(registry.outcome(entry), FlightOutcome::Failed(ErrorCode::ArtifactGenerationFailed));
    registry.leave(entry);
    assert_eq!(registry.bytes_used(), 0);
    assert!(registry.join(batch, WorkKind::Normalized, &normalized_key(2)).1);
}

#[test]
fn overlapping_batches_run_each_of_119_shared_frames_once_for_both_work_kinds() {
    let mut registry = WorkRegistry::new(121 * (4 + 6));
    let first_batch = registry.begin_batch();
    let second_batch = registry.begin_batch();
    for (kind, key, bytes) in [
        (WorkKind::Decoded, decoded_key as fn(u128) -> Vec<u8>, 4_usize),
        (WorkKind::Normalized, normalized_key as fn(u128) -> Vec<u8>, 6_usize),
    ] {
        let mut waiters = Vec::new();
        let mut leaders = Vec::new();
        for index in 0..120_u128 {
            let (entry, leads) = registry.join(first_batch, kind, &key(index));
            if leads {
                leaders.push(entry);
            }
            waiters.push(entry);
        }
        for index in 1..=120_u128 {
            let (entry, leads) = registry.join(second_batch, kind, &key(index));
            if leads {
                leaders.push(entry);
            }
            waiters.push(entry);
        }
        assert_eq!(leaders.len(), 121, "119 overlap keys share their leader");
        for entry in &leaders {
            assert!(registry.complete(*entry, bytes));
        }
        for entry in waiters {
            registry.leave(entry);
        }
    }
    assert_eq!(registry.bytes_used(), 121 * (4 + 6));
    registry.end_batch(first_batch);
    assert_eq!(registry.bytes_used(), 120 * (4 + 6));
    registry.end_batch(second_batch);
    assert_eq!(registry.bytes_used(), 0);
    assert_eq!(registry.entry_count(), 0);
}

#[test]
fn a_cancelled_flight_is_replaced_and_gives_its_bytes_back_when_released() {
    let mut registry = WorkRegistry::new(64);
    let batch = registry.begin_batch();
    let (old, _) = registry.join(batch, WorkKind::Decoded, &decoded_key(8));
    registry.leave(old);
    assert!(registry.is_cancelled(old));
    // The batch still holds the cancelled flight, but new requests lead new work,
    // and the batch now holds the new flight instead.
    let (fresh, leads) = registry.join(batch, WorkKind::Decoded, &decoded_key(8));
    assert!(leads);
    assert_ne!(fresh, old);
    assert_eq!(registry.waiter_count(fresh), 1);
    assert!(registry.complete(fresh, 8));
    registry.leave(fresh);
    assert_eq!(registry.entry_count(), 1);
    registry.end_batch(batch);
    assert_eq!(registry.bytes_used(), 0);
}

#[test]
fn a_follower_sees_the_result_retained_exactly_when_its_bytes_were_admitted() {
    for (budget, bytes, admitted) in [(64usize, 4usize, true), (3, 4, false), (64, 0, false)] {
        let mut registry = WorkRegistry::new(budget);
        let batch = registry.begin_batch();
        let (leader, _) = registry.join(batch, WorkKind::Decoded, &decoded_key(9));
        let (follower, follows) = registry.join(batch, WorkKind::Decoded, &decoded_key(9));
        assert!(!follows);
        assert_eq!(registry.complete(leader, bytes), admitted);
        assert_eq!(registry.outcome(follower), FlightOutcome::Ready { retained: admitted });
        assert_eq!(registry.bytes_used(), if admitted { bytes } else { 0 });
    }
}
