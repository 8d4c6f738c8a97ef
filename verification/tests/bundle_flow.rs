use krometrail::bundle_flow::{bundle_step, BundleAction, BundleEvent, BundleFailure, BundleStage};
use krometrail::errors::ErrorCode;

fn drive(events: &[BundleEvent]) -> Vec<BundleAction> {
    let mut stage = BundleStage::Starting;
    let mut actions = Vec::new();
    for event in events {
        let (next, action) = bundle_step(stage, *event);
        stage = next;
        actions.push(action);
    }
    actions
}

#[test]
fn a_complete_bundle_asks_each_port_once_in_order() {
    let actions = drive(&[
        BundleEvent::Started { deadline_passed: false, cancelled: false },
        BundleEvent::PermitAcquired,
        BundleEvent::RangeResolved,
        BundleEvent::MarkersAssembled,
        BundleEvent::ArtifactsAnswered { total: 3, unavailable: 1, available: 2 },
        BundleEvent::ContextAnswered,
    ]);
    assert_eq!(
        actions,
        vec![
            BundleAction::AcquirePermit,
            BundleAction::ResolveRange,
            BundleAction::LoadMarkers,
            BundleAction::GenerateArtifacts,
            BundleAction::QueryContext,
            BundleAction::Compose { marker_degraded: false, artifacts: Some((3, 1)), context_available: true },
        ]
    );
}

#[test]
fn an_expired_or_cancelled_request_fails_before_any_work() {
    for (deadline_passed, cancelled) in [(true, false), (false, true)] {
        let actions = drive(&[BundleEvent::Started { deadline_passed, cancelled }]);
        assert_eq!(
            actions,
            vec![BundleAction::Fail { failure: BundleFailure::Interrupted { deadline: false } }]
        );
    }
}

#[test]
fn a_closed_permit_fails_the_bundle() {
    let actions = drive(&[
        BundleEvent::Started { deadline_passed: false, cancelled: false },
        BundleEvent::PermitClosed,
    ]);
    assert_eq!(actions[1], BundleAction::Fail { failure: BundleFailure::PermitClosed });
}

#[test]
fn a_deadline_while_waiting_for_the_range_fails_the_bundle() {
    let actions = drive(&[
        BundleEvent::Started { deadline_passed: false, cancelled: false },
        BundleEvent::PermitAcquired,
        BundleEvent::Interrupted { deadline: true },
    ]);
    assert_eq!(actions[2], BundleAction::Fail { failure: BundleFailure::Interrupted { deadline: true } });
}

#[test]
fn a_range_failure_is_returned_unchanged() {
    let actions = drive(&[
        BundleEvent::Started { deadline_passed: false, cancelled: false },
        BundleEvent::PermitAcquired,
        BundleEvent::RangeFailed { code: ErrorCode::NotFound },
    ]);
    assert_eq!(actions[2], BundleAction::Fail { failure: BundleFailure::Propagated { code: ErrorCode::NotFound } });
}

#[test]
fn lost_marker_evidence_degrades_the_bundle() {
    let actions = drive(&[
        BundleEvent::Started { deadline_passed: false, cancelled: false },
        BundleEvent::PermitAcquired,
        BundleEvent::RangeResolved,
        BundleEvent::MarkerLoadFailed { code: ErrorCode::PersistenceFailed, deadline_passed: false },
        BundleEvent::MarkersAssembled,
        BundleEvent::ArtifactsAnswered { total: 2, unavailable: 0, available: 2 },
        BundleEvent::ContextAnswered,
    ]);
    assert_eq!(actions[3], BundleAction::AssembleFallbackMarkers);
    assert_eq!(
        actions[6],
        BundleAction::Compose { marker_degraded: true, artifacts: Some((2, 0)), context_available: true }
    );
}

#[test]
fn a_cancelled_marker_load_is_not_degraded() {
    let actions = drive(&[
        BundleEvent::Started { deadline_passed: false, cancelled: false },
        BundleEvent::PermitAcquired,
        BundleEvent::RangeResolved,
        BundleEvent::MarkerLoadFailed { code: ErrorCode::Cancelled, deadline_passed: false },
    ]);
    assert_eq!(actions[3], BundleAction::Fail { failure: BundleFailure::Propagated { code: ErrorCode::Cancelled } });
}

#[test]
fn vanished_artifact_evidence_ends_the_bundle() {
    let actions = drive(&[
        BundleEvent::Started { deadline_passed: false, cancelled: false },
        BundleEvent::PermitAcquired,
        BundleEvent::RangeResolved,
        BundleEvent::MarkersAssembled,
        BundleEvent::ArtifactsFailed { code: ErrorCode::NotFound, deadline_passed: false },
    ]);
    assert_eq!(actions[4], BundleAction::Fail { failure: BundleFailure::EvidenceLifetime });
}

#[test]
fn failed_artifacts_beside_answered_context_degrade_the_bundle() {
    let actions = drive(&[
        BundleEvent::Started { deadline_passed: false, cancelled: false },
        BundleEvent::PermitAcquired,
        BundleEvent::RangeResolved,
        BundleEvent::MarkersAssembled,
        BundleEvent::ArtifactsFailed { code: ErrorCode::ArtifactGenerationFailed, deadline_passed: false },
        BundleEvent::ContextAnswered,
    ]);
    assert_eq!(actions[4], BundleAction::QueryContext);
    assert_eq!(
        actions[5],
        BundleAction::Compose { marker_degraded: false, artifacts: None, context_available: true }
    );
}

#[test]
fn failed_context_beside_an_available_outcome_degrades_the_bundle() {
    let actions = drive(&[
        BundleEvent::Started { deadline_passed: false, cancelled: false },
        BundleEvent::PermitAcquired,
        BundleEvent::RangeResolved,
        BundleEvent::MarkersAssembled,
        BundleEvent::ArtifactsAnswered { total: 1, unavailable: 0, available: 1 },
        BundleEvent::ContextFailed { code: ErrorCode::PersistenceFailed, deadline_passed: false },
    ]);
    assert_eq!(
        actions[5],
        BundleAction::Compose { marker_degraded: false, artifacts: Some((1, 0)), context_available: false }
    );
}

#[test]
fn no_artifact_and_no_context_is_no_useful_evidence() {
    let actions = drive(&[
        BundleEvent::Started { deadline_passed: false, cancelled: false },
        BundleEvent::PermitAcquired,
        BundleEvent::RangeResolved,
        BundleEvent::MarkersAssembled,
        BundleEvent::ArtifactsAnswered { total: 2, unavailable: 2, available: 0 },
        BundleEvent::ContextFailed { code: ErrorCode::PersistenceFailed, deadline_passed: false },
    ]);
    assert_eq!(actions[5], BundleAction::Fail { failure: BundleFailure::NoUsefulEvidence });
}

#[test]
fn a_context_failure_after_the_deadline_ends_the_bundle() {
    let actions = drive(&[
        BundleEvent::Started { deadline_passed: false, cancelled: false },
        BundleEvent::PermitAcquired,
        BundleEvent::RangeResolved,
        BundleEvent::MarkersAssembled,
        BundleEvent::ArtifactsAnswered { total: 1, unavailable: 0, available: 1 },
        BundleEvent::ContextFailed { code: ErrorCode::PersistenceFailed, deadline_passed: true },
    ]);
    assert_eq!(actions[5], BundleAction::Fail { failure: BundleFailure::EvidenceLifetime });
}
