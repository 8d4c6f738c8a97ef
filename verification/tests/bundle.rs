use krometrail::bundle::{
    build_effective_policy, cancelled_error, epoch_summary, evidence_lifetime_error, no_useful_evidence_error, permit_error, BundleEpochScope, EventSelection, bundle_degradations, bundle_warnings, classify_visual_evidence, compose_summary, default_artifact_request,
    default_generators, effective_deadline, extract_epoch_summaries, is_fatal_after_resolution,
    require_useful_evidence, BundleWorkLimits, Degradation, VisualEvidenceState, MAX_BUNDLE_HEADER_BYTES,
};
use krometrail::errors::{ErrorCode, RetryAdvice};
use krometrail::generation::{FailurePolicy, FrequencyMode};
use krometrail::markers::BundleWarning;
use krometrail::normalization::{AnalysisScale, FrameSelector};
use krometrail::spans::SessionSpan;

fn resolved() -> SessionSpan {
    SessionSpan { start: 0, end: 1_000_000 }
}

const TARGET: u128 = 2;

#[test]
fn header_with_focus_uses_only_approved_language() {
    let summary = compose_summary(TARGET, resolved(), 1, true).unwrap();
    for forbidden in ["caused", "triggered", "diagnosed", "fixed", "smooth", "flicker", "reversal", "stable"] {
        assert!(!summary.to_lowercase().contains(forbidden), "header summary leaked forbidden term: {forbidden}");
    }
    assert!(summary.contains("Observed"));
    assert!(summary.contains("measured"));
    assert!(summary.contains("proximity"));
    assert!(summary.contains("do not establish"));
    assert!(summary.len() <= MAX_BUNDLE_HEADER_BYTES);
}

#[test]
fn header_without_focus_states_no_thresholded_change() {
    let summary = compose_summary(TARGET, resolved(), 1, false).unwrap();
    assert!(summary.contains("No thresholded visual change"));
}

#[test]
fn header_extracts_epoch_summaries_from_available_storyboards_only() {
    // Two available storyboards with traces (epochs 0 and 1), one unavailable.
    let summaries = extract_epoch_summaries(&vec![Some(0), Some(1), None]);
    assert_eq!(summaries.len(), 2);
    assert_eq!(summaries[0].0, 0);
    assert_eq!(summaries[1].0, 1);
}

#[test]
fn golden_header_text_is_non_diagnostic_and_stable() {
    let summary = compose_summary(TARGET, resolved(), 1, false).unwrap();
    assert!(summary.contains("Observed"));
    assert!(summary.contains("No thresholded visual change"));
    assert!(summary.contains("do not establish diagnosis or causality"));
    assert!(summary.len() <= MAX_BUNDLE_HEADER_BYTES);
    let again = compose_summary(TARGET, resolved(), 1, false).unwrap();
    assert_eq!(summary, again);
}

#[test]
fn header_summary_text_is_exact() {
    let summary = compose_summary(TARGET, SessionSpan { start: 5, end: 1_234 }, 3, true).unwrap();
    assert_eq!(
        summary,
        "Observed target 00000000-0000-0000-0000-000000000002 from 5 to 1234 ns. 3 source frames retained. \
         Visual changes measured at selected storyboard moments. Browser events co-occurred nearest by \
         session-time distance. Measurements and proximity do not establish diagnosis or causality."
    );
}

#[test]
fn longest_header_summary_stays_within_the_byte_bound() {
    let summary = compose_summary(u128::MAX, SessionSpan { start: u64::MAX, end: u64::MAX }, usize::MAX, false).unwrap();
    assert!(summary.len() <= MAX_BUNDLE_HEADER_BYTES);
    assert!(summary.contains("ffffffff-ffff-ffff-ffff-ffffffffffff"));
}

#[test]
fn epoch_summaries_are_ordered_and_keep_the_first_outcome_per_epoch() {
    let summaries = extract_epoch_summaries(&vec![Some(3), None, Some(1), Some(3), Some(1), Some(0)]);
    assert_eq!(summaries, vec![(0, 5), (1, 2), (3, 0)]);
}

#[test]
fn default_generators_are_byte_stable_with_orientation_on_and_off() {
    let with_orientation = format!("{:?}", default_generators(500_000, true));
    let omit = format!("{:?}", default_generators(500_000, false));
    assert_eq!(with_orientation, format!("{:?}", default_generators(500_000, true)));
    assert_eq!(omit, format!("{:?}", default_generators(500_000, false)));
    assert!(with_orientation.contains("include_orientation: true"));
    assert!(omit.contains("include_orientation: false"));
    assert_eq!(
        with_orientation.replace("include_orientation: true", "include_orientation: _"),
        omit.replace("include_orientation: false", "include_orientation: _")
    );
}

#[test]
fn default_generators_contain_only_storyboard_and_difference_map_policy() {
    let request = default_artifact_request(500_000, true);
    assert_eq!(request.failure_policy, FailurePolicy::AllowPartial);
    assert_eq!(request.storyboard.anchor, 500_000);
    assert_eq!(request.difference_map.reference, FrameSelector::First);
}

#[test]
fn default_generator_values_match_the_designed_policy() {
    let (storyboard, difference_map) = default_generators(500, true);
    assert_eq!(storyboard.anchor, 500);
    assert_eq!(storyboard.tile_limit, 8);
    assert_eq!(storyboard.noise_floor, 512);
    assert_eq!(storyboard.normalization.scale, AnalysisScale::FitLimits);
    assert!(storyboard.normalization.crop.is_none());
    assert_eq!(storyboard.background, (0, 0, 0));
    assert_eq!(storyboard.title, "TEMPORAL STORYBOARD");
    assert_eq!(storyboard.source, "KROMETRAIL RETAINED SOURCE FRAMES");
    assert!(storyboard.include_orientation);
    assert_eq!(storyboard.output.max_width, 1920);
    assert_eq!(storyboard.output.max_height, 2048);
    assert_eq!(storyboard.output.max_encoded_bytes, 16 * 1024 * 1024);

    assert_eq!(difference_map.reference, FrameSelector::First);
    assert_eq!(difference_map.frequency_mode, FrequencyMode::NormalizedFrequency);
    assert!(difference_map.repeated_change_separation_nanos.is_none());
    assert_eq!(difference_map.noise_floor, 512);
    assert_eq!(difference_map.normalization.scale, AnalysisScale::FitLimits);
    assert!(difference_map.normalization.crop.is_none());
    assert_eq!(difference_map.background, (0, 0, 0));
    assert_eq!(difference_map.canvas_background, (0, 0, 0));
    assert_eq!(difference_map.output.max_width, 8192);
    assert_eq!(difference_map.output.max_height, 8192);
    assert_eq!(difference_map.output.max_encoded_bytes, 64 * 1024 * 1024);
}

#[test]
fn visual_evidence_never_claims_no_change_without_a_trace() {
    assert_eq!(classify_visual_evidence(false, false), VisualEvidenceState::Unavailable);
    assert_eq!(classify_visual_evidence(false, true), VisualEvidenceState::Unavailable);
    assert_eq!(classify_visual_evidence(true, true), VisualEvidenceState::MeasuredChange);
    assert_eq!(classify_visual_evidence(true, false), VisualEvidenceState::MeasuredNoChange);
}

#[test]
fn lifetime_cancellation_and_deadline_are_fatal_after_resolution() {
    assert!(is_fatal_after_resolution(ErrorCode::NotFound, false));
    assert!(is_fatal_after_resolution(ErrorCode::Cancelled, false));
    assert!(is_fatal_after_resolution(ErrorCode::ArtifactGenerationFailed, true));
    assert!(!is_fatal_after_resolution(ErrorCode::ArtifactGenerationFailed, false));
}

#[test]
fn degradations_are_reported_in_component_order() {
    assert_eq!(
        bundle_degradations(true, Some((4, 1)), false),
        vec![
            Degradation::MarkerContextUnavailable,
            Degradation::ArtifactOutcomesUnavailable { unavailable: 1, total: 4 },
            Degradation::ContextUnavailable,
        ]
    );
    assert_eq!(bundle_degradations(false, None, true), vec![Degradation::ArtifactRequestUnavailable]);
    assert!(bundle_degradations(false, Some((4, 0)), true).is_empty());
    assert_eq!(
        bundle_degradations(false, Some((70_000, 70_000)), true),
        vec![Degradation::ArtifactOutcomesUnavailable { unavailable: u16::MAX, total: u16::MAX }]
    );
}

#[test]
fn a_bundle_without_artifact_or_context_evidence_fails() {
    let error = require_useful_evidence(0, false, 1, 2, resolved()).unwrap_err();
    assert_eq!(error.code, ErrorCode::ArtifactGenerationFailed);
    assert_eq!(error.retry, Some(RetryAdvice::AfterRecovery));
    assert_eq!(error.context.session_id, Some(1));
    assert!(require_useful_evidence(1, false, 1, 2, resolved()).is_ok());
    assert!(require_useful_evidence(0, true, 1, 2, resolved()).is_ok());
}

#[test]
fn warnings_put_the_anchor_adjustment_first_and_missing_focus_last() {
    let warnings = bundle_warnings(100, 200, vec![BundleWarning::NoMajorVisualChangeFocus], false);
    assert_eq!(warnings.len(), 3);
    assert!(matches!(warnings[0], BundleWarning::AnchorAdjustedForRetention { requested: 100, effective: 200 }));
    assert!(matches!(warnings[2], BundleWarning::NoMajorVisualChangeFocus));
    assert!(bundle_warnings(5, 5, vec![], true).is_empty());
}

#[test]
fn bundle_deadline_is_the_earlier_of_caller_and_wall_time() {
    let limits = BundleWorkLimits::default();
    assert_eq!(limits.max_active_requests, 2);
    assert_eq!(limits.max_wall_time_millis, 20_000);
    assert_eq!(effective_deadline(100, 50, None), Some(150));
    assert_eq!(effective_deadline(100, 50, Some(120)), Some(120));
    assert_eq!(effective_deadline(100, 50, Some(200)), Some(150));
    assert_eq!(effective_deadline(u64::MAX, 1, None), None);
}

#[test]
fn build_effective_policy_carries_exact_values_and_epoch_scope() {
    let effective = build_effective_policy(500, true, BundleEpochScope::Anchor, vec![]).unwrap();
    assert_eq!(effective.epoch_scope, BundleEpochScope::Anchor);
    assert_eq!(effective.artifact_anchor, 500);
    assert_eq!(effective.artifact_generators.0.anchor, 500);
    assert_eq!(effective.artifact_generators.1.reference, FrameSelector::First);
    assert!(effective.focus_times.is_empty());
    assert!(effective.event_classes.is_empty());
    assert!(matches!(effective.event_selection, EventSelection::Compact { .. }));
    assert_eq!(effective.event_selection, EventSelection::Compact { limit: 24 });
    assert_eq!(effective.failure_policy, FailurePolicy::AllowPartial);
}

#[test]
fn build_effective_policy_validates_focus_time_count_and_ordering() {
    assert!(build_effective_policy(500, true, BundleEpochScope::Anchor, vec![400, 400]).is_err());
    assert!(build_effective_policy(500, true, BundleEpochScope::Anchor, vec![600, 400]).is_err());
    assert!(build_effective_policy(500, true, BundleEpochScope::All, vec![400, 600]).is_ok());
    assert_eq!(
        build_effective_policy(500, true, BundleEpochScope::All, (0..17).collect()).unwrap_err().code,
        ErrorCode::InvalidInput
    );
    assert!(build_effective_policy(500, true, BundleEpochScope::All, (0..16).collect()).is_ok());
}

#[test]
fn golden_effective_policy_is_byte_stable() {
    let effective = build_effective_policy(500_000, true, BundleEpochScope::Anchor, vec![]).unwrap();
    let text = format!("{:?}", effective);
    assert!(text.contains("epoch_scope: Anchor"));
    // The artifact anchor is the resolved anchor's effective time (midpoint of [0, 1000000]).
    assert!(text.contains("artifact_anchor: 500000"));
    assert!(text.contains("StoryboardPolicy"));
    assert!(text.contains("DifferenceMapPolicy"));
    assert!(text.contains("failure_policy: AllowPartial"));
    assert!(text.contains("focus_times: []"));
    let again = format!("{:?}", build_effective_policy(500_000, true, BundleEpochScope::Anchor, vec![]).unwrap());
    assert_eq!(text, again);
}

#[test]
fn an_epoch_summary_is_the_first_that_names_the_epoch() {
    let summaries = vec![(0, 5), (1, 2), (3, 0), (1, 9)];
    assert_eq!(epoch_summary(&summaries, 1), Some(2));
    assert_eq!(epoch_summary(&summaries, 3), Some(0));
    assert_eq!(epoch_summary(&summaries, 2), None);
}

#[test]
fn bundle_failures_carry_their_scope_and_advice() {
    let lifetime = evidence_lifetime_error(1, TARGET, resolved());
    assert_eq!(lifetime.code, ErrorCode::NotFound);
    assert_eq!(lifetime.retry, Some(RetryAdvice::AfterRecovery));
    assert_eq!(lifetime.context.range, Some(resolved()));
    let useless = no_useful_evidence_error(1, TARGET, resolved());
    assert_eq!(useless.code, ErrorCode::ArtifactGenerationFailed);
    assert_eq!(useless.context.target_id, Some(TARGET));
    assert_eq!(cancelled_error(true).message, "temporal debug bundle deadline elapsed");
    assert_eq!(cancelled_error(false).retry, Some(RetryAdvice::Safe));
    assert_eq!(permit_error().code, ErrorCode::ResourceLimitExceeded);
}

#[test]
fn header_names_the_target_in_canonical_uuid_text() {
    for target in [0u128, 1, 0x0123_4567_89ab_cdef_fedc_ba98_7654_3210, u128::MAX] {
        let summary = compose_summary(target, resolved(), 2, true).unwrap();
        let expected = format!("Observed target {} from 0 to 1000000 ns. ", uuid::Uuid::from_u128(target));
        assert!(summary.starts_with(&expected), "{summary}");
    }
}
