use krometrail::errors::ErrorCode;
use krometrail::markers::{
    assemble_markers, AnchorReference, ArtifactMarker, AssembledMarkers, BundleWarning,
    InteractionAnchor, MarkerId, Observation, ObservationPayload, RangeScope, TimelineSlice,
    MAX_BUNDLE_ARTIFACT_MARKERS, MAX_BUNDLE_TIMELINE_ROWS,
};
use krometrail::spans::SessionSpan;

fn interval_range(start: u64, end: u64) -> RangeScope {
    RangeScope {
        resolved: SessionSpan { start, end },
        effective_anchor: start + (end - start) / 2,
        anchor: AnchorReference::Interval,
    }
}

fn interaction_range(interaction_id: u128, dispatch: u64) -> RangeScope {
    RangeScope {
        resolved: SessionSpan { start: dispatch.saturating_sub(150), end: dispatch + 250 },
        effective_anchor: dispatch,
        anchor: AnchorReference::Interaction(interaction_id),
    }
}

fn marker_range(marker_id: u128, time: u64) -> RangeScope {
    RangeScope {
        resolved: SessionSpan { start: time.saturating_sub(150), end: time + 250 },
        effective_anchor: time,
        anchor: AnchorReference::Marker(marker_id),
    }
}

fn marker(id: MarkerId, time: u64, kind: &str, label: &str) -> ArtifactMarker {
    ArtifactMarker { id, session_time: time, kind: kind.to_string(), label: label.to_string() }
}

fn observation(time: u64, payload: ObservationPayload) -> Observation {
    Observation { session_time: time, payload }
}

fn slice(observations: Vec<Observation>, matched_count: u64) -> TimelineSlice {
    let truncated = matched_count > observations.len() as u64;
    TimelineSlice { matched_count, observations, truncated }
}

fn interaction_anchor(id: u128, dispatch: u64) -> InteractionAnchor {
    InteractionAnchor { interaction_id: id, operation: "click".to_string(), dispatched_at: dispatch }
}

fn assemble(
    range: &RangeScope,
    callers: Vec<ArtifactMarker>,
    timeline: &TimelineSlice,
    anchors: Vec<InteractionAnchor>,
) -> AssembledMarkers {
    assemble_markers(range, &callers, timeline, &anchors).unwrap()
}

fn is_interaction(id: &MarkerId, value: u128) -> bool {
    matches!(id, MarkerId::Interaction(v) if *v == value)
}

#[test]
fn caller_markers_and_anchor_marker_are_mandatory_and_chronological() {
    let range = interaction_range(7, 500);
    let caller = marker(MarkerId::Caller("caller-1".to_string()), 100, "caller", "exact caller label");
    let assembled = assemble(&range, vec![caller], &slice(vec![], 0), vec![interaction_anchor(7, 500)]);
    assert_eq!(assembled.markers.len(), 2);
    assert_eq!(assembled.markers[0].session_time, 100);
    assert_eq!(assembled.markers[1].session_time, 500);
    assert!(is_interaction(&assembled.markers[1].id, 7));
    assert_eq!(assembled.markers[1].kind, "interaction");
    assert_eq!(assembled.markers[1].label, "Interaction 00000000-0000-0000-0000-000000000007: click");
    assert!(assembled.warnings.is_empty());
}

#[test]
fn interaction_navigation_and_generic_markers_use_exact_identity_and_privacy() {
    let range = interval_range(0, 1_000);
    let timeline = slice(
        vec![
            observation(200, ObservationPayload::Interaction(10)),
            observation(300, ObservationPayload::Navigation(11)),
            observation(400, ObservationPayload::Marker(12)),
        ],
        3,
    );
    let assembled = assemble(&range, vec![], &timeline, vec![interaction_anchor(10, 200)]);
    assert_eq!(assembled.markers.len(), 3);
    assert!(is_interaction(&assembled.markers[0].id, 10));
    assert_eq!(assembled.markers[0].session_time, 200);
    assert_eq!(assembled.markers[0].label, "Interaction 00000000-0000-0000-0000-00000000000a: click");
    assert!(matches!(assembled.markers[1].id, MarkerId::Navigation(11)));
    assert_eq!(assembled.markers[1].session_time, 300);
    assert_eq!(assembled.markers[1].label, "Navigation 00000000-0000-0000-0000-00000000000b");
    assert!(matches!(assembled.markers[2].id, MarkerId::Marker(12)));
    assert_eq!(assembled.markers[2].session_time, 400);
    assert_eq!(assembled.markers[2].label, "Marker 00000000-0000-0000-0000-00000000000c");
    assert_eq!(assembled.warnings.len(), 1);
    assert!(matches!(
        &assembled.warnings[0],
        BundleWarning::MarkerLabelUnavailable { marker_id: MarkerId::Marker(12) }
    ));
}

#[test]
fn automatic_interaction_marker_outside_resolved_range_is_omitted() {
    let range = interval_range(300, 1_000);
    let timeline = slice(vec![observation(400, ObservationPayload::Interaction(13))], 1);
    let assembled = assemble(&range, vec![], &timeline, vec![interaction_anchor(13, 200)]);
    assert!(assembled.markers.is_empty());
}

#[test]
fn caller_marker_provides_presentation_for_matching_generic_timeline_marker() {
    let range = interval_range(0, 1_000);
    let caller = marker(MarkerId::Marker(12), 400, "caller-kind", "exact caller text");
    let timeline = slice(vec![observation(400, ObservationPayload::Marker(12))], 1);
    let assembled = assemble(&range, vec![caller], &timeline, vec![]);
    assert_eq!(assembled.markers.len(), 1);
    assert_eq!(assembled.markers[0].kind, "caller-kind");
    assert_eq!(assembled.markers[0].label, "exact caller text");
    assert!(assembled.warnings.is_empty());
}

#[test]
fn caller_marker_matching_anchor_id_dedupes_with_caller_winning() {
    let range = interaction_range(7, 500);
    let caller = marker(MarkerId::Interaction(7), 500, "caller-anchor", "explicit caller label");
    let assembled = assemble(&range, vec![caller], &slice(vec![], 0), vec![interaction_anchor(7, 500)]);
    let matching: Vec<_> = assembled.markers.iter().filter(|m| is_interaction(&m.id, 7)).collect();
    assert_eq!(matching.len(), 1);
    assert_eq!(matching[0].kind, "caller-anchor");
    assert_eq!(matching[0].label, "explicit caller label");
    assert!(!assembled.warnings.iter().any(|w| matches!(w, BundleWarning::MarkerLabelUnavailable { .. })));
}

#[test]
fn generic_anchor_fallback_warns_and_caller_presentation_suppresses_it() {
    let range = marker_range(43, 800);
    let timeline = slice(vec![observation(800, ObservationPayload::Marker(43))], 1);
    let assembled = assemble(&range, vec![], &timeline, vec![]);
    assert_eq!(assembled.markers.len(), 1);
    assert_eq!(assembled.markers[0].label, "Marker 00000000-0000-0000-0000-00000000002b");
    assert!(matches!(
        assembled.warnings.as_slice(),
        [BundleWarning::MarkerLabelUnavailable { marker_id: MarkerId::Marker(43) }]
    ));

    let caller = marker(MarkerId::Marker(43), 800, "caller-kind", "exact caller label");
    let assembled = assemble(&range, vec![caller], &timeline, vec![]);
    assert_eq!(assembled.markers.len(), 1);
    assert!(matches!(assembled.markers[0].id, MarkerId::Marker(43)));
    assert_eq!(assembled.markers[0].session_time, 800);
    assert_eq!(assembled.markers[0].kind, "caller-kind");
    assert_eq!(assembled.markers[0].label, "exact caller label");
    assert!(assembled.warnings.is_empty());
}

#[test]
fn synthetic_anchor_label_emits_marker_label_unavailable() {
    let range = interaction_range(42, 800);
    let assembled = assemble(&range, vec![], &slice(vec![], 0), vec![]);
    let matching: Vec<_> = assembled.markers.iter().filter(|m| is_interaction(&m.id, 42)).collect();
    assert_eq!(matching.len(), 1);
    assert_eq!(matching[0].label, "Interaction 00000000-0000-0000-0000-00000000002a");
    let warnings: Vec<_> = assembled
        .warnings
        .iter()
        .filter(|w| matches!(w, BundleWarning::MarkerLabelUnavailable { .. }))
        .collect();
    assert_eq!(warnings.len(), 1);
    assert!(matches!(warnings[0], BundleWarning::MarkerLabelUnavailable { marker_id: MarkerId::Interaction(42) }));
}

#[test]
fn caller_marker_matching_anchor_id_with_inconsistent_time_fails() {
    let range = interaction_range(7, 500);
    let caller = marker(MarkerId::Interaction(7), 650, "caller-anchor", "caller marker disagrees with resolver");
    let result = assemble_markers(&range, &vec![caller], &slice(vec![], 0), &vec![interaction_anchor(7, 500)]);
    let error = result.err().expect("expected marker assembly to fail on caller/anchor time conflict");
    assert_eq!(error.code, ErrorCode::InvalidInput);
    assert!(error.message.contains("conflicts with the resolved anchor"));
}

#[test]
fn caller_marker_matching_synthetic_anchor_id_suppresses_warning() {
    let range = interaction_range(42, 800);
    let caller = marker(MarkerId::Interaction(42), 800, "caller-kind", "caller has the exact label");
    let assembled = assemble(&range, vec![caller], &slice(vec![], 0), vec![]);
    assert_eq!(assembled.markers.len(), 1);
    assert_eq!(assembled.markers[0].label, "caller has the exact label");
    assert!(assembled.warnings.is_empty());
}

const FORBIDDEN: [&str; 10] =
    ["selector", "locator", "url", "http", "cookie", "token", "password", "param", "body", "text"];

fn presented_text(markers: &[ArtifactMarker]) -> String {
    markers.iter().map(|m| format!("{} {} ", m.kind, m.label)).collect::<String>().to_lowercase()
}

#[test]
fn anchor_marker_assembly_preserves_order_and_privacy_with_synthetic_label() {
    let range = interaction_range(55, 1_000);
    let assembled = assemble(&range, vec![], &slice(vec![], 0), vec![]);
    assert_eq!(assembled.markers.len(), 1);
    let encoded = presented_text(&assembled.markers);
    for forbidden in FORBIDDEN {
        assert!(!encoded.contains(forbidden), "synthetic marker payload leaked forbidden term: {forbidden}");
    }
}

#[test]
fn candidates_rank_by_distance_class_time_then_id_and_truncate_at_256() {
    let range = interval_range(0, 10_000);
    let anchor_time = 5_000;
    let mut observations = Vec::new();
    let mut anchors = Vec::new();
    for index in 0..300u128 {
        let time = anchor_time + index as u64;
        observations.push(observation(time, ObservationPayload::Interaction(100 + index)));
        anchors.push(interaction_anchor(100 + index, time));
    }
    let timeline = slice(observations, 300);
    let assembled = assemble(&range, vec![], &timeline, anchors);
    assert_eq!(assembled.markers.len(), MAX_BUNDLE_ARTIFACT_MARKERS);
    assert_eq!(assembled.warnings.len(), 1);
    let BundleWarning::MarkersTruncated { matched_count, returned_count, limit } = &assembled.warnings[0] else {
        panic!("expected markers truncated warning");
    };
    assert_eq!(*matched_count, 300);
    assert_eq!(*returned_count, MAX_BUNDLE_ARTIFACT_MARKERS as u64);
    assert_eq!(*limit, MAX_BUNDLE_ARTIFACT_MARKERS as u16);
    for marker in &assembled.markers {
        assert!((anchor_time..anchor_time + 256).contains(&marker.session_time));
    }
    assert!(assembled.markers.windows(2).all(|pair| pair[0].session_time <= pair[1].session_time));
}

#[test]
fn timeline_source_truncation_emits_exact_warning() {
    let range = interval_range(0, 10_000);
    let timeline = TimelineSlice {
        matched_count: 2000,
        observations: vec![observation(100, ObservationPayload::Marker(5))],
        truncated: true,
    };
    let assembled = assemble(&range, vec![], &timeline, vec![]);
    assert_eq!(assembled.warnings.len(), 2);
    assert!(matches!(
        assembled.warnings[0],
        BundleWarning::TimelineMarkerEvidenceTruncated {
            matched_count: 2000,
            returned_count: 1,
            limit: MAX_BUNDLE_TIMELINE_ROWS,
        }
    ));
    assert!(matches!(assembled.warnings[1], BundleWarning::MarkerLabelUnavailable { .. }));
}

#[test]
fn equal_time_markers_order_by_class_then_id() {
    let range = interval_range(0, 1_000);
    let timeline = slice(
        vec![
            observation(500, ObservationPayload::Marker(22)),
            observation(500, ObservationPayload::Navigation(21)),
            observation(500, ObservationPayload::Interaction(20)),
        ],
        3,
    );
    let assembled = assemble(&range, vec![], &timeline, vec![interaction_anchor(20, 500)]);
    assert_eq!(assembled.markers.len(), 3);
    assert!(matches!(assembled.markers[0].id, MarkerId::Interaction(_)));
    assert!(matches!(assembled.markers[1].id, MarkerId::Navigation(_)));
    assert!(matches!(assembled.markers[2].id, MarkerId::Marker(_)));
}

#[test]
fn interval_anchor_has_no_mandatory_anchor_marker() {
    let range = interval_range(0, 1_000);
    let assembled = assemble(&range, vec![], &slice(vec![], 0), vec![]);
    assert!(assembled.markers.is_empty());
    assert!(assembled.warnings.is_empty());
}

#[test]
fn labels_contain_no_persisted_secrets_or_locator_values() {
    let range = interval_range(0, 1_000);
    let timeline = slice(vec![observation(200, ObservationPayload::Interaction(30))], 1);
    let assembled = assemble(&range, vec![], &timeline, vec![interaction_anchor(30, 200)]);
    let encoded = presented_text(&assembled.markers);
    for forbidden in FORBIDDEN {
        assert!(!encoded.contains(forbidden), "marker payload leaked forbidden term: {forbidden}");
    }
}

#[test]
fn navigation_anchor_marker_is_mandatory_without_label_warning() {
    let range = RangeScope {
        resolved: SessionSpan { start: 0, end: 1_000 },
        effective_anchor: 400,
        anchor: AnchorReference::Navigation(9),
    };
    let assembled = assemble(&range, vec![], &slice(vec![], 0), vec![]);
    assert_eq!(assembled.markers.len(), 1);
    assert!(matches!(assembled.markers[0].id, MarkerId::Navigation(9)));
    assert_eq!(assembled.markers[0].label, "Navigation 00000000-0000-0000-0000-000000000009");
    assert!(assembled.warnings.is_empty());
}

#[test]
fn mandatory_markers_survive_the_cap_in_chronological_order() {
    let range = interval_range(0, 100_000);
    let callers: Vec<ArtifactMarker> = (0..5u64)
        .map(|i| marker(MarkerId::Caller(format!("c{i}")), 90_000 + i, "caller", "label"))
        .collect();
    let mut observations = Vec::new();
    let mut anchors = Vec::new();
    for index in 0..300u128 {
        let time = 50_000 + index as u64;
        observations.push(observation(time, ObservationPayload::Interaction(1_000 + index)));
        anchors.push(interaction_anchor(1_000 + index, time));
    }
    let assembled = assemble(&range, callers, &slice(observations, 300), anchors);
    assert_eq!(assembled.markers.len(), MAX_BUNDLE_ARTIFACT_MARKERS);
    for i in 0..5u64 {
        assert!(assembled.markers.iter().any(|m| m.session_time == 90_000 + i && m.kind == "caller"));
    }
    assert!(assembled.markers.windows(2).all(|pair| pair[0].session_time <= pair[1].session_time));
}
