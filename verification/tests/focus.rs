use krometrail::focus::{
    extract_focus_times, ArtifactKind, ChangeMoment, OutcomeEvidence, SelectedFrame, SelectionReason,
    StoryboardTrace, MAX_FOCUS_TIMES,
};

/// The trace a storyboard selector records for a baseline frame at t=0 and one
/// changed frame at `change_time`: every visual-summary moment and the major
/// reasons sit on the changed frame.
fn changed_trace(change_time: u64) -> StoryboardTrace {
    let moment = ChangeMoment { session_nanos: change_time, frame_index: 1, frame_id: 101 };
    StoryboardTrace {
        first_change: Some(moment),
        peak_baseline_change: Some(moment),
        peak_adjacent_changed_area: Some(moment),
        selected_frames: vec![
            SelectedFrame { session_nanos: 0, frame_index: 0, frame_id: 100, reasons: vec![SelectionReason::Anchor] },
            SelectedFrame {
                session_nanos: change_time,
                frame_index: 1,
                frame_id: 101,
                reasons: vec![SelectionReason::FirstChange, SelectionReason::PeakBaselineChange],
            },
        ],
    }
}

/// The trace of two identical frames: no measured moment, no major reason.
fn unchanged_trace() -> StoryboardTrace {
    StoryboardTrace {
        first_change: None,
        peak_baseline_change: None,
        peak_adjacent_changed_area: None,
        selected_frames: vec![
            SelectedFrame { session_nanos: 0, frame_index: 0, frame_id: 100, reasons: vec![SelectionReason::Anchor] },
            SelectedFrame { session_nanos: 100, frame_index: 1, frame_id: 101, reasons: vec![SelectionReason::Final] },
        ],
    }
}

fn storyboard_outcome_with_epoch(trace: StoryboardTrace, epoch_index: u32) -> OutcomeEvidence {
    OutcomeEvidence { epoch_index, available: true, kind: ArtifactKind::Storyboard, trace: Some(trace) }
}

fn storyboard_outcome(trace: StoryboardTrace) -> OutcomeEvidence {
    storyboard_outcome_with_epoch(trace, 0)
}

fn difference_map_outcome(epoch_index: u32) -> OutcomeEvidence {
    OutcomeEvidence { epoch_index, available: false, kind: ArtifactKind::DifferenceMap, trace: None }
}

fn unavailable_storyboard_outcome(epoch_index: u32) -> OutcomeEvidence {
    OutcomeEvidence { epoch_index, available: false, kind: ArtifactKind::Storyboard, trace: None }
}

#[test]
fn empty_unavailable_or_unchanged_storyboards_produce_no_focus_times() {
    assert!(extract_focus_times(&vec![]).is_empty());
    let outcomes = vec![unavailable_storyboard_outcome(0), difference_map_outcome(0)];
    assert!(extract_focus_times(&outcomes).is_empty());
    let outcomes = vec![storyboard_outcome(unchanged_trace())];
    assert!(extract_focus_times(&outcomes).is_empty(), "unchanged storyboard must produce no focus times");
}

#[test]
fn changed_storyboard_produces_focus_times_from_summary_and_selected_frames() {
    let focus = extract_focus_times(&vec![storyboard_outcome(changed_trace(100))]);
    assert!(focus.contains(&100));
    assert!(focus.windows(2).all(|pair| pair[0] < pair[1]));
}

#[test]
fn duplicate_session_times_deduplicate_keeping_earliest_rank() {
    let focus = extract_focus_times(&vec![storyboard_outcome(changed_trace(200))]);
    let count_at_200 = focus.iter().filter(|time| **time == 200).count();
    assert_eq!(count_at_200, 1, "duplicate session time must deduplicate");
}

#[test]
fn multi_epoch_ties_break_by_epoch_then_frame_index() {
    let outcomes = vec![
        storyboard_outcome_with_epoch(changed_trace(500), 0),
        storyboard_outcome_with_epoch(changed_trace(500), 1),
    ];
    assert_eq!(extract_focus_times(&outcomes), vec![500]);
}

#[test]
fn focus_cap_keeps_highest_priority_candidates() {
    let outcomes: Vec<OutcomeEvidence> =
        (0..20u32).map(|index| storyboard_outcome_with_epoch(changed_trace(1000 + index as u64), index)).collect();
    let focus = extract_focus_times(&outcomes);
    assert_eq!(focus.len(), MAX_FOCUS_TIMES);
    assert!(focus.windows(2).all(|pair| pair[0] < pair[1]));
    for (index, time) in focus.iter().enumerate() {
        assert_eq!(*time, 1000 + index as u64);
    }
}

#[test]
fn difference_map_and_orientation_outcomes_are_not_read_as_focus_sources() {
    assert!(extract_focus_times(&vec![difference_map_outcome(0)]).is_empty());
    let orientation = OutcomeEvidence {
        epoch_index: 0,
        available: true,
        kind: ArtifactKind::BeforeDuringAfter,
        trace: Some(changed_trace(300)),
    };
    assert!(extract_focus_times(&vec![orientation]).is_empty());
}

#[test]
fn extract_focus_times_accepts_full_result_outcomes() {
    let focus = extract_focus_times(&vec![storyboard_outcome(changed_trace(700))]);
    assert!(focus.contains(&700));
}

#[test]
fn selected_frames_without_moments_still_give_focus_at_major_reasons() {
    let trace = StoryboardTrace {
        first_change: None,
        peak_baseline_change: None,
        peak_adjacent_changed_area: None,
        selected_frames: vec![
            SelectedFrame { session_nanos: 40, frame_index: 2, frame_id: 7, reasons: vec![SelectionReason::ChangeTrend] },
            SelectedFrame { session_nanos: 10, frame_index: 1, frame_id: 6, reasons: vec![SelectionReason::Coverage] },
        ],
    };
    assert_eq!(extract_focus_times(&vec![storyboard_outcome(trace)]), vec![40]);
}
