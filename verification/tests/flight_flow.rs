use krometrail::errors::ErrorCode;
use krometrail::flight_flow::{
    cohorts, fail_group, generation_start, group_slots, group_step, AnalysisPlan, CohortKey, GroupAction, GroupEvent,
    GroupStage,
};
use krometrail::outcomes::SlotState;

#[test]
fn a_request_starts_with_the_earlier_deadline() {
    assert_eq!(generation_start(100, 50, None, false).unwrap(), 150);
    assert_eq!(generation_start(100, 50, Some(120), false).unwrap(), 120);
    assert_eq!(generation_start(100, 50, Some(900), false).unwrap(), 150);
}

#[test]
fn an_elapsed_deadline_is_a_generation_failure_before_cancellation() {
    let elapsed = generation_start(100, 50, Some(100), true).unwrap_err();
    assert_eq!(elapsed.code, ErrorCode::ArtifactGenerationFailed);
    assert_eq!(elapsed.message, "artifact generation deadline elapsed");
    let overflow = generation_start(u64::MAX, 1, None, false).unwrap_err();
    assert_eq!(overflow.code, ErrorCode::ArtifactGenerationFailed);
    let cancelled = generation_start(100, 50, None, true).unwrap_err();
    assert_eq!(cancelled.code, ErrorCode::Cancelled);
    assert_eq!(cancelled.message, "artifact generation was cancelled");
}

#[test]
fn slots_group_by_epoch_and_generator_in_key_order() {
    let slots = vec![(1, 0), (0, 1), (1, 0), (0, 0), (0, 1), (1, 0)];
    let groups = group_slots(&slots);
    let summary: Vec<(usize, usize, Vec<usize>)> =
        groups.into_iter().map(|g| (g.epoch, g.generator, g.positions)).collect();
    assert_eq!(
        summary,
        vec![(0, 0, vec![3]), (0, 1, vec![1, 4]), (1, 0, vec![0, 2, 5])]
    );
    assert!(group_slots(&Vec::new()).is_empty());
}

#[test]
fn a_group_failure_reaches_each_of_its_slots() {
    let mut states = vec![SlotState::Hit, SlotState::Refused { error: 1 }, SlotState::Hit, SlotState::Hit];
    fail_group(&mut states, &vec![0, 2], 9);
    assert_eq!(
        states,
        vec![
            SlotState::Failed { error: 9, fatal: false },
            SlotState::Refused { error: 1 },
            SlotState::Failed { error: 9, fatal: false },
            SlotState::Hit,
        ]
    );
}

fn key(epoch: usize, floor: u16) -> Option<CohortKey> {
    Some(CohortKey { epoch, normalization: vec![1, 2, 3], noise_floor: floor, frames: vec![(7, 0), (8, 1)] })
}

#[test]
fn cohorts_count_groups_that_analyse_the_same_frames() {
    let keys = vec![key(0, 4), None, key(0, 4), key(0, 5), key(1, 4)];
    let wants = vec![false, true, true, false, true];
    assert_eq!(cohorts(&keys, &wants), vec![(2, true), (0, false), (2, true), (1, false), (1, true)]);
}

fn drive(events: &[GroupEvent]) -> Vec<GroupAction> {
    let mut stage = GroupStage::Sizing;
    let mut actions = Vec::new();
    for event in events {
        let (next, action) = group_step(stage, *event);
        stage = next;
        actions.push(action);
    }
    actions
}

#[test]
fn a_group_that_builds_the_shared_analysis_runs_every_step_once() {
    let actions = drive(&[
        GroupEvent::Sized { admitted: true, normalizes: true, analysis: AnalysisPlan::Build },
        GroupEvent::MemoryAcquired,
        GroupEvent::Decoded,
        GroupEvent::Normalized { produced: true },
        GroupEvent::AnalysisBuilt,
        GroupEvent::GeneratorAcquired,
        GroupEvent::Generated,
    ]);
    assert_eq!(
        actions,
        vec![
            GroupAction::AcquireMemory,
            GroupAction::Decode,
            GroupAction::Normalize,
            GroupAction::BuildAnalysis,
            GroupAction::AcquireGenerator,
            GroupAction::Generate { shared: true },
            GroupAction::Publish,
        ]
    );
}

#[test]
fn a_group_without_normalization_goes_from_decoding_to_its_generator() {
    let actions = drive(&[
        GroupEvent::Sized { admitted: true, normalizes: false, analysis: AnalysisPlan::Unshared },
        GroupEvent::MemoryAcquired,
        GroupEvent::Decoded,
        GroupEvent::GeneratorAcquired,
    ]);
    assert_eq!(actions[2], GroupAction::AcquireGenerator);
    assert_eq!(actions[3], GroupAction::Generate { shared: false });
}

#[test]
fn an_over_limit_group_fails_its_slots() {
    let actions = drive(&[GroupEvent::Sized { admitted: false, normalizes: true, analysis: AnalysisPlan::Build }]);
    assert_eq!(actions, vec![GroupAction::FailGroup]);
}

#[test]
fn a_failed_analysis_only_loses_the_shared_analysis() {
    let actions = drive(&[
        GroupEvent::Sized { admitted: true, normalizes: true, analysis: AnalysisPlan::Build },
        GroupEvent::MemoryAcquired,
        GroupEvent::Decoded,
        GroupEvent::Normalized { produced: true },
        GroupEvent::WorkFailed { fatal: false },
        GroupEvent::GeneratorAcquired,
    ]);
    assert_eq!(actions[4], GroupAction::AcquireGenerator);
    assert_eq!(actions[5], GroupAction::Generate { shared: false });
}

#[test]
fn decode_failures_fail_the_group_unless_fatal() {
    let start = [
        GroupEvent::Sized { admitted: true, normalizes: false, analysis: AnalysisPlan::Reuse },
        GroupEvent::MemoryAcquired,
    ];
    let mut events = start.to_vec();
    events.push(GroupEvent::WorkFailed { fatal: false });
    assert_eq!(drive(&events)[2], GroupAction::FailGroup);
    let mut events = start.to_vec();
    events.push(GroupEvent::WorkFailed { fatal: true });
    assert_eq!(drive(&events)[2], GroupAction::Abort);
}

#[test]
fn failing_to_obtain_a_generator_ends_the_flight() {
    let actions = drive(&[
        GroupEvent::Sized { admitted: true, normalizes: false, analysis: AnalysisPlan::Reuse },
        GroupEvent::MemoryAcquired,
        GroupEvent::Decoded,
        GroupEvent::WorkFailed { fatal: false },
    ]);
    assert_eq!(actions[2], GroupAction::AcquireGenerator);
    assert_eq!(actions[3], GroupAction::Abort);
}
