use krometrail::generation::{CacheDisposition, FailurePolicy};
use krometrail::outcomes::{finish_outcomes, SlotOutcome, SlotState};

#[test]
fn every_slot_reports_an_outcome_in_order() {
    let states = vec![
        SlotState::Hit,
        SlotState::Computed { generated: true, invalidated: false, grace_overridden: false },
        SlotState::Computed { generated: true, invalidated: true, grace_overridden: true },
        SlotState::Computed { generated: false, invalidated: true, grace_overridden: false },
        SlotState::Refused { error: 4 },
        SlotState::Failed { error: 7, fatal: false },
    ];
    let (outcomes, grace) = finish_outcomes(FailurePolicy::AllowPartial, &states).unwrap();
    assert_eq!(
        outcomes,
        vec![
            SlotOutcome::Available { disposition: CacheDisposition::Hit, grace_overridden: false },
            SlotOutcome::Available { disposition: CacheDisposition::Generated, grace_overridden: false },
            SlotOutcome::Available { disposition: CacheDisposition::RegeneratedAfterInvalidation, grace_overridden: true },
            SlotOutcome::Available { disposition: CacheDisposition::Hit, grace_overridden: false },
            SlotOutcome::Unavailable { error: 4 },
            SlotOutcome::Unavailable { error: 7 },
        ]
    );
    assert!(grace);
}

#[test]
fn no_grace_override_is_reported_when_none_happened() {
    let states = vec![SlotState::Hit, SlotState::Computed { generated: true, invalidated: false, grace_overridden: false }];
    let (_, grace) = finish_outcomes(FailurePolicy::RequireAll, &states).unwrap();
    assert!(!grace);
}

#[test]
fn a_refusal_ends_a_request_that_requires_every_output() {
    let states = vec![
        SlotState::Failed { error: 1, fatal: true },
        SlotState::Refused { error: 2 },
        SlotState::Refused { error: 3 },
    ];
    assert_eq!(finish_outcomes(FailurePolicy::RequireAll, &states), Err(2));
}

#[test]
fn a_fatal_failure_ends_even_a_partial_request() {
    let states = vec![
        SlotState::Refused { error: 2 },
        SlotState::Failed { error: 5, fatal: false },
        SlotState::Failed { error: 6, fatal: true },
    ];
    assert_eq!(finish_outcomes(FailurePolicy::AllowPartial, &states), Err(6));
}

#[test]
fn any_failure_ends_a_request_that_requires_every_output() {
    let states = vec![SlotState::Hit, SlotState::Failed { error: 5, fatal: false }];
    assert_eq!(finish_outcomes(FailurePolicy::RequireAll, &states), Err(5));
}

#[test]
fn an_empty_request_has_no_outcomes() {
    assert_eq!(finish_outcomes(FailurePolicy::RequireAll, &Vec::new()), Ok((Vec::new(), false)));
}
