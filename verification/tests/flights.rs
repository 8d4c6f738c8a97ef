use krometrail::errors::ErrorCode;
use krometrail::flights::{FlightOutcome, FlightState, SingleFlight, WorkByteBudget, WorkValue};
use std::sync::Arc;

#[test]
fn only_the_last_waiter_cancels_shared_work() {
    let mut flights = SingleFlight::new();
    let keys = vec![[1_u8; 32]];
    let (first, first_leads) = flights.join(&keys);
    let (second, second_leads) = flights.join(&keys);
    assert!(first_leads);
    assert!(!second_leads);
    assert_eq!(first, second);
    flights.leave(first);
    assert!(!flights.is_cancelled(first));
    flights.leave(second);
    assert!(flights.is_cancelled(first));
}

#[test]
fn identical_misses_share_a_flight_and_its_result() {
    let mut flights = SingleFlight::new();
    let keys = vec![[1_u8; 32], [2_u8; 32]];
    let (leader, leads) = flights.join(&keys);
    assert!(leads);
    flights.start(leader);
    let (follower, follows) = flights.join(&keys);
    assert_eq!((follower, follows), (leader, false));
    assert_eq!(flights.waiter_count(leader), 2);
    // Other keys, or the same keys in another order, are another flight.
    let (other, other_leads) = flights.join(&vec![[2_u8; 32], [1_u8; 32]]);
    assert!(other_leads);
    assert_ne!(other, leader);
    flights.complete(leader, true);
    assert_eq!(flights.result(leader), Some(true));
    flights.leave(leader);
    flights.leave(leader);
    // Finished and unwaited, the flight is gone; a new miss leads a new flight.
    let (again, again_leads) = flights.join(&keys);
    assert!(again_leads);
    assert_eq!(flights.result(again), None);
    assert_eq!(flights.len(), 2);
}

#[test]
fn running_work_keeps_a_cancelled_flight_joinable_until_it_completes() {
    let mut flights = SingleFlight::new();
    let keys = vec![[9_u8; 32]];
    let (id, _) = flights.join(&keys);
    flights.start(id);
    flights.leave(id);
    assert!(flights.is_cancelled(id));
    let (joined, leads) = flights.join(&keys);
    assert_eq!((joined, leads), (id, false));
    flights.complete(id, false);
    assert_eq!(flights.result(id), Some(false));
}

#[test]
fn a_flight_is_cancelled_only_when_its_last_waiter_leaves_unfinished_work() {
    let mut flight = FlightState::new();
    flight.add_waiter();
    flight.add_waiter();
    flight.drop_waiter();
    assert!(!flight.is_cancelled());
    flight.drop_waiter();
    assert!(flight.is_cancelled());
    assert!(!flight.publish_ready(true));
    assert!(flight.publish_failed(ErrorCode::Cancelled));
    assert_eq!(flight.outcome(), FlightOutcome::Failed(ErrorCode::Cancelled));
}

#[test]
fn a_finished_flight_publishes_once_and_is_not_cancelled_by_its_last_waiter() {
    let mut flight = FlightState::new();
    flight.add_waiter();
    assert!(flight.publish_ready(false));
    assert!(!flight.publish_failed(ErrorCode::Internal));
    assert_eq!(flight.outcome(), FlightOutcome::Ready { retained: false });
    flight.drop_waiter();
    assert!(!flight.is_cancelled());
    assert!(flight.finished());
    assert_eq!(flight.waiter_count(), 0);
}

#[test]
fn a_nonadmitted_reservation_leaves_the_budget_untouched() {
    let mut budget = WorkByteBudget::new(3);
    assert_eq!(budget.begin_reserve(4), None);
    assert_eq!(budget.bytes_used(), 0);
    assert_eq!(budget.begin_reserve(0), None);
    assert_eq!(budget.begin_reserve(3), Some(3));
    assert!(budget.finish_reserve(3, true));
    assert_eq!(budget.bytes_used(), 3);
    assert_eq!(budget.begin_reserve(1), None);
    budget.release(3);
    assert_eq!(budget.bytes_used(), 0);
    assert_eq!(budget.begin_reserve(2), Some(2));
    assert!(!budget.finish_reserve(2, false));
    assert_eq!(budget.bytes_used(), 0);
}

#[test]
fn work_values_hand_out_the_shared_result() {
    let shared = Arc::new(vec![1_u8, 2, 3]);
    let value = WorkValue::new(Arc::clone(&shared), true);
    assert!(value.retained());
    let back = value.into_arc();
    assert!(Arc::ptr_eq(&back, &shared));
}
