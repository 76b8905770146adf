use lum::event::event::no_callback_outcomes;
use lum::event::observable::{Observable, ObservableResult};
use lum::service::types::Status;

#[test]
fn equal_value_set_twice_dispatches_once() {
    let mut obs: Observable<u64> = Observable::new(1, String::from("counter"));
    let sub = obs.event_mut().subscribe_channel(String::from("watcher"), 4, false);

    let first = obs.set(5, &no_callback_outcomes(1));
    assert!(matches!(first, ObservableResult::Changed(Ok(()))));
    let second = obs.set(5, &no_callback_outcomes(1));
    assert!(matches!(second, ObservableResult::Unchanged));

    // exactly one value was dispatched
    assert_eq!(obs.event_mut().recv(sub), Some(5));
    assert_eq!(obs.event_mut().recv(sub), None);
}

#[test]
fn set_stores_and_get_reads() {
    let mut obs: Observable<u64> = Observable::new(1, String::from("counter"));
    assert_eq!(obs.get(), 1);
    obs.set(9, &no_callback_outcomes(0));
    assert_eq!(obs.get(), 9);
}

#[test]
fn setting_the_initial_value_is_unchanged() {
    let mut obs: Observable<u64> = Observable::new(3, String::from("counter"));
    assert!(matches!(obs.set(3, &no_callback_outcomes(0)), ObservableResult::Unchanged));
}

#[test]
fn status_compares_by_variant_for_the_change_gate() {
    // two failure statuses with different reasons are equal, so no dispatch
    let mut obs: Observable<Status> = Observable::new(
        Status::FailedToStart(String::from("first reason")),
        String::from("status"),
    );
    let sub = obs.event_mut().subscribe_channel(String::from("watcher"), 4, false);
    let result = obs.set(
        Status::FailedToStart(String::from("second reason")),
        &no_callback_outcomes(1),
    );
    assert!(matches!(result, ObservableResult::Unchanged));
    assert_eq!(obs.event_mut().recv(sub), None);

    let result = obs.set(Status::Stopped, &no_callback_outcomes(1));
    assert!(matches!(result, ObservableResult::Changed(Ok(()))));
    assert_eq!(obs.event_mut().recv(sub), Some(Status::Stopped));
}
