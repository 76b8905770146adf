use lum::event::event::{no_callback_outcomes, Event};
use lum::event::subscriber::DispatchError;

#[test]
fn channel_subscriber_receives_in_order() {
    let mut event: Event<u64> = Event::new(String::from("numbers"));
    let sub = event.subscribe_channel(String::from("listener"), 4, false);
    assert_eq!(event.subscriber_count(), 1);
    event.dispatch(&1, &no_callback_outcomes(1)).unwrap();
    event.dispatch(&2, &no_callback_outcomes(1)).unwrap();
    event.dispatch(&3, &no_callback_outcomes(1)).unwrap();
    assert_eq!(event.recv(sub), Some(1));
    assert_eq!(event.recv(sub), Some(2));
    assert_eq!(event.recv(sub), Some(3));
    assert_eq!(event.recv(sub), None);
}

#[test]
fn full_queue_fails_without_halting_delivery() {
    // Three subscribers; the middle one has room for one value only and is
    // removed on error. The second dispatch still reaches the others.
    let mut event: Event<u64> = Event::new(String::from("numbers"));
    let first = event.subscribe_channel(String::from("first"), 4, false);
    let narrow = event.subscribe_channel(String::from("narrow"), 1, true);
    let last = event.subscribe_channel(String::from("last"), 4, false);

    assert!(event.dispatch(&10, &no_callback_outcomes(3)).is_ok());
    let errors = event.dispatch(&11, &no_callback_outcomes(3)).unwrap_err();
    assert_eq!(errors, vec![DispatchError::ChannelFull { subscriber: narrow }]);
    // the failing subscriber was removed; the others still received both
    assert_eq!(event.subscriber_count(), 2);
    assert_eq!(event.recv(first), Some(10));
    assert_eq!(event.recv(first), Some(11));
    assert_eq!(event.recv(last), Some(10));
    assert_eq!(event.recv(last), Some(11));
    assert_eq!(event.recv(narrow), None);
}

#[test]
fn failing_subscriber_without_removal_policy_stays() {
    let mut event: Event<u64> = Event::new(String::from("numbers"));
    let narrow = event.subscribe_channel(String::from("narrow"), 1, false);
    event.dispatch(&1, &no_callback_outcomes(1)).unwrap();
    assert!(event.dispatch(&2, &no_callback_outcomes(1)).is_err());
    assert_eq!(event.subscriber_count(), 1);
    assert_eq!(event.recv(narrow), Some(1));
}

#[test]
fn callback_outcomes_become_errors() {
    let mut event: Event<u64> = Event::new(String::from("numbers"));
    let queue = event.subscribe_channel(String::from("queue"), 4, false);
    let closure = event.subscribe_closure(String::from("closure"), true);
    let outcomes = vec![None, Some(String::from("callback refused"))];
    let errors = event.dispatch(&5, &outcomes).unwrap_err();
    assert_eq!(
        errors,
        vec![DispatchError::Closure { subscriber: closure, message: String::from("callback refused") }]
    );
    // the callback subscriber asked to be removed on error; the queue stays
    assert_eq!(event.subscriber_count(), 1);
    assert_eq!(event.recv(queue), Some(5));
}

#[test]
fn async_closure_outcome_keeps_its_own_error_kind() {
    let mut event: Event<u64> = Event::new(String::from("numbers"));
    let cb = event.subscribe_async_closure(String::from("task"), false);
    let outcomes = vec![Some(String::from("await failed"))];
    let errors = event.dispatch(&5, &outcomes).unwrap_err();
    assert_eq!(
        errors,
        vec![DispatchError::AsyncClosure { subscriber: cb, message: String::from("await failed") }]
    );
    assert_eq!(event.subscriber_count(), 1);
}

#[test]
fn closed_channel_fails_delivery() {
    let mut event: Event<u64> = Event::new(String::from("numbers"));
    let sub = event.subscribe_channel(String::from("gone"), 4, false);
    assert!(event.close_channel(sub));
    let errors = event.dispatch(&1, &no_callback_outcomes(1)).unwrap_err();
    assert_eq!(errors, vec![DispatchError::ChannelClosed { subscriber: sub }]);
}

#[test]
fn unsubscribe_removes_the_handle() {
    let mut event: Event<u64> = Event::new(String::from("numbers"));
    let a = event.subscribe_channel(String::from("a"), 2, false);
    let b = event.subscribe_channel(String::from("b"), 2, false);
    assert!(event.unsubscribe(a));
    assert!(!event.unsubscribe(a));
    assert_eq!(event.subscriber_count(), 1);
    event.dispatch(&9, &no_callback_outcomes(1)).unwrap();
    assert_eq!(event.recv(b), Some(9));
    assert_eq!(event.recv(a), None);
}

#[test]
fn dispatch_without_subscribers_is_ok() {
    let mut event: Event<u64> = Event::new(String::from("numbers"));
    assert!(event.dispatch(&1, &no_callback_outcomes(0)).is_ok());
}

#[test]
fn error_list_counts_every_failing_subscriber() {
    let mut event: Event<u64> = Event::new(String::from("numbers"));
    let a = event.subscribe_channel(String::from("a"), 1, false);
    let ok = event.subscribe_channel(String::from("ok"), 4, false);
    let b = event.subscribe_channel(String::from("b"), 1, false);
    event.dispatch(&1, &no_callback_outcomes(3)).unwrap();
    // both narrow queues are now full; the healthy one still receives
    let errors = event.dispatch(&2, &no_callback_outcomes(3)).unwrap_err();
    assert_eq!(
        errors,
        vec![
            DispatchError::ChannelFull { subscriber: a },
            DispatchError::ChannelFull { subscriber: b },
        ]
    );
    assert_eq!(event.recv(ok), Some(1));
    assert_eq!(event.recv(ok), Some(2));
}
