use lum::event::event::{no_callback_outcomes, Event};
use lum::event::event_repeater::{AttachError, CloseError, DetachError, EventRepeater};

#[test]
fn forwards_values_in_order() {
    let mut source: Event<u64> = Event::new(String::from("source"));
    let mut repeater: EventRepeater<u64> = EventRepeater::new(String::from("aggregate"));
    let out = repeater.subscribe(String::from("outward"), 8, false);

    repeater.attach(&mut source, 4).unwrap();
    source.dispatch(&1, &no_callback_outcomes(1)).unwrap();
    source.dispatch(&2, &no_callback_outcomes(1)).unwrap();
    source.dispatch(&3, &no_callback_outcomes(1)).unwrap();
    repeater.pump(&mut source);

    assert_eq!(repeater.recv(out), Some(1));
    assert_eq!(repeater.recv(out), Some(2));
    assert_eq!(repeater.recv(out), Some(3));
    assert_eq!(repeater.recv(out), None);
}

#[test]
fn nothing_is_forwarded_after_detach() {
    let mut source: Event<u64> = Event::new(String::from("source"));
    let mut repeater: EventRepeater<u64> = EventRepeater::new(String::from("aggregate"));
    let out = repeater.subscribe(String::from("outward"), 8, false);

    repeater.attach(&mut source, 4).unwrap();
    source.dispatch(&1, &no_callback_outcomes(1)).unwrap();
    repeater.pump(&mut source);
    assert_eq!(repeater.recv(out), Some(1));

    repeater.detach(&mut source).unwrap();
    // the source keeps dispatching; its subscription is closed, so delivery
    // fails and the subscriber is dropped by its removal policy
    assert!(source.dispatch(&2, &no_callback_outcomes(1)).is_err());
    repeater.pump(&mut source);
    assert_eq!(repeater.recv(out), None);
    assert_eq!(source.subscriber_count(), 0);
}

#[test]
fn attaching_the_same_source_twice_is_rejected() {
    let mut source: Event<u64> = Event::new(String::from("source"));
    let mut repeater: EventRepeater<u64> = EventRepeater::new(String::from("aggregate"));
    repeater.attach(&mut source, 4).unwrap();
    let err = repeater.attach(&mut source, 4).unwrap_err();
    match err {
        AttachError::AlreadyAttached { event_name, repeater_name } => {
            assert_eq!(event_name, "source");
            assert_eq!(repeater_name, "aggregate");
        },
    }
    assert_eq!(repeater.subscription_count(), 1);
}

#[test]
fn detaching_an_unattached_source_is_rejected() {
    let mut source: Event<u64> = Event::new(String::from("source"));
    let mut repeater: EventRepeater<u64> = EventRepeater::new(String::from("aggregate"));
    let err = repeater.detach(&mut source).unwrap_err();
    match err {
        DetachError::NotAttached { event_name, repeater_name } => {
            assert_eq!(event_name, "source");
            assert_eq!(repeater_name, "aggregate");
        },
    }
}

#[test]
fn close_is_refused_while_attached() {
    let mut source: Event<u64> = Event::new(String::from("source"));
    let mut repeater: EventRepeater<u64> = EventRepeater::new(String::from("aggregate"));
    repeater.attach(&mut source, 4).unwrap();
    let mut repeater = match repeater.close() {
        Err(CloseError::AttachedEvents(r)) => r,
        Ok(()) => panic!("close must be refused while a source is attached"),
    };
    repeater.detach(&mut source).unwrap();
    assert!(repeater.close().is_ok());
}

#[test]
fn two_sources_fan_into_one_stream() {
    let mut left: Event<u64> = Event::new(String::from("left"));
    let mut right: Event<u64> = Event::new(String::from("right"));
    let mut repeater: EventRepeater<u64> = EventRepeater::new(String::from("aggregate"));
    let out = repeater.subscribe(String::from("outward"), 8, false);
    repeater.attach(&mut left, 4).unwrap();
    repeater.attach(&mut right, 4).unwrap();
    assert_eq!(repeater.subscription_count(), 2);

    left.dispatch(&10, &no_callback_outcomes(1)).unwrap();
    right.dispatch(&20, &no_callback_outcomes(1)).unwrap();
    repeater.pump(&mut left);
    repeater.pump(&mut right);
    assert_eq!(repeater.recv(out), Some(10));
    assert_eq!(repeater.recv(out), Some(20));
}
