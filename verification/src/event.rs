pub mod event;
pub mod event_repeater;
pub mod observable;
pub mod subscriber;
pub mod value;
