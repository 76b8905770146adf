use vstd::prelude::*;

use crate::event::value::EventValue;

verus! {

/// How a subscriber accepts dispatched values.
///
/// A `Channel` subscriber owns a bounded first-in-first-out queue inside the
/// event; the consumer drains it through the event's `recv`. `Closure` and
/// `AsyncClosure` subscribers stand for callbacks that run outside the
/// library; the host runs the callback and hands each outcome back to
/// `dispatch`.
pub enum Callback<T> {
    Channel { queue: Vec<T>, capacity: usize, closed: bool },
    Closure,
    AsyncClosure,
}

/// Why delivery to one subscriber failed. Each value names the subscriber by
/// its handle; the callback variants carry the callback's error text.
#[derive(Debug, Clone, PartialEq, Eq)]
pub enum DispatchError {
    ChannelFull { subscriber: u64 },
    ChannelClosed { subscriber: u64 },
    Closure { subscriber: u64, message: String },
    AsyncClosure { subscriber: u64, message: String },
}

/// The mathematical shape of a `Callback`: the queue as a sequence.
pub enum CallbackView<T> {
    Channel { queue: Seq<T>, capacity: nat, closed: bool },
    Closure,
    AsyncClosure,
}

/// One registered subscriber of a broadcast event.
pub struct Subscriber<T> {
    pub id: u64,
    pub name: String,
    pub remove_on_error: bool,
    pub callback: Callback<T>,
}

/// The mathematical shape of a `Subscriber`.
pub struct SubscriberView<T> {
    pub id: u64,
    pub name: Seq<char>,
    pub remove_on_error: bool,
    pub callback: CallbackView<T>,
}

impl<T> View for Callback<T> {
    type V = CallbackView<T>;

    open spec fn view(&self) -> CallbackView<T> {
        match self {
            Callback::Channel { queue, capacity, closed } => CallbackView::Channel {
                queue: queue@,
                capacity: *capacity as nat,
                closed: *closed,
            },
            Callback::Closure => CallbackView::Closure,
            Callback::AsyncClosure => CallbackView::AsyncClosure,
        }
    }
}

impl<T> View for Subscriber<T> {
    type V = SubscriberView<T>;

    open spec fn view(&self) -> SubscriberView<T> {
        SubscriberView {
            id: self.id,
            name: self.name@,
            remove_on_error: self.remove_on_error,
            callback: self.callback@,
        }
    }
}

impl<T> SubscriberView<T> {
    /// Whether the subscriber is a callback subscriber, whose delivery
    /// outcome the host supplies.
    pub open spec fn is_callback(self) -> bool {
        self.callback is Closure || self.callback is AsyncClosure
    }

    /// Whether delivering `value` to this subscriber fails, given the
    /// callback outcome `outcome` (`None` meaning the callback succeeded).
    pub open spec fn delivery_fails(self, outcome: Option<String>) -> bool {
        match self.callback {
            CallbackView::Channel { queue, capacity, closed } => closed || queue.len()
                >= capacity,
            CallbackView::Closure => outcome is Some,
            CallbackView::AsyncClosure => outcome is Some,
        }
    }
}

/// What delivering `value` to one subscriber does: the subscriber afterwards
/// (its queue grown by the value on a successful channel delivery, otherwise
/// untouched) and the error, if delivery failed.
pub open spec fn deliver_spec<T>(
    sub: SubscriberView<T>,
    value: T,
    outcome: Option<String>,
) -> (SubscriberView<T>, Option<DispatchError>) {
    match sub.callback {
        CallbackView::Channel { queue, capacity, closed } => {
            if closed {
                (sub, Some(DispatchError::ChannelClosed { subscriber: sub.id }))
            } else if queue.len() >= capacity {
                (sub, Some(DispatchError::ChannelFull { subscriber: sub.id }))
            } else {
                (
                    SubscriberView {
                        callback: CallbackView::Channel {
                            queue: queue.push(value),
                            capacity,
                            closed,
                        },
                        ..sub
                    },
                    None,
                )
            }
        },
        CallbackView::Closure => match outcome {
            None => (sub, None),
            Some(message) => (sub, Some(DispatchError::Closure { subscriber: sub.id, message })),
        },
        CallbackView::AsyncClosure => match outcome {
            None => (sub, None),
            Some(message) => (
                sub,
                Some(DispatchError::AsyncClosure { subscriber: sub.id, message }),
            ),
        },
    }
}

impl<T: EventValue> Subscriber<T> {
    /// Builds a subscriber under the handle `id`.
    pub fn new(name: String, remove_on_error: bool, callback: Callback<T>, id: u64) -> (r: Self)
        ensures
            r@ == (SubscriberView { id, name: name@, remove_on_error, callback: callback@ }),
    {
        Self { id, name, remove_on_error, callback }
    }

    /// Delivers `value` to this subscriber: a channel subscriber enqueues a
    /// copy unless its queue is closed or full; for a callback subscriber the
    /// host's `outcome` decides. Behaves exactly as `deliver_spec` says.
    pub fn dispatch(&mut self, value: &T, outcome: &Option<String>) -> (r: Result<
        (),
        DispatchError,
    >)
        ensures
            ({
                let (sub2, err) = deliver_spec(old(self)@, *value, *outcome);
                &&& final(self)@ == sub2
                &&& match err {
                    None => r is Ok,
                    Some(e) => r == Err::<(), DispatchError>(e),
                }
            }),
    {
        match &mut self.callback {
            Callback::Channel { queue, capacity, closed } => {
                if *closed {
                    Err(DispatchError::ChannelClosed { subscriber: self.id })
                } else if queue.len() >= *capacity {
                    Err(DispatchError::ChannelFull { subscriber: self.id })
                } else {
                    queue.push(value.dup());
                    Ok(())
                }
            },
            Callback::Closure => match outcome {
                None => Ok(()),
                Some(message) => Err(
                    DispatchError::Closure { subscriber: self.id, message: message.clone() },
                ),
            },
            Callback::AsyncClosure => match outcome {
                None => Ok(()),
                Some(message) => Err(
                    DispatchError::AsyncClosure { subscriber: self.id, message: message.clone() },
                ),
            },
        }
    }
}

} // verus!
