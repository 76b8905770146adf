use vstd::prelude::*;

use crate::event::event::{
    close_spec, descended_from, dispatch_spec, find_sub, lemma_dispatch_spec_shape, lemma_find_sub,
    lemma_find_sub_same_ids, no_callback_outcomes, recv_spec, Event, EventView,
};
use crate::event::subscriber::{CallbackView, SubscriberView};
use crate::event::value::EventValue;

verus! {

/// Attaching a source event to a repeater failed: that source is already
/// attached.
#[derive(Debug)]
pub enum AttachError {
    AlreadyAttached { event_name: String, repeater_name: String },
}

/// Detaching a source event from a repeater failed: it was not attached.
#[derive(Debug)]
pub enum DetachError {
    NotAttached { event_name: String, repeater_name: String },
}

/// Closing a repeater failed: sources are still attached and must be
/// detached first. Carries the repeater back to the caller.
pub enum CloseError<T> {
    AttachedEvents(EventRepeater<T>),
}

/// One source event attached to a repeater: the source's name and the
/// handle of the channel subscription the repeater opened on it.
pub struct Attachment {
    pub source_name: String,
    pub subscriber_id: u64,
}

/// The mathematical shape of an `Attachment`.
pub struct AttachmentView {
    pub source_name: Seq<char>,
    pub subscriber_id: u64,
}

impl View for Attachment {
    type V = AttachmentView;

    open spec fn view(&self) -> AttachmentView {
        AttachmentView { source_name: self.source_name@, subscriber_id: self.subscriber_id }
    }
}

/// Aggregates many source broadcast events into one outward event: `attach`
/// opens a channel subscription on a source, `pump` forwards the queued
/// source values into the outward event, `detach` stops the forwarding.
/// Sources are told apart by event name, so attached events must carry
/// distinct names. The outward event accepts channel subscribers only, which
/// is what lets `pump` forward without host-run callbacks.
pub struct EventRepeater<T> {
    event: Event<T>,
    attachments: Vec<Attachment>,
}

/// The mathematical shape of an `EventRepeater`.
pub struct EventRepeaterView<T> {
    pub event: EventView<T>,
    pub attachments: Seq<AttachmentView>,
}

impl<T> View for EventRepeater<T> {
    type V = EventRepeaterView<T>;

    closed spec fn view(&self) -> EventRepeaterView<T> {
        EventRepeaterView {
            event: self.event@,
            attachments: self.attachments@.map_values(|a: Attachment| a@),
        }
    }
}

/// The position of the attachment for source `name`, or `-1` if none.
pub open spec fn find_attachment(atts: Seq<AttachmentView>, name: Seq<char>) -> int
    decreases atts.len(),
{
    if atts.len() == 0 {
        -1
    } else if atts[0].source_name == name {
        0
    } else {
        let r = find_attachment(atts.drop_first(), name);
        if r == -1 {
            -1
        } else {
            r + 1
        }
    }
}

/// `find_attachment` returns `-1` exactly when no attachment carries
/// `name`, and otherwise the first position carrying it.
pub proof fn lemma_find_attachment(atts: Seq<AttachmentView>, name: Seq<char>)
    ensures
        find_attachment(atts, name) == -1 ==> forall|i: int|
            0 <= i < atts.len() ==> (#[trigger] atts[i]).source_name != name,
        find_attachment(atts, name) != -1 ==> {
            &&& 0 <= find_attachment(atts, name) < atts.len()
            &&& atts[find_attachment(atts, name)].source_name == name
            &&& forall|i: int|
                0 <= i < find_attachment(atts, name) ==> (#[trigger] atts[i]).source_name != name
        },
    decreases atts.len(),
{
    if atts.len() > 0 && atts[0].source_name != name {
        lemma_find_attachment(atts.drop_first(), name);
        let r = find_attachment(atts.drop_first(), name);
        if r != -1 {
            assert forall|i: int| 0 <= i < r + 1 implies (#[trigger] atts[i]).source_name
                != name by {
                if i > 0 {
                    assert(atts.drop_first()[i - 1] == atts[i]);
                }
            }
        } else {
            assert forall|i: int| 0 <= i < atts.len() implies (#[trigger] atts[i]).source_name
                != name by {
                if i > 0 {
                    assert(atts.drop_first()[i - 1] == atts[i]);
                }
            }
        }
    }
}

impl<T> EventRepeaterView<T> {
    /// The outward event is well formed and takes channel subscribers only;
    /// attached source names are distinct.
    pub open spec fn wf(self) -> bool {
        &&& self.event.wf()
        &&& self.event.channels_only()
        &&& forall|i: int, j: int|
            0 <= i < j < self.attachments.len() ==> (#[trigger] self.attachments[i]).source_name
                != (#[trigger] self.attachments[j]).source_name
    }

    /// Whether the source named `name` is attached.
    pub open spec fn attached(self, name: Seq<char>) -> bool {
        find_attachment(self.attachments, name) != -1
    }
}

/// What forwarding `values`, oldest first, into an event does to its
/// subscribers: one dispatch per value. Callback outcomes play no part —
/// the repeater's outward event holds channel subscribers only.
pub open spec fn forward_all<T>(subs: Seq<SubscriberView<T>>, values: Seq<T>) -> Seq<
    SubscriberView<T>,
>
    decreases values.len(),
{
    if values.len() == 0 {
        subs
    } else {
        forward_all(dispatch_spec(subs, values[0], Seq::empty()).0, values.drop_first())
    }
}

/// For an event of channel subscribers only, a dispatch pass reads no
/// callback outcome, so any outcome sequence gives the same result.
pub proof fn lemma_dispatch_outs_irrelevant<T>(
    subs: Seq<SubscriberView<T>>,
    value: T,
    outs1: Seq<Option<String>>,
    outs2: Seq<Option<String>>,
)
    requires
        forall|i: int| 0 <= i < subs.len() ==> !(#[trigger] subs[i]).is_callback(),
    ensures
        dispatch_spec(subs, value, outs1) == dispatch_spec(subs, value, outs2),
    decreases subs.len(),
{
    if subs.len() > 0 {
        assert(forall|i: int|
            0 <= i < subs.drop_first().len() ==> (#[trigger] subs.drop_first()[i]) == subs[i + 1]);
        lemma_dispatch_outs_irrelevant(
            subs.drop_first(),
            value,
            outs1.drop_first(),
            outs2.drop_first(),
        );
    }
}

/// Forwarding keeps order. Into an event of open channel subscribers that
/// all have room for `values`, `forward_all` appends exactly `values`, in
/// order, to every subscriber's queue, and removes nobody.
pub proof fn lemma_forward_all_preserves_order<T>(subs: Seq<SubscriberView<T>>, values: Seq<T>)
    requires
        forall|i: int|
            0 <= i < subs.len() ==> match (#[trigger] subs[i]).callback {
                CallbackView::Channel { queue, capacity, closed } => !closed && queue.len()
                    + values.len() <= capacity,
                _ => false,
            },
    ensures
        forward_all(subs, values).len() == subs.len(),
        forall|i: int|
            0 <= i < subs.len() ==> (#[trigger] forward_all(subs, values)[i]) == (SubscriberView {
                callback: CallbackView::Channel {
                    queue: subs[i].callback->Channel_queue + values,
                    capacity: subs[i].callback->Channel_capacity,
                    closed: false,
                },
                ..subs[i]
            }),
    decreases values.len(),
{
    if values.len() == 0 {
        assert forall|i: int| 0 <= i < subs.len() implies (#[trigger] forward_all(subs, values)[i])
            == (SubscriberView {
            callback: CallbackView::Channel {
                queue: subs[i].callback->Channel_queue + values,
                capacity: subs[i].callback->Channel_capacity,
                closed: false,
            },
            ..subs[i]
        }) by {
            assert(subs[i].callback->Channel_queue + values =~= subs[i].callback->Channel_queue);
        }
    } else {
        let v = values[0];
        let step = dispatch_spec(subs, v, Seq::empty());
        lemma_dispatch_all_channels_append(subs, v, Seq::empty());
        assert forall|i: int|
            0 <= i < step.0.len() implies match (#[trigger] step.0[i]).callback {
            CallbackView::Channel { queue, capacity, closed } => !closed && queue.len()
                + values.drop_first().len() <= capacity,
            _ => false,
        } by {
            assert(step.0[i].callback->Channel_queue == subs[i].callback->Channel_queue.push(v));
        }
        lemma_forward_all_preserves_order(step.0, values.drop_first());
        assert forall|i: int| 0 <= i < subs.len() implies (#[trigger] forward_all(subs, values)[i])
            == (SubscriberView {
            callback: CallbackView::Channel {
                queue: subs[i].callback->Channel_queue + values,
                capacity: subs[i].callback->Channel_capacity,
                closed: false,
            },
            ..subs[i]
        }) by {
            assert(forward_all(subs, values) == forward_all(step.0, values.drop_first()));
            assert(forward_all(subs, values)[i] == (SubscriberView {
                callback: CallbackView::Channel {
                    queue: step.0[i].callback->Channel_queue + values.drop_first(),
                    capacity: step.0[i].callback->Channel_capacity,
                    closed: false,
                },
                ..step.0[i]
            }));
            assert(subs[i].callback->Channel_queue.push(v) + values.drop_first()
                =~= subs[i].callback->Channel_queue + values);
        }
    }
}

/// A dispatch pass over open channel subscribers with room appends the
/// value to every queue, removes nobody, and reports no error.
pub proof fn lemma_dispatch_all_channels_append<T>(
    subs: Seq<SubscriberView<T>>,
    value: T,
    outs: Seq<Option<String>>,
)
    requires
        forall|i: int|
            0 <= i < subs.len() ==> match (#[trigger] subs[i]).callback {
                CallbackView::Channel { queue, capacity, closed } => !closed && queue.len()
                    < capacity,
                _ => false,
            },
    ensures
        dispatch_spec(subs, value, outs).0.len() == subs.len(),
        dispatch_spec(subs, value, outs).1 == Seq::<
            crate::event::subscriber::DispatchError,
        >::empty(),
        forall|i: int|
            0 <= i < subs.len() ==> (#[trigger] dispatch_spec(subs, value, outs).0[i]) == (
            SubscriberView {
                callback: CallbackView::Channel {
                    queue: subs[i].callback->Channel_queue.push(value),
                    capacity: subs[i].callback->Channel_capacity,
                    closed: false,
                },
                ..subs[i]
            }),
    decreases subs.len(),
{
    if subs.len() > 0 {
        assert(forall|i: int|
            0 <= i < subs.drop_first().len() ==> (#[trigger] subs.drop_first()[i]) == subs[i + 1]);
        lemma_dispatch_all_channels_append(subs.drop_first(), value, outs.drop_first());
        let rest = dispatch_spec(subs.drop_first(), value, outs.drop_first());
        let head = deliver_spec_head(subs[0], value);
        assert(dispatch_spec(subs, value, outs).0 == seq![head] + rest.0);
        assert forall|i: int| 0 <= i < subs.len() implies (#[trigger] dispatch_spec(
            subs,
            value,
            outs,
        ).0[i]) == (SubscriberView {
            callback: CallbackView::Channel {
                queue: subs[i].callback->Channel_queue.push(value),
                capacity: subs[i].callback->Channel_capacity,
                closed: false,
            },
            ..subs[i]
        }) by {
            if i > 0 {
                assert(dispatch_spec(subs, value, outs).0[i] == rest.0[i - 1]);
                assert(subs.drop_first()[i - 1] == subs[i]);
            }
        }
    }
}

/// The successful delivery of `value` to an open channel subscriber with
/// room: the value joins the queue.
pub open spec fn deliver_spec_head<T>(sub: SubscriberView<T>, value: T) -> SubscriberView<T> {
    SubscriberView {
        callback: CallbackView::Channel {
            queue: sub.callback->Channel_queue.push(value),
            capacity: sub.callback->Channel_capacity,
            closed: sub.callback->Channel_closed,
        },
        ..sub
    }
}

impl<T: EventValue> EventRepeater<T> {
    /// Creates a repeater with an outward event named `name` and no
    /// attachments.
    pub fn new(name: String) -> (r: Self)
        ensures
            r@.event == (EventView::<T> { name: name@, subs: Seq::empty(), next_id: 0 }),
            r@.attachments == Seq::<AttachmentView>::empty(),
            r@.wf(),
    {
        let r = Self { event: Event::new(name), attachments: Vec::new() };
        proof {
            assert(r@.attachments =~= Seq::<AttachmentView>::empty());
        }
        r
    }

    /// The number of attached source events.
    pub fn subscription_count(&self) -> (r: usize)
        ensures
            r == self@.attachments.len(),
    {
        self.attachments.len()
    }

    /// Whether the outward event's subscriber-handle counter still has
    /// room, as `Event::can_take_subscriber` reports.
    pub fn can_subscribe(&self) -> (r: bool)
        ensures
            r == (self@.event.next_id < u64::MAX),
    {
        self.event.can_take_subscriber()
    }

    /// The number of subscribers of the outward event.
    pub fn subscriber_count(&self) -> (r: usize)
        ensures
            r == self@.event.subs.len(),
    {
        self.event.subscriber_count()
    }

    /// Opens a channel subscriber on the outward event, as
    /// `Event::subscribe_channel` does. The outward event takes channel
    /// subscribers only, so that forwarding needs no host-run callbacks.
    pub fn subscribe(&mut self, name: String, buffer: usize, remove_on_error: bool) -> (r: u64)
        requires
            old(self)@.wf(),
            old(self)@.event.next_id < u64::MAX,
            buffer >= 1,
        ensures
            final(self)@.wf(),
            r == old(self)@.event.next_id,
            final(self)@.attachments == old(self)@.attachments,
            final(self)@.event.name == old(self)@.event.name,
            final(self)@.event.next_id == old(self)@.event.next_id + 1,
            final(self)@.event.subs == old(self)@.event.subs.push(
                SubscriberView {
                    id: old(self)@.event.next_id,
                    name: name@,
                    remove_on_error,
                    callback: CallbackView::Channel {
                        queue: Seq::empty(),
                        capacity: buffer as nat,
                        closed: false,
                    },
                },
            ),
    {
        let r = self.event.subscribe_channel(name, buffer, remove_on_error);
        proof {
            let subs = self@.event.subs;
            assert forall|i: int| 0 <= i < subs.len() implies !(#[trigger] subs[i]).is_callback()
            by {
                if i < subs.len() - 1 {
                    assert(subs[i] == old(self)@.event.subs[i]);
                } else {
                    assert(subs[i].callback is Channel);
                }
            }
            assert(final(self)@.attachments =~= old(self)@.attachments);
        }
        r
    }

    /// Takes the oldest value out of an outward-event channel subscriber's
    /// queue, as `Event::recv` does.
    pub fn recv(&mut self, id: u64) -> (r: Option<T>)
        requires
            old(self)@.wf(),
        ensures
            final(self)@.wf(),
            final(self)@.attachments == old(self)@.attachments,
            final(self)@.event.name == old(self)@.event.name,
            final(self)@.event.next_id == old(self)@.event.next_id,
            final(self)@.event.subs == recv_spec(old(self)@.event.subs, id).0,
            r == recv_spec(old(self)@.event.subs, id).1,
    {
        let r = self.event.recv(id);
        proof {
            let subs = self@.event.subs;
            let pre = old(self)@.event.subs;
            let f = find_sub(pre, id);
            lemma_find_sub(pre, id);
            assert forall|i: int| 0 <= i < subs.len() implies !(#[trigger] subs[i]).is_callback()
            by {
                if f == -1 || !(pre[f].callback is Channel) || pre[f].callback->Channel_queue.len()
                    == 0 {
                    assert(subs[i] == pre[i]);
                } else {
                    if i == f {
                        assert(subs[i].callback is Channel);
                    } else {
                        assert(subs[i] == pre[i]);
                    }
                }
            }
            let fatts = final(self)@.attachments;
            assert(fatts =~= old(self)@.attachments);
            assert(forall|i: int, j: int|
                0 <= i < j < fatts.len() ==> (#[trigger] fatts[i]).source_name != (
                #[trigger] fatts[j]).source_name);
        }
        r
    }

    /// Removes an outward-event subscriber, as `Event::unsubscribe` does.
    pub fn unsubscribe(&mut self, id: u64) -> (r: bool)
        requires
            old(self)@.wf(),
        ensures
            final(self)@.wf(),
            final(self)@.attachments == old(self)@.attachments,
            final(self)@.event.name == old(self)@.event.name,
            final(self)@.event.next_id == old(self)@.event.next_id,
            find_sub(old(self)@.event.subs, id) == -1 ==> final(self)@.event.subs == old(
                self,
            )@.event.subs && !r,
            find_sub(old(self)@.event.subs, id) != -1 ==> final(self)@.event.subs == old(
                self,
            )@.event.subs.remove(find_sub(old(self)@.event.subs, id)) && r,
    {
        let r = self.event.unsubscribe(id);
        proof {
            let subs = self@.event.subs;
            let pre = old(self)@.event.subs;
            let f = find_sub(pre, id);
            lemma_find_sub(pre, id);
            assert forall|i: int| 0 <= i < subs.len() implies !(#[trigger] subs[i]).is_callback()
            by {
                if f == -1 {
                    assert(subs[i] == pre[i]);
                } else {
                    assert(0 <= f < pre.len());
                    assert(subs == pre.remove(f));
                    let i0 = if i < f {
                        i
                    } else {
                        i + 1
                    };
                    assert(subs[i] == pre[i0]);
                    assert(!pre[i0].is_callback());
                }
            }
            assert(final(self)@.attachments =~= old(self)@.attachments);
        }
        r
    }

    /// Attaches the source event: opens a channel subscription on it, under
    /// the repeater's own name, with room for `buffer` values, removed by
    /// the source on delivery failure. Rejected when that source — told by
    /// its event name — is already attached; the error is then this call's
    /// only effect.
    pub fn attach(&mut self, source: &mut Event<T>, buffer: usize) -> (r: Result<(), AttachError>)
        requires
            old(self)@.wf(),
            old(source)@.wf(),
            old(source)@.next_id < u64::MAX,
            buffer >= 1,
        ensures
            final(self)@.wf(),
            final(source)@.wf(),
            old(self)@.attached(old(source)@.name) ==> {
                &&& final(self)@ == old(self)@
                &&& final(source)@ == old(source)@
                &&& (r matches Err(AttachError::AlreadyAttached { event_name, repeater_name })
                    && event_name@ == old(source)@.name && repeater_name@ == old(
                    self,
                )@.event.name)
            },
            !old(self)@.attached(old(source)@.name) ==> {
                &&& r is Ok
                &&& final(self)@.event == old(self)@.event
                &&& final(self)@.attachments == old(self)@.attachments.push(
                    AttachmentView {
                        source_name: old(source)@.name,
                        subscriber_id: old(source)@.next_id,
                    },
                )
                &&& final(source)@.name == old(source)@.name
                &&& final(source)@.next_id == old(source)@.next_id + 1
                &&& final(source)@.subs == old(source)@.subs.push(
                    SubscriberView {
                        id: old(source)@.next_id,
                        name: old(self)@.event.name,
                        remove_on_error: true,
                        callback: CallbackView::Channel {
                            queue: Seq::empty(),
                            capacity: buffer as nat,
                            closed: false,
                        },
                    },
                )
            },
    {
        let ghost atts = self@.attachments;
        let n = self.attachments.len();
        let mut i: usize = 0;
        while i < n
            invariant
                n == self.attachments.len(),
                0 <= i <= n,
                *self == *old(self),
                *source == *old(source),
                atts == self@.attachments,
                old(self)@.wf(),
                old(source)@.wf(),
                forall|k: int| 0 <= k < i ==> (#[trigger] atts[k]).source_name != source@.name,
            decreases n - i,
        {
            if self.attachments[i].source_name == *source.name() {
                proof {
                    lemma_find_attachment(atts, source@.name);
                    assert(find_attachment(atts, source@.name) != -1) by {
                        if find_attachment(atts, source@.name) == -1 {
                            assert(atts[i as int].source_name != source@.name);
                        }
                    }
                }
                return Err(
                    AttachError::AlreadyAttached {
                        event_name: source.name().clone(),
                        repeater_name: self.event.name().clone(),
                    },
                );
            }
            i = i + 1;
        }
        proof {
            lemma_find_attachment(atts, source@.name);
            assert(find_attachment(atts, source@.name) == -1) by {
                let f = find_attachment(atts, source@.name);
                if f != -1 {
                    assert(atts[f].source_name == source@.name);
                }
            }
        }
        let sub_id = source.subscribe_channel(self.event.name().clone(), buffer, true);
        let att = Attachment { source_name: source.name().clone(), subscriber_id: sub_id };
        self.attachments.push(att);
        proof {
            assert(self@.attachments =~= atts.push(
                AttachmentView { source_name: old(source)@.name, subscriber_id: sub_id },
            ));
            let post = self@.attachments;
            assert forall|a: int, b: int| 0 <= a < b < post.len() implies (
            #[trigger] post[a]).source_name != (#[trigger] post[b]).source_name by {
                if b == post.len() - 1 {
                    lemma_find_attachment(atts, old(source)@.name);
                }
            }
        }
        Ok(())
    }

    /// Detaches the source event: forwarding stops — the channel
    /// subscription the repeater held on the source is closed and the
    /// attachment forgotten. Rejected when the source is not attached; the
    /// error is then this call's only effect.
    pub fn detach(&mut self, source: &mut Event<T>) -> (r: Result<(), DetachError>)
        requires
            old(self)@.wf(),
            old(source)@.wf(),
        ensures
            final(self)@.wf(),
            final(source)@.wf(),
            !old(self)@.attached(old(source)@.name) ==> {
                &&& final(self)@ == old(self)@
                &&& final(source)@ == old(source)@
                &&& (r matches Err(DetachError::NotAttached { event_name, repeater_name })
                    && event_name@ == old(source)@.name && repeater_name@ == old(
                    self,
                )@.event.name)
            },
            old(self)@.attached(old(source)@.name) ==> {
                let f = find_attachment(old(self)@.attachments, old(source)@.name);
                &&& r is Ok
                &&& final(self)@.event == old(self)@.event
                &&& final(self)@.attachments == old(self)@.attachments.remove(f)
                &&& final(source)@.name == old(source)@.name
                &&& final(source)@.next_id == old(source)@.next_id
                &&& final(source)@.subs == close_spec(
                    old(source)@.subs,
                    old(self)@.attachments[f].subscriber_id,
                ).0
            },
    {
        let ghost atts = self@.attachments;
        let n = self.attachments.len();
        let mut i: usize = 0;
        while i < n
            invariant
                n == self.attachments.len(),
                0 <= i <= n,
                *self == *old(self),
                *source == *old(source),
                atts == self@.attachments,
                old(self)@.wf(),
                old(source)@.wf(),
                forall|k: int| 0 <= k < i ==> (#[trigger] atts[k]).source_name != source@.name,
            decreases n - i,
        {
            if self.attachments[i].source_name == *source.name() {
                proof {
                    lemma_find_attachment(atts, source@.name);
                    assert(atts[i as int].source_name == source@.name);
                    assert(find_attachment(atts, source@.name) == i as int) by {
                        let f = find_attachment(atts, source@.name);
                        assert(f != -1);
                        assert(!(f < i) && !(i < f));
                    }
                }
                let sub_id = self.attachments[i].subscriber_id;
                self.attachments.remove(i);
                source.close_channel(sub_id);
                proof {
                    assert(self@.attachments =~= atts.remove(i as int));
                    let post = self@.attachments;
                    assert forall|a: int, b: int| 0 <= a < b < post.len() implies (
                    #[trigger] post[a]).source_name != (#[trigger] post[b]).source_name by {
                        let a0 = if a < i {
                            a
                        } else {
                            a + 1
                        };
                        let b0 = if b < i {
                            b
                        } else {
                            b + 1
                        };
                        assert(post[a] == atts[a0] && post[b] == atts[b0]);
                    }
                }
                return Ok(());
            }
            i = i + 1;
        }
        proof {
            lemma_find_attachment(atts, source@.name);
            assert(find_attachment(atts, source@.name) == -1) by {
                let f = find_attachment(atts, source@.name);
                if f != -1 {
                    assert(atts[f].source_name == source@.name);
                }
            }
        }
        Err(
            DetachError::NotAttached {
                event_name: source.name().clone(),
                repeater_name: self.event.name().clone(),
            },
        )
    }

    /// The position of the attachment for the source named `name`.
    fn find_attachment_index(&self, name: &String) -> (r: Option<usize>)
        ensures
            match r {
                Some(i) => i == find_attachment(self@.attachments, name@) && i
                    < self@.attachments.len(),
                None => find_attachment(self@.attachments, name@) == -1,
            },
    {
        let ghost atts = self@.attachments;
        let n = self.attachments.len();
        let mut i: usize = 0;
        while i < n
            invariant
                n == self.attachments.len(),
                0 <= i <= n,
                atts == self@.attachments,
                forall|k: int| 0 <= k < i ==> (#[trigger] atts[k]).source_name != name@,
            decreases n - i,
        {
            if self.attachments[i].source_name == *name {
                proof {
                    lemma_find_attachment(atts, name@);
                    assert(atts[i as int].source_name == name@);
                    assert(find_attachment(atts, name@) == i as int) by {
                        let f = find_attachment(atts, name@);
                        assert(f != -1);
                        assert(!(f < i) && !(i < f));
                    }
                }
                return Some(i);
            }
            i = i + 1;
        }
        proof {
            lemma_find_attachment(atts, name@);
            assert(find_attachment(atts, name@) == -1) by {
                let f = find_attachment(atts, name@);
                if f != -1 {
                    assert(atts[f].source_name == name@);
                }
            }
        }
        None
    }

    /// Forwards every value queued on the attached source's subscription
    /// into the outward event, oldest first, one dispatch per value — the
    /// synchronous form of the forwarding task. A source that is not
    /// attached (in particular, after `detach`) is left untouched and
    /// nothing is forwarded, however much it keeps dispatching.
    pub fn pump(&mut self, source: &mut Event<T>)
        requires
            old(self)@.wf(),
            old(source)@.wf(),
        ensures
            final(self)@.wf(),
            final(source)@.wf(),
            final(self)@.attachments == old(self)@.attachments,
            final(self)@.event.name == old(self)@.event.name,
            final(self)@.event.next_id == old(self)@.event.next_id,
            final(source)@.name == old(source)@.name,
            final(source)@.next_id == old(source)@.next_id,
            !old(self)@.attached(old(source)@.name) ==> {
                &&& final(self)@ == old(self)@
                &&& final(source)@ == old(source)@
            },
            old(self)@.attached(old(source)@.name) ==> ({
                let att = old(self)@.attachments[find_attachment(
                    old(self)@.attachments,
                    old(source)@.name,
                )];
                let f = find_sub(old(source)@.subs, att.subscriber_id);
                if f != -1 && old(source)@.subs[f].callback is Channel {
                    &&& final(source)@.subs == old(source)@.subs.update(
                        f,
                        SubscriberView {
                            callback: CallbackView::Channel {
                                queue: Seq::empty(),
                                capacity: old(source)@.subs[f].callback->Channel_capacity,
                                closed: old(source)@.subs[f].callback->Channel_closed,
                            },
                            ..old(source)@.subs[f]
                        },
                    )
                    &&& final(self)@.event.subs == forward_all(
                        old(self)@.event.subs,
                        old(source)@.subs[f].callback->Channel_queue,
                    )
                } else {
                    final(self)@ == old(self)@ && final(source)@ == old(source)@
                }
            }),
    {
        let found = self.find_attachment_index(source.name());
        let idx = match found {
            None => {
                return ;
            },
            Some(i) => i,
        };
        let sid = self.attachments[idx].subscriber_id;
        let ghost f0 = find_sub(old(source)@.subs, sid);
        let ghost is_chan = f0 != -1 && old(source)@.subs[f0].callback is Channel;
        let ghost q0 = if is_chan {
            old(source)@.subs[f0].callback->Channel_queue
        } else {
            Seq::<T>::empty()
        };
        let ghost cap0 = if is_chan {
            old(source)@.subs[f0].callback->Channel_capacity
        } else {
            0nat
        };
        let ghost closed0 = is_chan && old(source)@.subs[f0].callback->Channel_closed;
        let ghost e0 = old(self)@.event.subs;
        let ghost mut d: int = 0;
        let ghost mut k: int = 0;
        let mut received = source.recv(sid);
        proof {
            if is_chan && q0.len() > 0 {
                k = 1;
                assert(received == Some(q0[0]));
                assert(q0.drop_first() =~= q0.skip(1));
            } else {
                assert(received is None);
                assert(source@ == old(source)@);
            }
            if is_chan {
                assert(source@.subs =~= old(source)@.subs.update(
                    f0,
                    SubscriberView {
                        callback: CallbackView::Channel {
                            queue: q0.skip(k),
                            capacity: cap0,
                            closed: closed0,
                        },
                        ..old(source)@.subs[f0]
                    },
                )) by {
                    lemma_find_sub(old(source)@.subs, sid);
                    if q0.len() == 0 {
                        assert(q0.skip(0) =~= q0);
                    }
                }
                assert(forward_all(self@.event.subs, q0.skip(d)) == forward_all(e0, q0)) by {
                    assert(q0.skip(0) =~= q0);
                }
            }
        }
        while received.is_some()
            invariant
                old(self)@.wf(),
                old(source)@.wf(),
                self@.wf(),
                source@.wf(),
                self@.attachments == old(self)@.attachments,
                self@.event.name == old(self)@.event.name,
                self@.event.next_id == old(self)@.event.next_id,
                source@.name == old(source)@.name,
                source@.next_id == old(source)@.next_id,
                f0 == find_sub(old(source)@.subs, sid),
                is_chan == (f0 != -1 && old(source)@.subs[f0].callback is Channel),
                is_chan ==> {
                    &&& q0 == old(source)@.subs[f0].callback->Channel_queue
                    &&& cap0 == old(source)@.subs[f0].callback->Channel_capacity
                    &&& closed0 == old(source)@.subs[f0].callback->Channel_closed
                },
                e0 == old(self)@.event.subs,
                !is_chan ==> source@ == old(source)@ && self@ == old(self)@ && received is None
                    && k == 0 && d == 0,
                0 <= d <= k <= q0.len(),
                k == d + (if received is Some {
                    1int
                } else {
                    0int
                }),
                received matches Some(v) ==> v == q0[k - 1],
                is_chan && received is None ==> k == q0.len(),
                is_chan ==> source@.subs == old(source)@.subs.update(
                    f0,
                    SubscriberView {
                        callback: CallbackView::Channel {
                            queue: q0.skip(k),
                            capacity: cap0,
                            closed: closed0,
                        },
                        ..old(source)@.subs[f0]
                    },
                ),
                is_chan ==> forward_all(self@.event.subs, q0.skip(d)) == forward_all(e0, q0),
            decreases q0.len() - d,
        {
            proof {
                assert(is_chan);
                assert(0 <= f0 < old(source)@.subs.len()) by {
                    lemma_find_sub(old(source)@.subs, sid);
                }
            }
            let v = received.unwrap();
            let ghost s_prev = self@.event.subs;
            let outs = no_callback_outcomes(self.event.subscriber_count());
            let _ = self.event.dispatch(&v, &outs);
            proof {
                assert(self@.attachments =~= old(self)@.attachments);
                lemma_dispatch_outs_irrelevant(s_prev, v, outs@, Seq::<Option<String>>::empty());
                assert(v == q0[d]);
                assert(q0.skip(d).len() > 0 && q0.skip(d)[0] == q0[d]);
                assert(q0.skip(d).drop_first() =~= q0.skip(d + 1));
                assert(forward_all(s_prev, q0.skip(d)) == forward_all(
                    dispatch_spec(s_prev, q0[d], Seq::empty()).0,
                    q0.skip(d + 1),
                ));
                assert(self@.event.subs == dispatch_spec(s_prev, q0[d], Seq::empty()).0);
                lemma_dispatch_spec_shape(s_prev, v, outs@, self@.event.next_id);
                let s_now = self@.event.subs;
                assert forall|i: int| 0 <= i < s_now.len() implies !(
                #[trigger] s_now[i]).is_callback() by {
                    let j = choose|j: int|
                        0 <= j < s_prev.len() && descended_from(s_now[i], s_prev[j], v);
                    assert(!s_prev[j].is_callback());
                }
                d = d + 1;
            }
            let ghost src_prev = source@.subs;
            received = source.recv(sid);
            proof {
                assert forall|i: int|
                    0 <= i < src_prev.len() implies (#[trigger] src_prev[i]).id == old(
                    source,
                )@.subs[i].id by {
                    lemma_find_sub(old(source)@.subs, sid);
                }
                lemma_find_sub_same_ids(src_prev, old(source)@.subs, sid);
                lemma_find_sub(old(source)@.subs, sid);
                assert(find_sub(src_prev, sid) == f0);
                assert(src_prev[f0].callback->Channel_queue == q0.skip(k));
                if q0.skip(k).len() == 0 {
                    assert(received is None);
                    assert(source@.subs == src_prev);
                    assert(k == q0.len());
                } else {
                    assert(received == Some(q0.skip(k)[0]));
                    assert(q0.skip(k)[0] == q0[k]);
                    assert(q0.skip(k).drop_first() =~= q0.skip(k + 1));
                    assert(source@.subs =~= old(source)@.subs.update(
                        f0,
                        SubscriberView {
                            callback: CallbackView::Channel {
                                queue: q0.skip(k + 1),
                                capacity: cap0,
                                closed: closed0,
                            },
                            ..old(source)@.subs[f0]
                        },
                    ));
                    k = k + 1;
                }
            }
        }
        proof {
            if is_chan {
                assert(k == q0.len() && d == k);
                assert(q0.skip(k) =~= Seq::<T>::empty());
                assert(forward_all(self@.event.subs, q0.skip(d)) == self@.event.subs);
            }
        }
    }

    /// Closes the repeater; rejected, handing the repeater back, while
    /// sources are still attached.
    pub fn close(self) -> (r: Result<(), CloseError<T>>)
        ensures
            self@.attachments.len() == 0 ==> r is Ok,
            self@.attachments.len() > 0 ==> (r matches Err(CloseError::AttachedEvents(rep))
                && rep@ == self@),
    {
        if self.attachments.len() > 0 {
            return Err(CloseError::AttachedEvents(self));
        }
        Ok(())
    }
}

} // verus!
