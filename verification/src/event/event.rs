use vstd::prelude::*;

use crate::event::subscriber::{
    deliver_spec, Callback, CallbackView, DispatchError, Subscriber, SubscriberView,
};
use crate::event::value::EventValue;

verus! {

/// A named broadcast primitive: many subscribers, one `dispatch` that offers
/// each current subscriber the value in registration order.
///
/// Channel subscribers own a bounded queue inside the event, drained through
/// `recv`; callback subscribers stand for host-run callbacks whose outcomes
/// the host passes to `dispatch`. Events attached to a repeater are told
/// apart by `name`, so such names must be distinct.
pub struct Event<T> {
    pub name: String,
    subscribers: Vec<Subscriber<T>>,
    next_id: u64,
}

/// The mathematical shape of an `Event`.
pub struct EventView<T> {
    pub name: Seq<char>,
    pub subs: Seq<SubscriberView<T>>,
    pub next_id: u64,
}

impl<T> View for Event<T> {
    type V = EventView<T>;

    closed spec fn view(&self) -> EventView<T> {
        EventView {
            name: self.name@,
            subs: self.subscribers@.map_values(|s: Subscriber<T>| s@),
            next_id: self.next_id,
        }
    }
}

impl<T> EventView<T> {
    /// Subscriber handles are unique, below the allocation counter, and
    /// every channel queue has room for at least one value.
    pub open spec fn wf(self) -> bool {
        &&& forall|i: int|
            0 <= i < self.subs.len() ==> (#[trigger] self.subs[i]).id < self.next_id
        &&& forall|i: int, j: int|
            0 <= i < j < self.subs.len() ==> (#[trigger] self.subs[i]).id != (
            #[trigger] self.subs[j]).id
        &&& forall|i: int|
            0 <= i < self.subs.len() ==> match (#[trigger] self.subs[i]).callback {
                CallbackView::Channel { capacity, .. } => capacity >= 1,
                _ => true,
            }
    }

    /// Whether every subscriber is a channel subscriber; dispatching to such
    /// an event needs no callback outcomes.
    pub open spec fn channels_only(self) -> bool {
        forall|i: int| 0 <= i < self.subs.len() ==> !(#[trigger] self.subs[i]).is_callback()
    }
}

/// The position of the subscriber with handle `id`, or `-1` if there is none.
pub open spec fn find_sub<T>(subs: Seq<SubscriberView<T>>, id: u64) -> int
    decreases subs.len(),
{
    if subs.len() == 0 {
        -1
    } else if subs[0].id == id {
        0
    } else {
        let r = find_sub(subs.drop_first(), id);
        if r == -1 {
            -1
        } else {
            r + 1
        }
    }
}

/// `find_sub` returns `-1` exactly when no subscriber carries `id`, and
/// otherwise the first position carrying it.
pub proof fn lemma_find_sub<T>(subs: Seq<SubscriberView<T>>, id: u64)
    ensures
        find_sub(subs, id) == -1 ==> forall|i: int|
            0 <= i < subs.len() ==> (#[trigger] subs[i]).id != id,
        find_sub(subs, id) != -1 ==> {
            &&& 0 <= find_sub(subs, id) < subs.len()
            &&& subs[find_sub(subs, id)].id == id
            &&& forall|i: int| 0 <= i < find_sub(subs, id) ==> (#[trigger] subs[i]).id != id
        },
    decreases subs.len(),
{
    if subs.len() > 0 && subs[0].id != id {
        lemma_find_sub(subs.drop_first(), id);
        let r = find_sub(subs.drop_first(), id);
        if r != -1 {
            assert forall|i: int| 0 <= i < r + 1 implies (#[trigger] subs[i]).id != id by {
                if i > 0 {
                    assert(subs.drop_first()[i - 1] == subs[i]);
                }
            }
        } else {
            assert forall|i: int| 0 <= i < subs.len() implies (#[trigger] subs[i]).id != id by {
                if i > 0 {
                    assert(subs.drop_first()[i - 1] == subs[i]);
                }
            }
        }
    }
}

/// The three well-formedness conjuncts of `EventView::wf`, stated of a
/// subscriber sequence and the allocation counter `next_id`.
pub open spec fn subs_ok<T>(subs: Seq<SubscriberView<T>>, next_id: u64) -> bool {
    &&& forall|i: int| 0 <= i < subs.len() ==> (#[trigger] subs[i]).id < next_id
    &&& forall|i: int, j: int|
        0 <= i < j < subs.len() ==> (#[trigger] subs[i]).id != (#[trigger] subs[j]).id
    &&& forall|i: int|
        0 <= i < subs.len() ==> match (#[trigger] subs[i]).callback {
            CallbackView::Channel { capacity, .. } => capacity >= 1,
            _ => true,
        }
}

/// What one dispatch pass does: each subscriber, in registration order, is
/// offered `value` by `deliver_spec`; a failed delivery adds one error, and
/// drops the subscriber when its removal policy asks for it. Returns the
/// subscribers afterwards and the collected errors. `outs` carries the
/// host-run callback outcome for the subscriber at the same position.
pub open spec fn dispatch_spec<T>(
    subs: Seq<SubscriberView<T>>,
    value: T,
    outs: Seq<Option<String>>,
) -> (Seq<SubscriberView<T>>, Seq<DispatchError>)
    decreases subs.len(),
{
    if subs.len() == 0 {
        (Seq::empty(), Seq::empty())
    } else {
        let (sub2, err) = deliver_spec(subs[0], value, outs[0]);
        let rest = dispatch_spec(subs.drop_first(), value, outs.drop_first());
        match err {
            None => (seq![sub2] + rest.0, rest.1),
            Some(e) => {
                if subs[0].remove_on_error {
                    (rest.0, seq![e] + rest.1)
                } else {
                    (seq![sub2] + rest.0, seq![e] + rest.1)
                }
            },
        }
    }
}

/// What `recv` does: the subscribers afterwards and the received value. The
/// first queued value of the channel subscriber `id` leaves its queue; the
/// list is untouched when `id` names no channel subscriber or its queue is
/// empty.
pub open spec fn recv_spec<T>(subs: Seq<SubscriberView<T>>, id: u64) -> (
    Seq<SubscriberView<T>>,
    Option<T>,
) {
    let f = find_sub(subs, id);
    if f == -1 {
        (subs, None)
    } else {
        match subs[f].callback {
            CallbackView::Channel { queue, capacity, closed } => {
                if queue.len() == 0 {
                    (subs, None)
                } else {
                    (
                        subs.update(
                            f,
                            SubscriberView {
                                callback: CallbackView::Channel {
                                    queue: queue.drop_first(),
                                    capacity,
                                    closed,
                                },
                                ..subs[f]
                            },
                        ),
                        Some(queue[0]),
                    )
                }
            },
            _ => (subs, None),
        }
    }
}

/// What `close_channel` does: the channel subscriber `id` is marked closed;
/// the second component reports whether `id` named a channel subscriber.
pub open spec fn close_spec<T>(subs: Seq<SubscriberView<T>>, id: u64) -> (
    Seq<SubscriberView<T>>,
    bool,
) {
    let f = find_sub(subs, id);
    if f == -1 {
        (subs, false)
    } else {
        match subs[f].callback {
            CallbackView::Channel { queue, capacity, closed } => {
                (
                    subs.update(
                        f,
                        SubscriberView {
                            callback: CallbackView::Channel { queue, capacity, closed: true },
                            ..subs[f]
                        },
                    ),
                    true,
                )
            },
            _ => (subs, false),
        }
    }
}

/// Whether `a` is what one dispatch of `value` can leave of `b`: the same
/// subscriber, its queue at most extended by `value`.
pub open spec fn descended_from<T>(a: SubscriberView<T>, b: SubscriberView<T>, value: T) -> bool {
    &&& a.id == b.id
    &&& a.name == b.name
    &&& a.remove_on_error == b.remove_on_error
    &&& match (a.callback, b.callback) {
        (
            CallbackView::Channel { queue: qa, capacity: ca, closed: la },
            CallbackView::Channel { queue: qb, capacity: cb, closed: lb },
        ) => ca == cb && la == lb && (qa == qb || qa == qb.push(value)),
        (CallbackView::Closure, CallbackView::Closure) => true,
        (CallbackView::AsyncClosure, CallbackView::AsyncClosure) => true,
        _ => false,
    }
}

/// A dispatch pass keeps the subscriber list well formed: every surviving
/// subscriber descends from a distinct original one, in order.
pub proof fn lemma_dispatch_spec_shape<T>(
    subs: Seq<SubscriberView<T>>,
    value: T,
    outs: Seq<Option<String>>,
    next_id: u64,
)
    requires
        subs_ok(subs, next_id),
    ensures
        subs_ok(dispatch_spec(subs, value, outs).0, next_id),
        dispatch_spec(subs, value, outs).0.len() <= subs.len(),
        forall|k: int|
            0 <= k < dispatch_spec(subs, value, outs).0.len() ==> exists|j: int|
                0 <= j < subs.len() && descended_from(
                    #[trigger] dispatch_spec(subs, value, outs).0[k],
                    subs[j],
                    value,
                ),
    decreases subs.len(),
{
    if subs.len() > 0 {
        let (sub2, err) = deliver_spec(subs[0], value, outs[0]);
        let tail = subs.drop_first();
        let touts = outs.drop_first();
        assert(subs_ok(tail, next_id)) by {
            assert(forall|i: int|
                0 <= i < tail.len() ==> (#[trigger] tail[i]) == subs[i + 1]);
        }
        lemma_dispatch_spec_shape(tail, value, touts, next_id);
        let rest = dispatch_spec(tail, value, touts);
        let result = dispatch_spec(subs, value, outs).0;
        let kept_head = match err {
            None => true,
            Some(_) => !subs[0].remove_on_error,
        };
        if kept_head {
            assert(result == seq![sub2] + rest.0);
            assert(descended_from(sub2, subs[0], value));
            assert forall|k: int| 0 <= k < result.len() implies exists|j: int|
                0 <= j < subs.len() && descended_from(#[trigger] result[k], subs[j], value) by {
                if k == 0 {
                    assert(result[0] == sub2);
                    assert(descended_from(result[0], subs[0], value));
                } else {
                    assert(result[k] == rest.0[k - 1]);
                    let j0 = choose|j0: int|
                        0 <= j0 < tail.len() && descended_from(rest.0[k - 1], tail[j0], value);
                    assert(tail[j0] == subs[j0 + 1]);
                    assert(descended_from(result[k], subs[j0 + 1], value));
                }
            }
            assert(subs_ok(result, next_id)) by {
                assert forall|a: int, b: int| 0 <= a < b < result.len() implies (
                #[trigger] result[a]).id != (#[trigger] result[b]).id by {
                    if a == 0 {
                        assert(result[b] == rest.0[b - 1]);
                        let j0 = choose|j0: int|
                            0 <= j0 < tail.len() && descended_from(rest.0[b - 1], tail[j0], value);
                        assert(result[b].id == subs[j0 + 1].id);
                        assert(subs[0].id != subs[j0 + 1].id);
                    } else {
                        assert(result[a] == rest.0[a - 1] && result[b] == rest.0[b - 1]);
                    }
                }
                assert forall|a: int| 0 <= a < result.len() implies (#[trigger] result[a]).id
                    < next_id && match result[a].callback {
                    CallbackView::Channel { capacity, .. } => capacity >= 1,
                    _ => true,
                } by {
                    if a == 0 {
                        assert(descended_from(result[0], subs[0], value));
                    } else {
                        assert(result[a] == rest.0[a - 1]);
                    }
                }
            }
        } else {
            assert(result == rest.0);
            assert forall|k: int| 0 <= k < result.len() implies exists|j: int|
                0 <= j < subs.len() && descended_from(#[trigger] result[k], subs[j], value) by {
                let j0 = choose|j0: int|
                    0 <= j0 < tail.len() && descended_from(rest.0[k], tail[j0], value);
                assert(tail[j0] == subs[j0 + 1]);
                assert(descended_from(result[k], subs[j0 + 1], value));
            }
        }
    }
}

/// The number of subscribers whose delivery fails in one dispatch pass.
pub open spec fn failure_count<T>(subs: Seq<SubscriberView<T>>, outs: Seq<Option<String>>) -> nat
    decreases subs.len(),
{
    if subs.len() == 0 {
        0
    } else {
        (if subs[0].delivery_fails(outs[0]) {
            1nat
        } else {
            0nat
        }) + failure_count(subs.drop_first(), outs.drop_first())
    }
}

/// One dispatch pass isolates failures. With subscribers carrying distinct
/// handles and one callback outcome per subscriber:
/// - the error list holds exactly one entry per failing subscriber;
/// - every subscriber whose delivery succeeds is still subscribed, its queue
///   grown by the value if it is a channel;
/// - a failing subscriber stays subscribed, untouched, unless its removal
///   policy asks otherwise — then no subscriber with its handle remains.
pub proof fn lemma_dispatch_failure_isolation<T>(
    subs: Seq<SubscriberView<T>>,
    value: T,
    outs: Seq<Option<String>>,
)
    requires
        outs.len() == subs.len(),
        forall|i: int, j: int|
            0 <= i < j < subs.len() ==> (#[trigger] subs[i]).id != (#[trigger] subs[j]).id,
    ensures
        dispatch_spec(subs, value, outs).1.len() == failure_count(subs, outs),
        forall|j: int|
            0 <= j < subs.len() && !(#[trigger] subs[j]).delivery_fails(outs[j]) ==> dispatch_spec(
                subs,
                value,
                outs,
            ).0.contains(deliver_spec(subs[j], value, outs[j]).0),
        forall|j: int|
            0 <= j < subs.len() && (#[trigger] subs[j]).delivery_fails(outs[j])
                && !subs[j].remove_on_error ==> dispatch_spec(subs, value, outs).0.contains(
                subs[j],
            ),
        forall|j: int|
            0 <= j < subs.len() && (#[trigger] subs[j]).delivery_fails(outs[j])
                && subs[j].remove_on_error ==> forall|k: int|
                0 <= k < dispatch_spec(subs, value, outs).0.len() ==> (#[trigger] dispatch_spec(
                    subs,
                    value,
                    outs,
                ).0[k]).id != subs[j].id,
        forall|k: int|
            0 <= k < dispatch_spec(subs, value, outs).0.len() ==> exists|j: int|
                0 <= j < subs.len() && (#[trigger] dispatch_spec(subs, value, outs).0[k]).id
                    == subs[j].id,
    decreases subs.len(),
{
    if subs.len() > 0 {
        let (sub2, err) = deliver_spec(subs[0], value, outs[0]);
        let tail = subs.drop_first();
        let touts = outs.drop_first();
        lemma_dispatch_failure_isolation(tail, value, touts);
        let rest = dispatch_spec(tail, value, touts);
        let result = dispatch_spec(subs, value, outs).0;
        let head_fails = subs[0].delivery_fails(outs[0]);
        assert(head_fails <==> err is Some);
        assert(forall|i: int| 0 <= i < tail.len() ==> (#[trigger] tail[i]) == subs[i + 1]);
        assert(forall|i: int| 0 <= i < touts.len() ==> (#[trigger] touts[i]) == outs[i + 1]);
        let kept_head = !head_fails || !subs[0].remove_on_error;
        if kept_head {
            assert(result == seq![if head_fails {
                subs[0]
            } else {
                sub2
            }] + rest.0);
            assert(result[0] == if head_fails {
                subs[0]
            } else {
                sub2
            });
            assert(forall|k: int| 0 <= k < rest.0.len() ==> result[k + 1] == rest.0[k]);
        } else {
            assert(result == rest.0);
        }
        // every retained subscriber's handle comes from the input
        assert forall|k: int| 0 <= k < result.len() implies exists|j: int|
            0 <= j < subs.len() && (#[trigger] result[k]).id == subs[j].id by {
            if kept_head && k == 0 {
                assert(result[0].id == subs[0].id);
            } else {
                let k0 = if kept_head {
                    k - 1
                } else {
                    k
                };
                assert(result[k] == rest.0[k0]);
                let j0 = choose|j0: int| 0 <= j0 < tail.len() && rest.0[k0].id == tail[j0].id;
                assert(result[k].id == subs[j0 + 1].id);
            }
        }
        // error count
        assert(dispatch_spec(subs, value, outs).1.len() == failure_count(subs, outs));
        // successful subscribers stay, updated
        assert forall|j: int|
            0 <= j < subs.len() && !(#[trigger] subs[j]).delivery_fails(outs[j]) implies result
            .contains(deliver_spec(subs[j], value, outs[j]).0) by {
            if j == 0 {
                assert(result[0] == sub2);
            } else {
                assert(tail[j - 1] == subs[j] && touts[j - 1] == outs[j]);
                assert(rest.0.contains(deliver_spec(subs[j], value, outs[j]).0));
                let k0 = choose|k0: int|
                    0 <= k0 < rest.0.len() && rest.0[k0] == deliver_spec(subs[j], value, outs[j]).0;
                if kept_head {
                    assert(result[k0 + 1] == rest.0[k0]);
                } else {
                    assert(result[k0] == rest.0[k0]);
                }
            }
        }
        // failing subscribers without removal policy stay untouched
        assert forall|j: int|
            0 <= j < subs.len() && (#[trigger] subs[j]).delivery_fails(outs[j])
                && !subs[j].remove_on_error implies result.contains(subs[j]) by {
            if j == 0 {
                assert(result[0] == subs[0]);
            } else {
                assert(tail[j - 1] == subs[j] && touts[j - 1] == outs[j]);
                assert(rest.0.contains(subs[j]));
                let k0 = choose|k0: int| 0 <= k0 < rest.0.len() && rest.0[k0] == subs[j];
                if kept_head {
                    assert(result[k0 + 1] == rest.0[k0]);
                } else {
                    assert(result[k0] == rest.0[k0]);
                }
            }
        }
        // failing subscribers with removal policy vanish
        assert forall|j: int|
            0 <= j < subs.len() && (#[trigger] subs[j]).delivery_fails(outs[j])
                && subs[j].remove_on_error implies forall|k: int|
            0 <= k < result.len() ==> (#[trigger] result[k]).id != subs[j].id by {
            if j == 0 {
                assert(!kept_head);
                assert forall|k: int| 0 <= k < result.len() implies (#[trigger] result[k]).id
                    != subs[0].id by {
                    let j0 = choose|j0: int| 0 <= j0 < tail.len() && result[k].id == tail[j0].id;
                    assert(result[k].id == subs[j0 + 1].id);
                    assert(subs[0].id != subs[j0 + 1].id);
                }
            } else {
                assert(tail[j - 1] == subs[j] && touts[j - 1] == outs[j]);
                assert forall|k: int| 0 <= k < result.len() implies (#[trigger] result[k]).id
                    != subs[j].id by {
                    if kept_head && k == 0 {
                        assert(result[0].id == subs[0].id);
                        assert(subs[0].id != subs[j].id);
                    } else {
                        let k0 = if kept_head {
                            k - 1
                        } else {
                            k
                        };
                        assert(result[k] == rest.0[k0]);
                        assert(rest.0[k0].id != tail[j - 1].id);
                    }
                }
            }
        }
    }
}

/// A vector of `n` successful callback outcomes, for dispatching to an event
/// whose subscribers are all channels (or whose callbacks all succeeded).
pub fn no_callback_outcomes(n: usize) -> (r: Vec<Option<String>>)
    ensures
        r@.len() == n,
        forall|k: int| 0 <= k < n ==> (#[trigger] r@[k]) is None,
{
    let mut r: Vec<Option<String>> = Vec::new();
    let mut i: usize = 0;
    while i < n
        invariant
            i <= n,
            r@.len() == i,
            forall|k: int| 0 <= k < i ==> (#[trigger] r@[k]) is None,
        decreases n - i,
    {
        r.push(None);
        i = i + 1;
    }
    r
}

/// `find_sub` looks only at handles: two subscriber lists that agree on
/// every handle agree on every search.
pub proof fn lemma_find_sub_same_ids<T>(
    s1: Seq<SubscriberView<T>>,
    s2: Seq<SubscriberView<T>>,
    id: u64,
)
    requires
        s1.len() == s2.len(),
        forall|i: int| 0 <= i < s1.len() ==> (#[trigger] s1[i]).id == (#[trigger] s2[i]).id,
    ensures
        find_sub(s1, id) == find_sub(s2, id),
    decreases s1.len(),
{
    if s1.len() > 0 {
        assert(s1[0].id == s2[0].id);
        if s1[0].id != id {
            assert(forall|i: int|
                0 <= i < s1.drop_first().len() ==> (#[trigger] s1.drop_first()[i]) == s1[i + 1]
                    && (#[trigger] s2.drop_first()[i]) == s2[i + 1]);
            lemma_find_sub_same_ids(s1.drop_first(), s2.drop_first(), id);
        }
    }
}

impl<T: EventValue> Event<T> {
    /// Creates an event with no subscribers.
    pub fn new(name: String) -> (r: Self)
        ensures
            r@ == (EventView::<T> { name: name@, subs: Seq::empty(), next_id: 0 }),
            r@.wf(),
    {
        let r = Self { name, subscribers: Vec::new(), next_id: 0 };
        proof {
            assert(r@.subs =~= Seq::<SubscriberView<T>>::empty());
        }
        r
    }

    /// The event's name, its identity towards a repeater.
    pub fn name(&self) -> (r: &String)
        ensures
            r@ == self@.name,
    {
        &self.name
    }

    /// Whether the subscriber-handle counter still has room — a machine
    /// limit a host can check before subscribing.
    pub fn can_take_subscriber(&self) -> (r: bool)
        ensures
            r == (self@.next_id < u64::MAX),
    {
        self.next_id < u64::MAX
    }

    /// The number of current subscribers.
    pub fn subscriber_count(&self) -> (r: usize)
        ensures
            r == self@.subs.len(),
    {
        self.subscribers.len()
    }

    fn add_subscriber(&mut self, name: String, remove_on_error: bool, callback: Callback<T>) -> (r:
        u64)
        requires
            old(self)@.next_id < u64::MAX,
        ensures
            r == old(self)@.next_id,
            final(self)@.name == old(self)@.name,
            final(self)@.next_id == old(self)@.next_id + 1,
            final(self)@.subs == old(self)@.subs.push(
                SubscriberView {
                    id: old(self)@.next_id,
                    name: name@,
                    remove_on_error,
                    callback: callback@,
                },
            ),
    {
        let id = self.next_id;
        let ghost pre = self@.subs;
        let sub = Subscriber::new(name, remove_on_error, callback, id);
        let ghost subview = sub@;
        self.subscribers.push(sub);
        self.next_id = id + 1;
        proof {
            assert(self@.subs =~= pre.push(subview));
        }
        id
    }

    /// Opens a bounded queue subscriber: dispatched values are copied into
    /// the queue until it holds `buffer` of them, and drained with `recv`.
    /// Returns the subscriber's handle.
    pub fn subscribe_channel(&mut self, name: String, buffer: usize, remove_on_error: bool) -> (r:
        u64)
        requires
            old(self)@.wf(),
            old(self)@.next_id < u64::MAX,
            buffer >= 1,
        ensures
            final(self)@.wf(),
            r == old(self)@.next_id,
            final(self)@.name == old(self)@.name,
            final(self)@.next_id == old(self)@.next_id + 1,
            final(self)@.subs == old(self)@.subs.push(
                SubscriberView {
                    id: old(self)@.next_id,
                    name: name@,
                    remove_on_error,
                    callback: CallbackView::Channel {
                        queue: Seq::empty(),
                        capacity: buffer as nat,
                        closed: false,
                    },
                },
            ),
    {
        let r = self.add_subscriber(
            name,
            remove_on_error,
            Callback::Channel { queue: Vec::new(), capacity: buffer, closed: false },
        );
        proof {
            assert(final(self)@.subs.last().callback->Channel_queue =~= Seq::<T>::empty());
            assert(final(self)@.subs =~= old(self)@.subs.push(
                SubscriberView {
                    id: old(self)@.next_id,
                    name: final(self)@.subs.last().name,
                    remove_on_error,
                    callback: CallbackView::Channel {
                        queue: Seq::empty(),
                        capacity: buffer as nat,
                        closed: false,
                    },
                },
            ));
        }
        r
    }

    /// Registers a synchronous callback subscriber; the host runs the
    /// callback and reports its outcome to each `dispatch`. Returns the
    /// subscriber's handle.
    pub fn subscribe_closure(&mut self, name: String, remove_on_error: bool) -> (r: u64)
        requires
            old(self)@.wf(),
            old(self)@.next_id < u64::MAX,
        ensures
            final(self)@.wf(),
            r == old(self)@.next_id,
            final(self)@.name == old(self)@.name,
            final(self)@.next_id == old(self)@.next_id + 1,
            final(self)@.subs == old(self)@.subs.push(
                SubscriberView {
                    id: old(self)@.next_id,
                    name: name@,
                    remove_on_error,
                    callback: CallbackView::Closure,
                },
            ),
    {
        self.add_subscriber(name, remove_on_error, Callback::Closure)
    }

    /// Registers an asynchronous callback subscriber; the host awaits the
    /// callback and reports its outcome to each `dispatch`. Returns the
    /// subscriber's handle.
    pub fn subscribe_async_closure(&mut self, name: String, remove_on_error: bool) -> (r: u64)
        requires
            old(self)@.wf(),
            old(self)@.next_id < u64::MAX,
        ensures
            final(self)@.wf(),
            r == old(self)@.next_id,
            final(self)@.name == old(self)@.name,
            final(self)@.next_id == old(self)@.next_id + 1,
            final(self)@.subs == old(self)@.subs.push(
                SubscriberView {
                    id: old(self)@.next_id,
                    name: name@,
                    remove_on_error,
                    callback: CallbackView::AsyncClosure,
                },
            ),
    {
        self.add_subscriber(name, remove_on_error, Callback::AsyncClosure)
    }

    /// Shares `value` with every current subscriber, in registration order:
    /// channel subscribers enqueue a copy, callback subscribers take the
    /// host-reported outcome in `outcomes` (one entry per subscriber, by
    /// position; entries for channel subscribers are ignored). A failed
    /// delivery never halts the pass: it adds one error to the returned
    /// list, and permanently drops the subscriber when its removal policy
    /// asks for it. Behaves exactly as `dispatch_spec` says.
    pub fn dispatch(&mut self, value: &T, outcomes: &Vec<Option<String>>) -> (r: Result<
        (),
        Vec<DispatchError>,
    >)
        requires
            old(self)@.wf(),
            outcomes@.len() == old(self)@.subs.len(),
        ensures
            final(self)@.wf(),
            final(self)@.name == old(self)@.name,
            final(self)@.next_id == old(self)@.next_id,
            final(self)@.subs == dispatch_spec(old(self)@.subs, *value, outcomes@).0,
            ({
                let errs = dispatch_spec(old(self)@.subs, *value, outcomes@).1;
                match r {
                    Ok(()) => errs.len() == 0,
                    Err(es) => es@ == errs && errs.len() > 0,
                }
            }),
    {
        let ghost pre = self@.subs;
        let ghost v = *value;
        let ghost outs = outcomes@;
        let mut remaining: Vec<Subscriber<T>> = Vec::new();
        core::mem::swap(&mut remaining, &mut self.subscribers);
        let mut kept: Vec<Subscriber<T>> = Vec::new();
        let mut errors: Vec<DispatchError> = Vec::new();
        let n = remaining.len();
        let mut i: usize = 0;
        proof {
            assert(remaining@.map_values(|s: Subscriber<T>| s@) =~= pre);
            assert(outs.skip(0) =~= outs);
            assert(pre.skip(0) =~= pre);
            assert(kept@.map_values(|s: Subscriber<T>| s@) + dispatch_spec(pre, v, outs).0
                =~= dispatch_spec(pre, v, outs).0);
            assert(errors@ + dispatch_spec(pre, v, outs).1 =~= dispatch_spec(pre, v, outs).1);
        }
        while remaining.len() > 0
            invariant
                outs == outcomes@,
                v == *value,
                outs.len() == pre.len(),
                pre.len() <= usize::MAX,
                i == pre.len() - remaining.len(),
                i <= pre.len(),
                remaining@.map_values(|s: Subscriber<T>| s@) == pre.skip(i as int),
                dispatch_spec(pre, v, outs).0 == kept@.map_values(|s: Subscriber<T>| s@)
                    + dispatch_spec(pre.skip(i as int), v, outs.skip(i as int)).0,
                dispatch_spec(pre, v, outs).1 == errors@ + dispatch_spec(
                    pre.skip(i as int),
                    v,
                    outs.skip(i as int),
                ).1,
            decreases remaining.len(),
        {
            let ghost rem_views = remaining@.map_values(|s: Subscriber<T>| s@);
            let ghost kept_views = kept@.map_values(|s: Subscriber<T>| s@);
            let mut sub = remaining.remove(0);
            let ghost subv = sub@;
            proof {
                assert(rem_views[0] == subv);
                assert(remaining@.map_values(|s: Subscriber<T>| s@) =~= rem_views.drop_first());
                assert(rem_views.drop_first() =~= pre.skip(i as int + 1));
                assert(outs.skip(i as int)[0] == outs[i as int]);
                assert(outs.skip(i as int).drop_first() =~= outs.skip(i as int + 1));
            }
            let res = sub.dispatch(value, &outcomes[i]);
            let ghost step = deliver_spec(subv, v, outs[i as int]);
            let ghost rest = dispatch_spec(pre.skip(i as int + 1), v, outs.skip(i as int + 1));
            proof {
                assert(dispatch_spec(pre.skip(i as int), v, outs.skip(i as int)).0 == (match step.1 {
                    None => seq![step.0] + rest.0,
                    Some(e) => if subv.remove_on_error {
                        rest.0
                    } else {
                        seq![step.0] + rest.0
                    },
                }));
                assert(dispatch_spec(pre.skip(i as int), v, outs.skip(i as int)).1 == (match step.1 {
                    None => rest.1,
                    Some(e) => seq![e] + rest.1,
                }));
            }
            match res {
                Ok(()) => {
                    kept.push(sub);
                    proof {
                        assert(kept@.map_values(|s: Subscriber<T>| s@) =~= kept_views.push(
                            step.0,
                        ));
                        assert(kept_views + (seq![step.0] + rest.0) =~= kept_views.push(step.0)
                            + rest.0);
                    }
                },
                Err(e) => {
                    let ghost errs_views = errors@;
                    let ghost the_err = step.1->Some_0;
                    if sub.remove_on_error {
                        errors.push(e);
                        proof {
                            assert(errors@ =~= errs_views.push(the_err));
                            assert(errs_views + (seq![the_err] + rest.1) =~= errs_views.push(
                                the_err,
                            ) + rest.1);
                        }
                    } else {
                        kept.push(sub);
                        errors.push(e);
                        proof {
                            assert(kept@.map_values(|s: Subscriber<T>| s@) =~= kept_views.push(
                                step.0,
                            ));
                            assert(kept_views + (seq![step.0] + rest.0) =~= kept_views.push(
                                step.0,
                            ) + rest.0);
                            assert(errors@ =~= errs_views.push(the_err));
                            assert(errs_views + (seq![the_err] + rest.1) =~= errs_views.push(
                                the_err,
                            ) + rest.1);
                        }
                    }
                },
            }
            i = i + 1;
        }
        proof {
            assert(pre.skip(i as int) =~= Seq::<SubscriberView<T>>::empty());
            assert(kept@.map_values(|s: Subscriber<T>| s@) + Seq::<SubscriberView<T>>::empty()
                =~= kept@.map_values(|s: Subscriber<T>| s@));
            assert(errors@ + Seq::<DispatchError>::empty() =~= errors@);
            lemma_dispatch_spec_shape(pre, v, outs, old(self)@.next_id);
        }
        self.subscribers = kept;
        if errors.is_empty() {
            Ok(())
        } else {
            Err(errors)
        }
    }

    /// Takes the oldest value out of the channel subscriber `id`'s queue;
    /// `None` when the queue is empty or `id` names no channel subscriber.
    /// Behaves exactly as `recv_spec` says.
    pub fn recv(&mut self, id: u64) -> (r: Option<T>)
        requires
            old(self)@.wf(),
        ensures
            final(self)@.wf(),
            final(self)@.name == old(self)@.name,
            final(self)@.next_id == old(self)@.next_id,
            final(self)@.subs == recv_spec(old(self)@.subs, id).0,
            r == recv_spec(old(self)@.subs, id).1,
    {
        let ghost pre = self@.subs;
        let n = self.subscribers.len();
        let mut i: usize = 0;
        while i < n
            invariant
                n == self.subscribers.len(),
                0 <= i <= n,
                self@ == old(self)@,
                old(self)@.wf(),
                self@.subs == pre,
                forall|k: int| 0 <= k < i ==> (#[trigger] pre[k]).id != id,
            decreases n - i,
        {
            if self.subscribers[i].id == id {
                proof {
                    lemma_find_sub(pre, id);
                    assert(pre[i as int].id == id);
                    assert(find_sub(pre, id) == i as int) by {
                        let f = find_sub(pre, id);
                        assert(f != -1);
                        assert(!(f < i) && !(i < f));
                    }
                }
                let sub = &mut self.subscribers[i];
                match &mut sub.callback {
                    Callback::Channel { queue, .. } => {
                        if queue.len() > 0 {
                            let out = queue.remove(0);
                            proof {
                                assert(self@.subs =~= recv_spec(pre, id).0);
                            }
                            return Some(out);
                        } else {
                            proof {
                                assert(self@.subs =~= pre);
                            }
                            return None;
                        }
                    },
                    _ => {
                        proof {
                            assert(self@.subs =~= pre);
                        }
                        return None;
                    },
                }
            }
            i = i + 1;
        }
        proof {
            lemma_find_sub(pre, id);
            assert(find_sub(pre, id) == -1) by {
                let f = find_sub(pre, id);
                if f != -1 {
                    assert(pre[f].id == id);
                }
            }
        }
        None
    }

    /// Marks the channel subscriber `id`'s queue closed — the model of its
    /// consumer going away: every later delivery to it fails. Reports
    /// whether `id` named a channel subscriber. Behaves exactly as
    /// `close_spec` says.
    pub fn close_channel(&mut self, id: u64) -> (r: bool)
        requires
            old(self)@.wf(),
        ensures
            final(self)@.wf(),
            final(self)@.name == old(self)@.name,
            final(self)@.next_id == old(self)@.next_id,
            final(self)@.subs == close_spec(old(self)@.subs, id).0,
            r == close_spec(old(self)@.subs, id).1,
    {
        let ghost pre = self@.subs;
        let n = self.subscribers.len();
        let mut i: usize = 0;
        while i < n
            invariant
                n == self.subscribers.len(),
                0 <= i <= n,
                self@ == old(self)@,
                old(self)@.wf(),
                self@.subs == pre,
                forall|k: int| 0 <= k < i ==> (#[trigger] pre[k]).id != id,
            decreases n - i,
        {
            if self.subscribers[i].id == id {
                proof {
                    lemma_find_sub(pre, id);
                    assert(pre[i as int].id == id);
                    assert(find_sub(pre, id) == i as int) by {
                        let f = find_sub(pre, id);
                        assert(f != -1);
                        assert(!(f < i) && !(i < f));
                    }
                }
                let sub = &mut self.subscribers[i];
                match &mut sub.callback {
                    Callback::Channel { closed, .. } => {
                        *closed = true;
                        proof {
                            assert(self@.subs =~= close_spec(pre, id).0);
                        }
                        return true;
                    },
                    _ => {
                        proof {
                            assert(self@.subs =~= pre);
                        }
                        return false;
                    },
                }
            }
            i = i + 1;
        }
        proof {
            lemma_find_sub(pre, id);
            assert(find_sub(pre, id) == -1) by {
                let f = find_sub(pre, id);
                if f != -1 {
                    assert(pre[f].id == id);
                }
            }
        }
        false
    }

    /// Removes the subscriber with handle `id`; reports whether one existed.
    pub fn unsubscribe(&mut self, id: u64) -> (r: bool)
        requires
            old(self)@.wf(),
        ensures
            final(self)@.wf(),
            final(self)@.name == old(self)@.name,
            final(self)@.next_id == old(self)@.next_id,
            find_sub(old(self)@.subs, id) == -1 ==> final(self)@.subs == old(self)@.subs && !r,
            find_sub(old(self)@.subs, id) != -1 ==> final(self)@.subs == old(self)@.subs.remove(
                find_sub(old(self)@.subs, id),
            ) && r,
    {
        let ghost pre = self@.subs;
        let n = self.subscribers.len();
        let mut i: usize = 0;
        while i < n
            invariant
                n == self.subscribers.len(),
                0 <= i <= n,
                self@ == old(self)@,
                old(self)@.wf(),
                self@.subs == pre,
                forall|k: int| 0 <= k < i ==> (#[trigger] pre[k]).id != id,
            decreases n - i,
        {
            if self.subscribers[i].id == id {
                proof {
                    lemma_find_sub(pre, id);
                    assert(pre[i as int].id == id);
                    assert(find_sub(pre, id) == i as int) by {
                        let f = find_sub(pre, id);
                        assert(f != -1);
                        assert(!(f < i) && !(i < f));
                    }
                }
                self.subscribers.remove(i);
                proof {
                    assert(self@.subs =~= pre.remove(i as int));
                    let post = self@.subs;
                    assert forall|a: int, b: int| 0 <= a < b < post.len() implies (
                    #[trigger] post[a]).id != (#[trigger] post[b]).id by {
                        let a0 = if a < i { a } else { a + 1 };
                        let b0 = if b < i { b } else { b + 1 };
                        assert(post[a] == pre[a0] && post[b] == pre[b0]);
                    }
                    assert forall|a: int| 0 <= a < post.len() implies (#[trigger] post[a]).id < self@.next_id
                        && match post[a].callback {
                        CallbackView::Channel { capacity, .. } => capacity >= 1,
                        _ => true,
                    } by {
                        let a0 = if a < i { a } else { a + 1 };
                        assert(post[a] == pre[a0]);
                    }
                }
                return true;
            }
            i = i + 1;
        }
        proof {
            lemma_find_sub(pre, id);
            assert(find_sub(pre, id) == -1) by {
                let f = find_sub(pre, id);
                if f != -1 {
                    assert(pre[f].id == id);
                }
            }
        }
        false
    }
}

} // verus!
