use vstd::prelude::*;

use crate::event::event::{dispatch_spec, Event, EventView};
use crate::event::subscriber::DispatchError;
use crate::event::value::EventValue;

verus! {

/// What a `set` call did: nothing, because the new value already equalled
/// the held one, or a store followed by one dispatch with its outcome.
#[derive(Debug)]
pub enum ObservableResult {
    Unchanged,
    Changed(Result<(), Vec<DispatchError>>),
}

/// A current value paired with a broadcast event that fires only on actual
/// change: `set` compares first, by the value type's own equivalence, and
/// dispatches only when the value moved. This is how a mutation becomes an
/// observable stream instead of a poll target.
pub struct Observable<T> {
    value: T,
    on_change: Event<T>,
}

/// The mathematical shape of an `Observable`.
pub struct ObservableView<T> {
    pub value: T,
    pub event: EventView<T>,
}

impl<T> View for Observable<T> {
    type V = ObservableView<T>;

    closed spec fn view(&self) -> ObservableView<T> {
        ObservableView { value: self.value, event: self.on_change@ }
    }
}

impl<T> ObservableView<T> {
    pub open spec fn wf(self) -> bool {
        self.event.wf()
    }
}

/// What `set` does: the observable afterwards, whether the value changed,
/// and the dispatch errors (empty when unchanged).
pub open spec fn set_spec<T: EventValue>(
    obs: ObservableView<T>,
    value: T,
    outs: Seq<Option<String>>,
) -> (ObservableView<T>, bool, Seq<DispatchError>) {
    if value.eqv(&obs.value) {
        (obs, false, Seq::empty())
    } else {
        let (subs2, errs) = dispatch_spec(obs.event.subs, value, outs);
        (
            ObservableView { value, event: EventView { subs: subs2, ..obs.event } },
            true,
            errs,
        )
    }
}

/// Setting the same value twice dispatches only once: whatever the first
/// `set` did, a second `set` of an equal value changes nothing and fires no
/// dispatch.
pub proof fn lemma_set_twice_dispatches_once<T: EventValue>(
    obs: ObservableView<T>,
    value: T,
    outs1: Seq<Option<String>>,
    outs2: Seq<Option<String>>,
)
    ensures
        ({
            let after_first = set_spec(obs, value, outs1).0;
            &&& set_spec(after_first, value, outs2).0 == after_first
            &&& set_spec(after_first, value, outs2).1 == false
            &&& set_spec(after_first, value, outs2).2 == Seq::<DispatchError>::empty()
        }),
{
    let after_first = set_spec(obs, value, outs1).0;
    if value.eqv(&obs.value) {
        assert(after_first == obs);
    } else {
        assert(after_first.value == value);
        value.lemma_eqv_reflexive();
    }
}

impl<T: EventValue> Observable<T> {
    /// Creates an observable holding `value`, with a fresh change event
    /// named `event_name`.
    pub fn new(value: T, event_name: String) -> (r: Self)
        ensures
            r@.value == value,
            r@.event == (EventView::<T> { name: event_name@, subs: Seq::empty(), next_id: 0 }),
            r@.wf(),
    {
        Self { value, on_change: Event::new(event_name) }
    }

    /// Reads the current value.
    pub fn get(&self) -> (r: T)
        ensures
            r == self@.value,
    {
        self.value.dup()
    }

    /// Stores `value` and dispatches it to the change event's subscribers —
    /// unless `value` already equals the held value, in which case nothing
    /// happens and `Unchanged` is returned. `outcomes` carries one host
    /// callback outcome per subscriber, as in `Event::dispatch`. Behaves
    /// exactly as `set_spec` says.
    pub fn set(&mut self, value: T, outcomes: &Vec<Option<String>>) -> (r: ObservableResult)
        requires
            old(self)@.wf(),
            outcomes@.len() == old(self)@.event.subs.len(),
        ensures
            final(self)@.wf(),
            ({
                let (obs2, changed, errs) = set_spec(old(self)@, value, outcomes@);
                &&& final(self)@ == obs2
                &&& match r {
                    ObservableResult::Unchanged => !changed,
                    ObservableResult::Changed(Ok(())) => changed && errs.len() == 0,
                    ObservableResult::Changed(Err(es)) => changed && es@ == errs && errs.len()
                        > 0,
                }
            }),
    {
        if value.same(&self.value) {
            return ObservableResult::Unchanged;
        }
        let dispatched = value.dup();
        self.value = value;
        let dispatch_result = self.on_change.dispatch(&dispatched, outcomes);
        match dispatch_result {
            Ok(()) => ObservableResult::Changed(Ok(())),
            Err(errors) => ObservableResult::Changed(Err(errors)),
        }
    }

    /// Borrows the change event, to subscribe, receive, or attach it to a
    /// repeater. The value itself is only changed through `set`.
    pub fn event_mut(&mut self) -> (r: &mut Event<T>)
        ensures
            r@ == old(self)@.event,
            final(self)@.event == final(r)@,
            final(self)@.value == old(self)@.value,
    {
        &mut self.on_change
    }

    /// Reads the change event.
    pub fn event_ref(&self) -> (r: &Event<T>)
        ensures
            r@ == self@.event,
    {
        &self.on_change
    }
}

} // verus!
