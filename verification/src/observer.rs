//! A registry of listeners per event. Each subscription gets a fresh id;
//! notifying an event lists the calls to make, one per listener of that
//! event in the order of subscription. The callbacks themselves live with the
//! caller, keyed by these ids.

use vstd::prelude::*;

verus! {

/// The kinds of event a listener can subscribe to.
#[derive(PartialEq, Eq, Hash, Clone, Copy, Debug, Structural)]
pub enum Event {
    Turn,
    FieldOpened,
    FlagPlaced,
    GameWon,
    GameLost,
}

/// What an event reports to its listeners.
#[derive(Clone, Copy, Debug, PartialEq, Eq, Structural)]
pub enum EventData {
    Turn { x: usize, y: usize },
    FieldOpened { x: usize, y: usize, bomb: bool },
    FlagPlaced { x: usize, y: usize },
    GameWon,
    GameLost,
}

/// The id of one subscription.
pub type ObserverId = usize;

/// The listeners of each event, by subscription id, in the order in which
/// they subscribed.
pub struct Observer {
    next_id: ObserverId,
    turn: Vec<ObserverId>,
    field_opened: Vec<ObserverId>,
    flag_placed: Vec<ObserverId>,
    game_won: Vec<ObserverId>,
    game_lost: Vec<ObserverId>,
}

/// `after` is `before` with `id` subscribed to `e`: `id` is the next id,
/// appended to the listeners of `e`; no other event changes.
pub open spec fn subscribed(before: Observer, after: Observer, e: Event, id: ObserverId) -> bool {
    &&& id == before.id_counter()
    &&& after.id_counter() == before.id_counter() + 1
    &&& after.listeners(e) == before.listeners(e).push(id)
    &&& forall|o: Event| o != e ==> #[trigger] after.listeners(o) == before.listeners(o)
}

/// `after` is `before` with every subscription `id` of `e` removed; no other
/// event changes and no id is issued.
pub open spec fn unsubscribed(before: Observer, after: Observer, e: Event, id: ObserverId) -> bool {
    &&& after.id_counter() == before.id_counter()
    &&& after.listeners(e) == before.listeners(e).filter(other_than(id))
    &&& forall|o: Event| o != e ==> #[trigger] after.listeners(o) == before.listeners(o)
}

/// Holds of every id but `id`.
pub open spec fn other_than(id: ObserverId) -> spec_fn(ObserverId) -> bool {
    |x: ObserverId| x != id
}

/// The calls that notifying `e` with `data` makes: each listener of `e`, in
/// order, with `data`.
pub open spec fn deliveries(o: Observer, e: Event, data: EventData) -> Seq<(ObserverId, EventData)> {
    o.listeners(e).map_values(|id: ObserverId| (id, data))
}

impl Observer {
    /// The ids subscribed to `e`, oldest first.
    pub closed spec fn listeners(self, e: Event) -> Seq<ObserverId> {
        match e {
            Event::Turn => self.turn@,
            Event::FieldOpened => self.field_opened@,
            Event::FlagPlaced => self.flag_placed@,
            Event::GameWon => self.game_won@,
            Event::GameLost => self.game_lost@,
        }
    }

    /// The id that the next subscription receives.
    pub closed spec fn id_counter(self) -> nat {
        self.next_id as nat
    }

    /// Every listed id was issued before, and each event lists its ids in
    /// increasing order (so without repetition).
    pub open spec fn wf(self) -> bool {
        &&& forall|e: Event, i: int|
            0 <= i < self.listeners(e).len() ==> #[trigger] self.listeners(e)[i] < self.id_counter()
        &&& forall|e: Event, i: int, j: int|
            0 <= i < j < self.listeners(e).len() ==> #[trigger] self.listeners(e)[i] < #[trigger] self.listeners(e)[j]
    }

    /// An observer without listeners, whose first id is zero.
    pub fn new() -> (o: Self)
        ensures
            o.wf(),
            o.id_counter() == 0,
            forall|e: Event| #[trigger] o.listeners(e) == Seq::<ObserverId>::empty(),
    {
        Observer {
            next_id: 0,
            turn: Vec::new(),
            field_opened: Vec::new(),
            flag_placed: Vec::new(),
            game_won: Vec::new(),
            game_lost: Vec::new(),
        }
    }

    /// Subscribes a new listener to `event_type` and returns its id, which no
    /// listener held before.
    pub fn subscribe(&mut self, event_type: Event) -> (id: ObserverId)
        requires
            old(self).wf(),
            old(self).id_counter() < usize::MAX,
        ensures
            final(self).wf(),
            subscribed(*old(self), *final(self), event_type, id),
            forall|o: Event| !(#[trigger] old(self).listeners(o)).contains(id),
    {
        let id = self.next_id;
        self.next_id = self.next_id + 1;
        match event_type {
            Event::Turn => self.turn.push(id),
            Event::FieldOpened => self.field_opened.push(id),
            Event::FlagPlaced => self.flag_placed.push(id),
            Event::GameWon => self.game_won.push(id),
            Event::GameLost => self.game_lost.push(id),
        }
        proof {
            assert forall|o: Event| !(#[trigger] old(self).listeners(o)).contains(id) by {
                if old(self).listeners(o).contains(id) {
                    let i = choose|i: int| 0 <= i < old(self).listeners(o).len() && old(self).listeners(o)[i] == id;
                    assert(old(self).listeners(o)[i] < old(self).id_counter());
                }
            }
            assert forall|e: Event, i: int| 0 <= i < self.listeners(e).len() implies #[trigger] self.listeners(e)[i] < self.id_counter() by {
                if e != event_type || i < old(self).listeners(e).len() {
                    assert(self.listeners(e)[i] == old(self).listeners(e)[i]);
                }
            }
            assert forall|e: Event, i: int, j: int| 0 <= i < j < self.listeners(e).len() implies #[trigger] self.listeners(e)[i] < #[trigger] self.listeners(e)[j] by {
                assert(self.listeners(e)[i] == old(self).listeners(e)[i]);
                if e != event_type || j < old(self).listeners(e).len() {
                    assert(self.listeners(e)[j] == old(self).listeners(e)[j]);
                }
            }
        }
        id
    }

    /// Removes the subscription `id` from `event_type`; other events keep
    /// their listeners.
    pub fn unsubscribe(&mut self, event_type: &Event, id: ObserverId)
        requires
            old(self).wf(),
        ensures
            final(self).wf(),
            unsubscribed(*old(self), *final(self), *event_type, id),
            !final(self).listeners(*event_type).contains(id),
    {
        match event_type {
            Event::Turn => {
                let kept = ids_without(&self.turn, id);
                self.turn = kept;
            },
            Event::FieldOpened => {
                let kept = ids_without(&self.field_opened, id);
                self.field_opened = kept;
            },
            Event::FlagPlaced => {
                let kept = ids_without(&self.flag_placed, id);
                self.flag_placed = kept;
            },
            Event::GameWon => {
                let kept = ids_without(&self.game_won, id);
                self.game_won = kept;
            },
            Event::GameLost => {
                let kept = ids_without(&self.game_lost, id);
                self.game_lost = kept;
            },
        }
        proof {
            let e = *event_type;
            let before = old(self).listeners(e);
            assert(old(self).wf());
            lemma_filter_increasing(before, id, old(self).id_counter());
            assert forall|o: Event, i: int| 0 <= i < self.listeners(o).len() implies #[trigger] self.listeners(o)[i] < self.id_counter() by {
                if o != e {
                    assert(self.listeners(o)[i] == old(self).listeners(o)[i]);
                }
            }
            assert forall|o: Event, i: int, j: int| 0 <= i < j < self.listeners(o).len() implies #[trigger] self.listeners(o)[i] < #[trigger] self.listeners(o)[j] by {
                if o != e {
                    assert(self.listeners(o)[i] == old(self).listeners(o)[i]);
                    assert(self.listeners(o)[j] == old(self).listeners(o)[j]);
                }
            }
            assert(!self.listeners(e).contains(id)) by {
                if self.listeners(e).contains(id) {
                    let i = choose|i: int| 0 <= i < self.listeners(e).len() && self.listeners(e)[i] == id;
                    before.lemma_filter_pred(other_than(id), i);
                }
            }
        }
    }

    /// The id that the next subscription receives.
    pub fn next_id(&self) -> (id: ObserverId)
        ensures
            id == self.id_counter(),
    {
        self.next_id
    }

    /// The calls that notifying `event_type` with `data` makes: one per
    /// listener of `event_type`, in the order of subscription.
    pub fn notify(&self, event_type: &Event, data: EventData) -> (calls: Vec<(ObserverId, EventData)>)
        ensures
            calls@ == deliveries(*self, *event_type, data),
    {
        let ids = match event_type {
            Event::Turn => &self.turn,
            Event::FieldOpened => &self.field_opened,
            Event::FlagPlaced => &self.flag_placed,
            Event::GameWon => &self.game_won,
            Event::GameLost => &self.game_lost,
        };
        let mut calls: Vec<(ObserverId, EventData)> = Vec::new();
        let mut i: usize = 0;
        while i < ids.len()
            invariant
                ids@ == self.listeners(*event_type),
                i <= ids@.len(),
                calls@ == ids@.take(i as int).map_values(|id: ObserverId| (id, data)),
            decreases ids@.len() - i,
        {
            calls.push((ids[i], data));
            assert(ids@.take(i + 1) =~= ids@.take(i as int).push(ids@[i as int]));
            i = i + 1;
        }
        assert(ids@.take(i as int) =~= ids@);
        calls
    }
}

/// The ids of `ids` other than `id`, in order.
fn ids_without(ids: &Vec<ObserverId>, id: ObserverId) -> (kept: Vec<ObserverId>)
    ensures
        kept@ == ids@.filter(other_than(id)),
{
    let mut kept: Vec<ObserverId> = Vec::new();
    let mut i: usize = 0;
    while i < ids.len()
        invariant
            i <= ids@.len(),
            kept@ == ids@.take(i as int).filter(other_than(id)),
        decreases ids@.len() - i,
    {
        proof {
            reveal(Seq::filter);
            assert(ids@.take(i + 1).drop_last() =~= ids@.take(i as int));
        }
        if ids[i] != id {
            kept.push(ids[i]);
        }
        i = i + 1;
    }
    assert(ids@.take(i as int) =~= ids@);
    kept
}

/// Filtering out an id that does not occur leaves the sequence as it is.
proof fn lemma_filter_absent(s: Seq<ObserverId>, id: ObserverId)
    requires
        !s.contains(id),
    ensures
        s.filter(other_than(id)) == s,
    decreases s.len(),
{
    reveal(Seq::filter);
    if s.len() > 0 {
        let r = s.drop_last();
        assert(!r.contains(id)) by {
            if r.contains(id) {
                let i = choose|i: int| 0 <= i < r.len() && r[i] == id;
                assert(s[i] == id);
            }
        }
        lemma_filter_absent(r, id);
        assert(s.last() != id) by {
            assert(s[s.len() - 1] == s.last());
        }
        assert(r.push(s.last()) =~= s);
    }
}

/// Unsubscribing the id that a subscription just returned gives every event
/// back the listeners it had before that subscription.
pub proof fn law_unsubscribe_undoes_subscribe(
    before: Observer,
    middle: Observer,
    after: Observer,
    e: Event,
    id: ObserverId,
)
    requires
        before.wf(),
        subscribed(before, middle, e, id),
        unsubscribed(middle, after, e, id),
    ensures
        forall|o: Event| #[trigger] after.listeners(o) == before.listeners(o),
{
    let s = before.listeners(e);
    assert(!s.contains(id)) by {
        if s.contains(id) {
            let i = choose|i: int| 0 <= i < s.len() && s[i] == id;
            assert(before.listeners(e)[i] < before.id_counter());
        }
    }
    reveal(Seq::filter);
    assert(s.push(id).drop_last() =~= s);
    lemma_filter_absent(s, id);
}

/// Unsubscribing an id that an event does not list changes nothing.
pub proof fn law_unsubscribe_absent_is_noop(before: Observer, after: Observer, e: Event, id: ObserverId)
    requires
        !before.listeners(e).contains(id),
        unsubscribed(before, after, e, id),
    ensures
        forall|o: Event| #[trigger] after.listeners(o) == before.listeners(o),
        after.id_counter() == before.id_counter(),
{
    lemma_filter_absent(before.listeners(e), id);
}

/// A new subscriber of an event is called after all earlier ones, with the
/// same data; the other events' calls do not change.
pub proof fn law_subscriber_is_notified_last(
    before: Observer,
    after: Observer,
    e: Event,
    id: ObserverId,
    data: EventData,
)
    requires
        subscribed(before, after, e, id),
    ensures
        deliveries(after, e, data) == deliveries(before, e, data).push((id, data)),
        forall|o: Event| o != e ==> #[trigger] deliveries(after, o, data) == deliveries(before, o, data),
{
    assert(deliveries(after, e, data) =~= deliveries(before, e, data).push((id, data)));
    assert forall|o: Event| o != e implies #[trigger] deliveries(after, o, data) == deliveries(before, o, data) by {
        assert(after.listeners(o) == before.listeners(o));
    }
}

/// One call on an observer, as far as its listeners are concerned:
/// a subscription to an event that returned an id, an unsubscription of an
/// id from an event, or a notification.
pub enum ObserverCall {
    Subscribe(Event, ObserverId),
    Unsubscribe(Event, ObserverId),
    Notify,
}

/// `after` is what the call `call` makes of `before`.
pub open spec fn call_step(before: Observer, after: Observer, call: ObserverCall) -> bool {
    match call {
        ObserverCall::Subscribe(e, id) => subscribed(before, after, e, id),
        ObserverCall::Unsubscribe(e, id) => unsubscribed(before, after, e, id),
        ObserverCall::Notify => after == before,
    }
}

/// `states` are the successive values of an observer under the calls
/// `calls`: `states[i + 1]` is what `calls[i]` makes of `states[i]`.
pub open spec fn is_history(states: Seq<Observer>, calls: Seq<ObserverCall>) -> bool {
    &&& states.len() == calls.len() + 1
    &&& forall|i: int| 0 <= i < calls.len() ==> call_step(states[i], states[i + 1], #[trigger] calls[i])
}

/// The number of subscriptions among the first `i` calls.
pub open spec fn subscriptions_before(calls: Seq<ObserverCall>, i: int) -> nat
    decreases i,
{
    if i <= 0 {
        0
    } else {
        subscriptions_before(calls, i - 1) + match calls[i - 1] {
            ObserverCall::Subscribe(_, _) => 1nat,
            _ => 0nat,
        }
    }
}

/// Over any mix of calls on an observer made by `Observer::new`, the ids
/// that subscriptions return are 0, 1, 2, ... in the order of the
/// subscriptions: each is the number of subscriptions before it, so they are
/// increasing and never repeat, whatever was unsubscribed in between.
pub proof fn law_ids_count_subscriptions(states: Seq<Observer>, calls: Seq<ObserverCall>)
    requires
        is_history(states, calls),
        states[0].id_counter() == 0,
    ensures
        forall|i: int| 0 <= i <= calls.len() ==> #[trigger] states[i].id_counter() == subscriptions_before(calls, i),
        forall|i: int|
            0 <= i < calls.len() && (#[trigger] calls[i] is Subscribe) ==> calls[i]->Subscribe_1
                == subscriptions_before(calls, i),
        forall|i: int, j: int|
            0 <= i < j < calls.len() && (#[trigger] calls[i] is Subscribe) && (#[trigger] calls[j] is Subscribe)
                ==> calls[i]->Subscribe_1 < calls[j]->Subscribe_1,
{
    lemma_counter_counts(states, calls, calls.len() as int);
    assert forall|i: int|
        0 <= i < calls.len() && (#[trigger] calls[i] is Subscribe) implies calls[i]->Subscribe_1
            == subscriptions_before(calls, i) by {
        assert(call_step(states[i], states[i + 1], calls[i]));
    }
    assert forall|i: int, j: int|
        0 <= i < j < calls.len() && (#[trigger] calls[i] is Subscribe) && (#[trigger] calls[j] is Subscribe)
            implies calls[i]->Subscribe_1 < calls[j]->Subscribe_1 by {
        assert(call_step(states[i], states[i + 1], calls[i]));
        assert(call_step(states[j], states[j + 1], calls[j]));
        lemma_subscriptions_grow(calls, i + 1, j);
    }
}

/// Counting subscriptions over a longer prefix gives at least as many.
proof fn lemma_subscriptions_grow(calls: Seq<ObserverCall>, i: int, j: int)
    requires
        0 <= i <= j,
    ensures
        subscriptions_before(calls, i) <= subscriptions_before(calls, j),
    decreases j - i,
{
    if i < j {
        lemma_subscriptions_grow(calls, i, j - 1);
    }
}

/// Along a history from a fresh counter, the counter is the number of
/// subscriptions so far.
proof fn lemma_counter_counts(states: Seq<Observer>, calls: Seq<ObserverCall>, k: int)
    requires
        is_history(states, calls),
        states[0].id_counter() == 0,
        0 <= k <= calls.len(),
    ensures
        forall|i: int| 0 <= i <= k ==> #[trigger] states[i].id_counter() == subscriptions_before(calls, i),
    decreases k,
{
    if k > 0 {
        lemma_counter_counts(states, calls, k - 1);
        assert(call_step(states[k - 1], states[k], calls[k - 1]));
    }
}

/// Each call keeps an observer well formed.
proof fn lemma_step_keeps_wf(before: Observer, after: Observer, call: ObserverCall)
    requires
        before.wf(),
        call_step(before, after, call),
    ensures
        after.wf(),
{
    match call {
        ObserverCall::Subscribe(e, id) => {
            assert forall|o: Event, i: int| 0 <= i < after.listeners(o).len() implies #[trigger] after.listeners(o)[i] < after.id_counter() by {
                if o != e || i < before.listeners(o).len() {
                    assert(after.listeners(o)[i] == before.listeners(o)[i]);
                }
            }
            assert forall|o: Event, i: int, j: int| 0 <= i < j < after.listeners(o).len() implies #[trigger] after.listeners(o)[i] < #[trigger] after.listeners(o)[j] by {
                assert(after.listeners(o)[i] == before.listeners(o)[i]);
                if o != e || j < before.listeners(o).len() {
                    assert(after.listeners(o)[j] == before.listeners(o)[j]);
                }
            }
        },
        ObserverCall::Unsubscribe(e, id) => {
            lemma_filter_increasing(before.listeners(e), id, before.id_counter());
            assert forall|o: Event, i: int| 0 <= i < after.listeners(o).len() implies #[trigger] after.listeners(o)[i] < after.id_counter() by {
                if o != e {
                    assert(after.listeners(o)[i] == before.listeners(o)[i]);
                }
            }
            assert forall|o: Event, i: int, j: int| 0 <= i < j < after.listeners(o).len() implies #[trigger] after.listeners(o)[i] < #[trigger] after.listeners(o)[j] by {
                if o != e {
                    assert(after.listeners(o)[i] == before.listeners(o)[i]);
                    assert(after.listeners(o)[j] == before.listeners(o)[j]);
                }
            }
        },
        ObserverCall::Notify => {},
    }
}

/// A listed id stays listed under every call but its own unsubscription.
proof fn lemma_step_keeps_listener(before: Observer, after: Observer, call: ObserverCall, e: Event, id: ObserverId)
    requires
        before.listeners(e).contains(id),
        call_step(before, after, call),
        call != ObserverCall::Unsubscribe(e, id),
    ensures
        after.listeners(e).contains(id),
{
    let s = before.listeners(e);
    let i = choose|i: int| 0 <= i < s.len() && s[i] == id;
    match call {
        ObserverCall::Subscribe(f, new_id) => {
            if f == e {
                assert(after.listeners(e)[i] == id);
            }
        },
        ObserverCall::Unsubscribe(f, gone) => {
            if f == e {
                assert(gone != id);
                s.lemma_filter_contains(other_than(gone), i);
            }
        },
        ObserverCall::Notify => {},
    }
}

/// Along a history, the observer stays well formed, and a subscription
/// stays listed until its own unsubscription.
proof fn lemma_history_keeps(
    states: Seq<Observer>,
    calls: Seq<ObserverCall>,
    i: int,
    e: Event,
    id: ObserverId,
    k: int,
)
    requires
        is_history(states, calls),
        states[0].wf(),
        0 <= i < k <= calls.len(),
        calls[i] == ObserverCall::Subscribe(e, id),
        forall|j: int| i < j < k ==> #[trigger] calls[j] != ObserverCall::Unsubscribe(e, id),
    ensures
        states[k].wf(),
        states[k].listeners(e).contains(id),
    decreases k,
{
    if k == i + 1 {
        lemma_history_wf(states, calls, i);
        assert(call_step(states[i], states[i + 1], calls[i]));
        lemma_step_keeps_wf(states[i], states[i + 1], calls[i]);
        let s = states[k].listeners(e);
        assert(s[s.len() - 1] == id);
    } else {
        lemma_history_keeps(states, calls, i, e, id, k - 1);
        assert(call_step(states[k - 1], states[k], calls[k - 1]));
        lemma_step_keeps_wf(states[k - 1], states[k], calls[k - 1]);
        lemma_step_keeps_listener(states[k - 1], states[k], calls[k - 1], e, id);
    }
}

/// Along a history from a well formed observer, every state is well formed.
proof fn lemma_history_wf(states: Seq<Observer>, calls: Seq<ObserverCall>, k: int)
    requires
        is_history(states, calls),
        states[0].wf(),
        0 <= k <= calls.len(),
    ensures
        states[k].wf(),
    decreases k,
{
    if k > 0 {
        lemma_history_wf(states, calls, k - 1);
        assert(call_step(states[k - 1], states[k], calls[k - 1]));
        lemma_step_keeps_wf(states[k - 1], states[k], calls[k - 1]);
    }
}

/// Once `id` has subscribed to `e`, and until it unsubscribes from `e`,
/// every notification of `e` calls it exactly once, with the data given,
/// after every listener of smaller id (those that subscribed before it and
/// are still listed) and before every listener of larger id (those that
/// subscribed after it).
pub proof fn law_subscriber_stays_in_order(
    states: Seq<Observer>,
    calls: Seq<ObserverCall>,
    i: int,
    e: Event,
    id: ObserverId,
    k: int,
    data: EventData,
)
    requires
        is_history(states, calls),
        states[0].wf(),
        0 <= i < k <= calls.len(),
        calls[i] == ObserverCall::Subscribe(e, id),
        forall|j: int| i < j < k ==> #[trigger] calls[j] != ObserverCall::Unsubscribe(e, id),
    ensures
        exists|p: int|
            {
                &&& 0 <= p < states[k].listeners(e).len()
                &&& #[trigger] states[k].listeners(e)[p] == id
                &&& deliveries(states[k], e, data)[p] == (id, data)
                &&& forall|q: int| 0 <= q < p ==> #[trigger] states[k].listeners(e)[q] < id
                &&& forall|q: int| p < q < states[k].listeners(e).len() ==> #[trigger] states[k].listeners(e)[q] > id
            },
{
    lemma_history_keeps(states, calls, i, e, id, k);
    let s = states[k].listeners(e);
    let p = choose|p: int| 0 <= p < s.len() && s[p] == id;
    assert(deliveries(states[k], e, data)[p] == (id, data));
    assert forall|q: int| 0 <= q < p implies #[trigger] s[q] < id by {
        assert(s[q] < s[p]);
    }
    assert forall|q: int| p < q < s.len() implies #[trigger] s[q] > id by {
        assert(s[p] < s[q]);
    }
}

/// Removing ids from an increasing sequence of ids below a bound leaves an
/// increasing sequence of ids below that bound.
proof fn lemma_filter_increasing(s: Seq<ObserverId>, id: ObserverId, bound: nat)
    requires
        forall|i: int| 0 <= i < s.len() ==> #[trigger] s[i] < bound,
        forall|i: int, j: int| 0 <= i < j < s.len() ==> #[trigger] s[i] < #[trigger] s[j],
    ensures
        forall|i: int|
            0 <= i < s.filter(other_than(id)).len() ==> #[trigger] s.filter(other_than(id))[i] < bound,
        forall|i: int, j: int|
            0 <= i < j < s.filter(other_than(id)).len() ==> #[trigger] s.filter(other_than(id))[i]
                < #[trigger] s.filter(other_than(id))[j],
    decreases s.len(),
{
    reveal(Seq::filter);
    if s.len() > 0 {
        let r = s.drop_last();
        let last = s.last();
        assert forall|i: int| 0 <= i < r.len() implies #[trigger] r[i] < last as nat by {
            assert(r[i] == s[i]);
        }
        assert forall|i: int, j: int| 0 <= i < j < r.len() implies #[trigger] r[i] < #[trigger] r[j] by {
            assert(r[i] == s[i] && r[j] == s[j]);
        }
        lemma_filter_increasing(r, id, last as nat);
        let f0 = r.filter(other_than(id));
        let f = s.filter(other_than(id));
        if last != id {
            assert(f == f0.push(last));
            assert forall|i: int| 0 <= i < f.len() implies #[trigger] f[i] < bound by {
                if i < f0.len() {
                    assert(f[i] == f0[i]);
                }
            }
            assert forall|i: int, j: int| 0 <= i < j < f.len() implies #[trigger] f[i] < #[trigger] f[j] by {
                assert(f[i] == f0[i]);
                if j < f0.len() {
                    assert(f[j] == f0[j]);
                }
            }
        } else {
            assert(f == f0);
        }
    }
}

} // verus!
