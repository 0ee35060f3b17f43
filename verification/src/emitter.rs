//! Who is told what happens on the connections.

use crate::models::{
    own_text, text_view, MessageEventView, WebsocketEvent, WebsocketMessageEvent,
};
use vstd::prelude::*;

verus! {

/// Someone who is told.
pub type SubscriberId = u64;

/// The subscribers that an event reached, in their order.
pub open spec fn reached(subscribers: Seq<SubscriberId>, delivered: Seq<bool>) -> Seq<SubscriberId>
    recommends
        subscribers.len() == delivered.len(),
    decreases subscribers.len(),
{
    if subscribers.len() == 0 {
        Seq::empty()
    } else {
        let front = reached(subscribers.drop_last(), delivered.drop_last());
        if delivered.last() {
            front.push(subscribers.last())
        } else {
            front
        }
    }
}

/// An event reaches each of its subscribers: all of them stay.
pub proof fn law_reached_all(subscribers: Seq<SubscriberId>, delivered: Seq<bool>)
    requires
        subscribers.len() == delivered.len(),
        forall|i: int| 0 <= i < delivered.len() ==> #[trigger] delivered[i],
    ensures
        reached(subscribers, delivered) == subscribers,
    decreases subscribers.len(),
{
    if subscribers.len() > 0 {
        assert(delivered[delivered.len() - 1]);
        assert forall|i: int| 0 <= i < delivered.drop_last().len() implies #[trigger] delivered.drop_last()[i] by {
            assert(delivered[i]);
        }
        law_reached_all(subscribers.drop_last(), delivered.drop_last());
        assert(subscribers.drop_last().push(subscribers.last()) =~= subscribers);
    }
}

/// An event that does not reach a subscriber takes that subscriber off the
/// list, and no other.
pub proof fn law_reached_members(
    subscribers: Seq<SubscriberId>,
    delivered: Seq<bool>,
    subscriber: SubscriberId,
)
    requires
        subscribers.len() == delivered.len(),
    ensures
        reached(subscribers, delivered).contains(subscriber) <==> exists|i: int|
            0 <= i < subscribers.len() && #[trigger] subscribers[i] == subscriber && delivered[i],
    decreases subscribers.len(),
{
    if subscribers.len() > 0 {
        let (s, d) = (subscribers.drop_last(), delivered.drop_last());
        law_reached_members(s, d, subscriber);
        let front = reached(s, d);
        if exists|i: int|
            0 <= i < subscribers.len() && #[trigger] subscribers[i] == subscriber && delivered[i] {
            let i = choose|i: int|
                0 <= i < subscribers.len() && #[trigger] subscribers[i] == subscriber
                    && delivered[i];
            if i < s.len() {
                assert(s[i] == subscriber && d[i]);
                assert(front.contains(subscriber));
                let k = choose|k: int| 0 <= k < front.len() && front[k] == subscriber;
                assert(reached(subscribers, delivered)[k] == subscriber);
            } else {
                assert(reached(subscribers, delivered)[front.len() as int] == subscriber);
            }
        }
        if reached(subscribers, delivered).contains(subscriber) {
            let all = reached(subscribers, delivered);
            let k = choose|k: int| 0 <= k < all.len() && all[k] == subscriber;
            if k < front.len() {
                assert(front[k] == subscriber);
                assert(front.contains(subscriber));
                let i = choose|i: int|
                    0 <= i < s.len() && #[trigger] s[i] == subscriber && d[i];
                assert(subscribers[i] == subscriber && delivered[i]);
            } else {
                assert(subscribers[subscribers.len() - 1] == subscriber);
            }
        }
    }
}

fn keep_reached(subscribers: &Vec<SubscriberId>, delivered: &Vec<bool>) -> (result: Vec<
    SubscriberId,
>)
    requires
        subscribers.len() == delivered.len(),
    ensures
        result@ == reached(subscribers@, delivered@),
{
    let mut result: Vec<SubscriberId> = Vec::new();
    let mut i: usize = 0;
    while i < subscribers.len()
        invariant
            i <= subscribers.len(),
            subscribers.len() == delivered.len(),
            result@ == reached(subscribers@.take(i as int), delivered@.take(i as int)),
        decreases subscribers.len() - i,
    {
        proof {
            assert(subscribers@.take(i + 1).drop_last() =~= subscribers@.take(i as int));
            assert(delivered@.take(i + 1).drop_last() =~= delivered@.take(i as int));
        }
        if delivered[i] {
            result.push(subscribers[i]);
        }
        i += 1;
    }
    proof {
        assert(subscribers@.take(i as int) =~= subscribers@);
        assert(delivered@.take(i as int) =~= delivered@);
    }
    result
}

/// The subscribers to what happens on the connections.
pub struct WebsocketEventEmitter {
    pub subscribers: Vec<SubscriberId>,
}

impl View for WebsocketEventEmitter {
    type V = Seq<SubscriberId>;

    open spec fn view(&self) -> Seq<SubscriberId> {
        self.subscribers@
    }
}

impl Default for WebsocketEventEmitter {
    fn default() -> (result: Self)
        ensures
            result@ == Seq::<SubscriberId>::empty(),
    {
        Self::new()
    }
}

impl WebsocketEventEmitter {
    /// Nobody is told.
    #[must_use]
    pub fn new() -> (result: Self)
        ensures
            result@ == Seq::<SubscriberId>::empty(),
    {
        WebsocketEventEmitter { subscribers: Vec::new() }
    }

    /// Adds a subscriber behind the ones there are.
    pub fn subscribe(&mut self, subscriber: SubscriberId)
        ensures
            final(self)@ == old(self)@.push(subscriber),
    {
        self.subscribers.push(subscriber);
    }

    /// The deliveries of an event: the event itself, to each subscriber.
    pub fn emit(&self, event: &WebsocketEvent) -> (result: Vec<(SubscriberId, WebsocketEvent)>)
        ensures
            result.deep_view() == self@.map_values(
                |subscriber: SubscriberId| (subscriber, event@),
            ),
    {
        let mut result: Vec<(SubscriberId, WebsocketEvent)> = Vec::new();
        let mut i: usize = 0;
        while i < self.subscribers.len()
            invariant
                i <= self.subscribers.len(),
                result.len() == i,
                forall|j: int|
                    0 <= j < i ==> (#[trigger] result[j]).0 == self@[j] && result[j].1@ == event@,
            decreases self.subscribers.len() - i,
        {
            result.push((self.subscribers[i], event.clone()));
            i += 1;
        }
        proof {
            assert(result.deep_view() =~= self@.map_values(
                |subscriber: SubscriberId| (subscriber, event@),
            ));
        }
        result
    }

    /// Drops the subscribers that an event did not reach.
    pub fn retain_reached(&mut self, delivered: &Vec<bool>)
        requires
            delivered.len() == old(self)@.len(),
        ensures
            final(self)@ == reached(old(self)@, delivered@),
    {
        self.subscribers = keep_reached(&self.subscribers, delivered);
    }
}

/// The time of a message in milliseconds since the epoch, kept in the range of
/// `i64`. A time before the epoch counts as the epoch.
pub open spec fn clamped_time(since_epoch_ms: Option<u128>) -> i64 {
    match since_epoch_ms {
        Some(ms) => if ms <= i64::MAX {
            ms as i64
        } else {
            i64::MAX
        },
        None => 0,
    }
}

/// The subscribers to text messages.
pub struct WebsocketMessageEventEmitter {
    pub subscribers: Vec<SubscriberId>,
}

impl View for WebsocketMessageEventEmitter {
    type V = Seq<SubscriberId>;

    open spec fn view(&self) -> Seq<SubscriberId> {
        self.subscribers@
    }
}

impl WebsocketMessageEventEmitter {
    /// Nobody is told.
    pub fn new() -> (result: Self)
        ensures
            result@ == Seq::<SubscriberId>::empty(),
    {
        WebsocketMessageEventEmitter { subscribers: Vec::new() }
    }

    /// Adds a subscriber behind the ones there are.
    pub fn subscribe(&mut self, subscriber: SubscriberId)
        ensures
            final(self)@ == old(self)@.push(subscriber),
    {
        self.subscribers.push(subscriber);
    }

    /// The deliveries of a message: its event, to each subscriber.
    pub fn emit(
        &self,
        payload: &str,
        connection_id: &str,
        url_path: Option<&str>,
        since_epoch_ms: Option<u128>,
    ) -> (result: Vec<(SubscriberId, WebsocketMessageEvent)>)
        ensures
            result.deep_view() == self@.map_values(
                |subscriber: SubscriberId|
                    (
                        subscriber,
                        MessageEventView {
                            payload: payload@,
                            connection_id: connection_id@,
                            url_path: text_view(url_path),
                            received_at_ms: clamped_time(since_epoch_ms),
                        },
                    ),
            ),
    {
        let limit: u128 = 0x7fff_ffff_ffff_ffff;
        let received_at_ms: i64 = match since_epoch_ms {
            Some(ms) => if ms <= limit {
                ms as i64
            } else {
                i64::MAX
            },
            None => 0,
        };
        let event = WebsocketMessageEvent {
            payload: payload.to_owned(),
            connection_id: connection_id.to_owned(),
            url_path: own_text(url_path),
            received_at_ms,
        };
        let mut result: Vec<(SubscriberId, WebsocketMessageEvent)> = Vec::new();
        let mut i: usize = 0;
        while i < self.subscribers.len()
            invariant
                i <= self.subscribers.len(),
                result.len() == i,
                forall|j: int|
                    0 <= j < i ==> (#[trigger] result[j]).0 == self@[j] && result[j].1@ == event@,
            decreases self.subscribers.len() - i,
        {
            result.push((self.subscribers[i], event.clone()));
            i += 1;
        }
        proof {
            assert(result.deep_view() =~= self@.map_values(
                |subscriber: SubscriberId| (subscriber, event@),
            ));
        }
        result
    }

    /// Drops the subscribers that a message did not reach.
    pub fn retain_reached(&mut self, delivered: &Vec<bool>)
        requires
            delivered.len() == old(self)@.len(),
        ensures
            final(self)@ == reached(old(self)@, delivered@),
    {
        self.subscribers = keep_reached(&self.subscribers, delivered);
    }
}

} // verus!
