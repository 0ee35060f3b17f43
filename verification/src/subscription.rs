//! Following streams and letting go of them.

use crate::common::CommonView;
use crate::connection::{CallbackId, ConnectionStateView, ConnectionView};
use crate::json::{json_parse, request_document, request_text};
use crate::models::{
    clone_id, normalize_stream_id, normalized_id, text_view, StreamId, StreamIdView,
};
use crate::streams::{key_of, StreamsView, WebsocketStreams};
use vstd::prelude::*;

verus! {

/// A stream and the connection that it is followed on.
pub type Assigned = (Seq<char>, usize);

/// The streams that are followed on the connection at `place`, in order.
pub open spec fn streams_on(assigned: Seq<Assigned>, place: int) -> Seq<Seq<char>>
    decreases assigned.len(),
{
    if assigned.len() == 0 {
        Seq::empty()
    } else {
        let front = streams_on(assigned.drop_last(), place);
        if assigned.last().1 == place {
            front.push(assigned.last().0)
        } else {
            front
        }
    }
}

/// The connections that streams are followed on, each once, in the order of
/// their first streams.
pub open spec fn places_of(assigned: Seq<Assigned>) -> Seq<usize>
    decreases assigned.len(),
{
    if assigned.len() == 0 {
        Seq::empty()
    } else {
        let front = places_of(assigned.drop_last());
        if front.contains(assigned.last().1) {
            front
        } else {
            front.push(assigned.last().1)
        }
    }
}

/// The connections that streams are followed on, each with its streams.
pub open spec fn grouped(assigned: Seq<Assigned>) -> Seq<(usize, Seq<Seq<char>>)> {
    places_of(assigned).map_values(|place: usize| (place, streams_on(assigned, place as int)))
}

impl ConnectionStateView {
    /// The connection has a list of callbacks for the key, if only an empty one.
    pub open spec fn listening(self, key: Seq<char>) -> ConnectionStateView {
        if self.stream_callbacks.contains_key(key) {
            self
        } else {
            ConnectionStateView {
                stream_callbacks: self.stream_callbacks.insert(key, Seq::empty()),
                ..self
            }
        }
    }

    /// Somebody is waiting for the messages of the key.
    pub open spec fn has_callbacks(self, key: Seq<char>) -> bool {
        self.stream_callbacks.contains_key(key) && self.stream_callbacks[key].len() > 0
    }

    /// The connection has no list of callbacks for the key.
    pub open spec fn not_listening(self, key: Seq<char>) -> ConnectionStateView {
        ConnectionStateView { stream_callbacks: self.stream_callbacks.remove(key), ..self }
    }

    /// The streams are to be asked for once the connection is open.
    pub open spec fn queueing(self, streams: Seq<Seq<char>>) -> ConnectionStateView {
        ConnectionStateView {
            pending_subscriptions: self.pending_subscriptions + streams,
            ..self
        }
    }
}

impl StreamsView {
    /// The stream of the key is not followed, or on a connection that is being
    /// closed or is lost.
    pub open spec fn needs_connection(self, key: Seq<char>) -> bool {
        ||| !self.connection_streams.contains_key(key)
        ||| self.common.state(self.connection_streams[key] as int).close_initiated
        ||| self.common.state(self.connection_streams[key] as int).reconnection_pending
    }

    /// The connection that the stream is to be followed on: the one it is
    /// followed on, or else the one whose turn it is.
    pub open spec fn assigned_place(self, stream: Seq<char>, url_path: Option<Seq<char>>) -> Option<
        usize,
    > {
        if !self.needs_connection(key_of(stream, url_path)) {
            Some(self.connection_streams[key_of(stream, url_path)])
        } else if self.common.candidates(true, url_path).len() > 0 {
            Some(self.common.next_candidate(true, url_path) as usize)
        } else {
            None
        }
    }

    /// The client once the stream is assigned to its connection.
    pub open spec fn after_assignment(
        self,
        stream: Seq<char>,
        url_path: Option<Seq<char>>,
    ) -> StreamsView {
        let key = key_of(stream, url_path);
        match self.assigned_place(stream, url_path) {
            None => self,
            Some(place) => {
                let moved = if self.needs_connection(key) {
                    StreamsView {
                        common: self.common.turned(),
                        connection_streams: self.connection_streams.insert(key, place),
                        ..self
                    }
                } else {
                    self
                };
                moved.with_common(
                    moved.common.with_state(
                        place as int,
                        moved.common.state(place as int).listening(key),
                    ),
                )
            },
        }
    }

    /// The client once the streams are assigned, one after the other.
    pub open spec fn after_assignments(
        self,
        streams: Seq<Seq<char>>,
        url_path: Option<Seq<char>>,
    ) -> StreamsView
        decreases streams.len(),
    {
        if streams.len() == 0 {
            self
        } else {
            self.after_assignments(streams.drop_last(), url_path).after_assignment(
                streams.last(),
                url_path,
            )
        }
    }

    /// The streams that find a connection, in order, each with its connection.
    pub open spec fn assignments(
        self,
        streams: Seq<Seq<char>>,
        url_path: Option<Seq<char>>,
    ) -> Seq<Assigned>
        decreases streams.len(),
    {
        if streams.len() == 0 {
            Seq::empty()
        } else {
            let front = self.assignments(streams.drop_last(), url_path);
            match self.after_assignments(streams.drop_last(), url_path).assigned_place(
                streams.last(),
                url_path,
            ) {
                Some(place) => front.push((streams.last(), place)),
                None => front,
            }
        }
    }
}

impl StreamsView {
    /// The streams among the given ones that are not followed.
    pub open spec fn unfollowed(
        self,
        streams: Seq<Seq<char>>,
        url_path: Option<Seq<char>>,
    ) -> Seq<Seq<char>> {
        streams.filter(
            |stream: Seq<char>|
                !self.connection_streams.contains_key(key_of(stream, url_path)),
        )
    }

    /// The client once every connection that cannot be used keeps its streams
    /// for later.
    pub open spec fn with_queued(self, assigned: Seq<Assigned>) -> StreamsView {
        self.with_common(
            CommonView {
                pool: Seq::new(
                    self.common.pool.len(),
                    |i: int|
                        if self.common.state(i).ready(false) {
                            self.common.pool[i]
                        } else {
                            ConnectionView {
                                state: self.common.state(i).queueing(streams_on(assigned, i)),
                                ..self.common.pool[i]
                            }
                        },
                ),
                ..self.common
            },
        )
    }

    /// The groups whose connections can be used.
    pub open spec fn sendable(self, assigned: Seq<Assigned>) -> Seq<(usize, Seq<Seq<char>>)> {
        grouped(assigned).filter(
            |group: (usize, Seq<Seq<char>>)| self.common.state(group.0 as int).ready(false),
        )
    }

    /// The client once the streams are followed.
    pub open spec fn after_subscribe(
        self,
        streams: Seq<Seq<char>>,
        url_path: Option<Seq<char>>,
    ) -> StreamsView {
        let fresh = self.unfollowed(streams, url_path);
        self.after_assignments(fresh, url_path).with_queued(self.assignments(fresh, url_path))
    }

    /// The subscriptions that are asked for at once: those of the connections
    /// that can be used.
    pub open spec fn subscriptions(
        self,
        streams: Seq<Seq<char>>,
        id: Option<StreamIdView>,
        url_path: Option<Seq<char>>,
    ) -> Seq<SubscriptionRequestView> {
        let fresh = self.unfollowed(streams, url_path);
        self.after_assignments(fresh, url_path).sendable(
            self.assignments(fresh, url_path),
        ).map_values(
            |group: (usize, Seq<Seq<char>>)|
                SubscriptionRequestView { connection: group.0, streams: group.1, id },
        )
    }

    /// The stream is let go of: it is followed, on a connection that can be
    /// used, and nobody waits for its messages.
    pub open spec fn lets_go(self, stream: Seq<char>, url_path: Option<Seq<char>>) -> bool {
        let key = key_of(stream, url_path);
        &&& self.connection_streams.contains_key(key)
        &&& self.common.state(self.connection_streams[key] as int).ready(false)
        &&& !self.common.state(self.connection_streams[key] as int).has_callbacks(key)
    }

    /// The client once it was asked to let go of the stream.
    pub open spec fn after_unsubscribe_one(
        self,
        stream: Seq<char>,
        url_path: Option<Seq<char>>,
    ) -> StreamsView {
        let key = key_of(stream, url_path);
        if self.lets_go(stream, url_path) {
            let place = self.connection_streams[key] as int;
            StreamsView {
                common: self.common.with_state(
                    place,
                    self.common.state(place).not_listening(key),
                ),
                connection_streams: self.connection_streams.remove(key),
                ..self
            }
        } else {
            self
        }
    }

    /// The client once it was asked to let go of the streams, one after the
    /// other.
    pub open spec fn after_unsubscribe(
        self,
        streams: Seq<Seq<char>>,
        url_path: Option<Seq<char>>,
    ) -> StreamsView
        decreases streams.len(),
    {
        if streams.len() == 0 {
            self
        } else {
            self.after_unsubscribe(streams.drop_last(), url_path).after_unsubscribe_one(
                streams.last(),
                url_path,
            )
        }
    }

    /// The streams that are let go of, in order, each with its connection.
    pub open spec fn released(
        self,
        streams: Seq<Seq<char>>,
        url_path: Option<Seq<char>>,
    ) -> Seq<Assigned>
        decreases streams.len(),
    {
        if streams.len() == 0 {
            Seq::empty()
        } else {
            let front = self.released(streams.drop_last(), url_path);
            let before = self.after_unsubscribe(streams.drop_last(), url_path);
            if before.lets_go(streams.last(), url_path) {
                front.push(
                    (
                        streams.last(),
                        before.connection_streams[key_of(streams.last(), url_path)],
                    ),
                )
            } else {
                front
            }
        }
    }
}

/// The connections of the groups are the ones that have streams, each once.
pub proof fn lemma_places_of(assigned: Seq<Assigned>)
    ensures
        places_of(assigned).no_duplicates(),
        forall|k: int| #![trigger assigned[k]]
            0 <= k < assigned.len() ==> places_of(assigned).contains(assigned[k].1),
        forall|place: usize| #[trigger]
            places_of(assigned).contains(place) ==> exists|k: int|
                #![trigger assigned[k]]
                0 <= k < assigned.len() && assigned[k].1 == place,
    decreases assigned.len(),
{
    if assigned.len() > 0 {
        let rest = assigned.drop_last();
        let front = places_of(rest);
        let all = places_of(assigned);
        lemma_places_of(rest);
        let last = assigned.last().1;
        assert forall|k: int| #![trigger assigned[k]] 0 <= k < assigned.len() implies all.contains(
            assigned[k].1,
        ) by {
            if k < rest.len() {
                assert(rest[k] == assigned[k]);
                assert(front.contains(rest[k].1));
                let j = choose|j: int| 0 <= j < front.len() && front[j] == rest[k].1;
                assert(all[j] == rest[k].1);
            } else if !front.contains(last) {
                assert(all[front.len() as int] == last);
            }
        }
        assert forall|place: usize| #[trigger] all.contains(place) implies exists|k: int|
            #![trigger assigned[k]]
            0 <= k < assigned.len() && assigned[k].1 == place by {
            if front.contains(place) {
                let k = choose|k: int|
                    #![trigger rest[k]]
                    0 <= k < rest.len() && rest[k].1 == place;
                assert(assigned[k] == rest[k]);
            } else {
                let j = choose|j: int| 0 <= j < all.len() && all[j] == place;
                if j < front.len() {
                    assert(front[j] == place);
                }
                assert(assigned[assigned.len() - 1].1 == place);
            }
        }
    }
}

/// A connection that is not among those of the streams has none.
pub proof fn lemma_no_streams(assigned: Seq<Assigned>, place: usize)
    requires
        !places_of(assigned).contains(place),
    ensures
        streams_on(assigned, place as int) == Seq::<Seq<char>>::empty(),
    decreases assigned.len(),
{
    if assigned.len() > 0 {
        let rest = assigned.drop_last();
        lemma_places_of(assigned);
        assert(places_of(assigned).contains(assigned[assigned.len() - 1].1));
        if places_of(rest).contains(place) {
            let j = choose|j: int| 0 <= j < places_of(rest).len() && places_of(rest)[j] == place;
            assert(places_of(assigned)[j] == place);
        }
        lemma_no_streams(rest, place);
    }
}

/// One more stream joins the group of its connection, or makes up a new one.
proof fn lemma_group_step(assigned: Seq<Assigned>, stream: Seq<char>, place: usize)
    ensures
        forall|k: int|
            0 <= k < places_of(assigned).len() && #[trigger] places_of(assigned)[k] == place
                ==> grouped(assigned.push((stream, place))) == grouped(assigned).update(
                k,
                (place, grouped(assigned)[k].1.push(stream)),
            ),
        !places_of(assigned).contains(place) ==> grouped(assigned.push((stream, place))) == grouped(
            assigned,
        ).push((place, seq![stream])),
{
    let next = assigned.push((stream, place));
    let front = places_of(assigned);
    assert(next.drop_last() =~= assigned);
    lemma_places_of(assigned);
    assert forall|other: usize| other != place implies #[trigger] streams_on(next, other as int)
        == streams_on(assigned, other as int) by {}
    assert(streams_on(next, place as int) == streams_on(assigned, place as int).push(stream));
    assert forall|k: int| 0 <= k < front.len() && #[trigger] front[k] == place implies grouped(next)
        == grouped(assigned).update(k, (place, grouped(assigned)[k].1.push(stream))) by {
        assert(front.contains(place));
        assert(grouped(next) =~= grouped(assigned).update(
            k,
            (place, grouped(assigned)[k].1.push(stream)),
        ));
    }
    if !front.contains(place) {
        lemma_no_streams(assigned, place);
        assert(streams_on(next, place as int) =~= seq![stream]);
        assert(grouped(next) =~= grouped(assigned).push((place, seq![stream])));
    }
}

fn group(assigned: Vec<(String, usize)>) -> (result: Vec<(usize, Vec<String>)>)
    ensures
        result.deep_view() == grouped(assigned.deep_view()),
{
    let ghost all = assigned.deep_view();
    let mut groups: Vec<(usize, Vec<String>)> = Vec::new();
    let mut i: usize = 0;
    proof {
        assert(groups.deep_view() =~= grouped(all.take(0)));
    }
    while i < assigned.len()
        invariant
            i <= assigned.len(),
            all == assigned.deep_view(),
            groups.deep_view() == grouped(all.take(i as int)),
        decreases assigned.len() - i,
    {
        let place: usize = assigned[i].1;
        let ghost done = all.take(i as int);
        let ghost listed = groups.deep_view();
        proof {
            assert(all.take(i + 1) =~= done.push((assigned[i as int].0@, place)));
            lemma_group_step(done, assigned[i as int].0@, place);
            assert forall|j: int| 0 <= j < groups.len() implies (#[trigger] groups[j]).0
                == places_of(done)[j] by {
                assert(listed.len() == places_of(done).len());
                assert(grouped(done)[j].0 == places_of(done)[j]);
                assert(listed[j].0 == groups[j].0);
            }
        }
        let mut k: usize = 0;
        while k < groups.len() && groups[k].0 != place
            invariant
                k <= groups.len(),
                forall|j: int| 0 <= j < k ==> (#[trigger] groups[j]).0 != place,
            decreases groups.len() - k,
        {
            k += 1;
        }
        if k < groups.len() {
            let ghost streams_before = groups[k as int].1.deep_view();
            let mut streams: Vec<String> = Vec::new();
            std::mem::swap(&mut streams, &mut groups[k].1);
            streams.push(assigned[i].0.clone());
            proof {
                assert(streams.deep_view() =~= streams_before.push(assigned[i as int].0@));
            }
            groups[k].1 = streams;
            proof {
                assert(places_of(done)[k as int] == place);
                assert(listed[k as int].1 == streams_before);
                assert(groups.deep_view() =~= listed.update(
                    k as int,
                    (place, listed[k as int].1.push(assigned[i as int].0@)),
                ));
            }
        } else {
            let streams: Vec<String> = vec![assigned[i].0.clone()];
            proof {
                assert(streams.deep_view() =~= seq![assigned[i as int].0@]);
                assert(!places_of(done).contains(place));
            }
            groups.push((place, streams));
            proof {
                assert(groups.deep_view() =~= listed.push((place, seq![assigned[i as int].0@])));
            }
        }
        i += 1;
    }
    proof {
        assert(all.take(i as int) =~= all);
    }
    groups
}

/// A subscription that is to be asked for.
#[derive(Debug)]
pub struct SubscriptionRequest {
    pub connection: usize,
    pub streams: Vec<String>,
    pub id: Option<StreamId>,
}

/// A subscription that is to be asked for, as a mathematical value.
pub struct SubscriptionRequestView {
    pub connection: usize,
    pub streams: Seq<Seq<char>>,
    pub id: Option<StreamIdView>,
}

impl View for SubscriptionRequest {
    type V = SubscriptionRequestView;

    open spec fn view(&self) -> SubscriptionRequestView {
        SubscriptionRequestView {
            connection: self.connection,
            streams: self.streams.deep_view(),
            id: self.id.deep_view(),
        }
    }
}

impl DeepView for SubscriptionRequest {
    type V = SubscriptionRequestView;

    open spec fn deep_view(&self) -> SubscriptionRequestView {
        self@
    }
}

/// A text that is to be sent on a connection.
#[derive(Debug)]
pub struct StreamMessage {
    pub connection: usize,
    pub payload: String,
}

impl WebsocketStreams {
    /// Assigns the stream to the connection that it is followed on, or else to
    /// the one whose turn it is, where there is one.
    fn assign_stream(&mut self, stream: &String, url_path: Option<&str>) -> (result: Option<usize>)
        requires
            old(self)@.wf(),
        ensures
            result == old(self)@.assigned_place(stream@, text_view(url_path)),
            result is Some ==> old(self)@.common.holds(result->0),
            final(self)@ == old(self)@.after_assignment(stream@, text_view(url_path)),
            final(self)@.wf(),
            final(self)@.common.pool.len() == old(self)@.common.pool.len(),
    {
        let key = self.stream_key(stream.as_str(), url_path);
        let ghost before = self@;
        let known = match self.connection_streams.get(&key) {
            Some(place) => Some(*place),
            None => None,
        };
        proof {
            if before.connection_streams.contains_key(key@) {
                assert(before.common.holds(before.connection_streams[key@]));
            }
        }
        let mut chosen: usize = 0;
        let mut need_new = true;
        if let Some(place) = known {
            chosen = place;
            need_new = self.common.connection_pool[place].state.close_initiated
                || self.common.connection_pool[place].state.reconnection_pending;
        }
        if need_new {
            match self.common.get_connection(true, url_path) {
                Ok(place) => {
                    chosen = place;
                },
                Err(_) => {
                    proof {
                        assert(self@ =~= before);
                    }
                    return None;
                },
            }
            self.connection_streams.insert(key.clone(), chosen);
        }
        let ghost moved = self@;
        proof {
            assert(moved.wf());
            assert(moved.common.holds(chosen));
        }
        if !self.common.connection_pool[chosen].state.stream_callbacks.contains_key(&key) {
            let none: Vec<CallbackId> = Vec::new();
            self.common.connection_pool[chosen].state.stream_callbacks.insert(key, none);
        }
        proof {
            assert(self@.common =~= moved.common.with_state(
                chosen as int,
                moved.common.state(chosen as int).listening(key@),
            ));
            assert(self@ =~= before.after_assignment(stream@, text_view(url_path)));
        }
        Some(chosen)
    }

    /// Assigns each stream to a connection, and groups those that found one by
    /// their connections.
    pub fn handle_stream_assignment(&mut self, streams: &Vec<String>, url_path: Option<&str>) -> (result:
        Vec<(usize, Vec<String>)>)
        requires
            old(self)@.wf(),
        ensures
            final(self)@ == old(self)@.after_assignments(streams.deep_view(), text_view(url_path)),
            final(self)@.wf(),
            final(self)@.common.pool.len() == old(self)@.common.pool.len(),
            result.deep_view() == grouped(
                old(self)@.assignments(streams.deep_view(), text_view(url_path)),
            ),
            forall|k: int|
                0 <= k < result.len() ==> old(self)@.common.holds((#[trigger] result[k]).0),
            forall|j: int, k: int|
                0 <= j < k < result.len() ==> (#[trigger] result[j]).0 != (#[trigger] result[k]).0,
    {
        let ghost before = self@;
        let ghost all = streams.deep_view();
        let ghost path = text_view(url_path);
        let mut assigned: Vec<(String, usize)> = Vec::new();
        let mut i: usize = 0;
        proof {
            assert(assigned.deep_view() =~= before.assignments(all.take(0), path));
        }
        while i < streams.len()
            invariant
                i <= streams.len(),
                all == streams.deep_view(),
                path == text_view(url_path),
                self@.wf(),
                self@.common.pool.len() == before.common.pool.len(),
                self@ == before.after_assignments(all.take(i as int), path),
                assigned.deep_view() == before.assignments(all.take(i as int), path),
                forall|k: int|
                    0 <= k < assigned.len() ==> before.common.holds((#[trigger] assigned[k]).1),
            decreases streams.len() - i,
        {
            proof {
                assert(all.take(i + 1).drop_last() =~= all.take(i as int));
                assert(all.take(i + 1).last() == streams[i as int]@);
            }
            let ghost listed = assigned.deep_view();
            if let Some(place) = self.assign_stream(&streams[i], url_path) {
                assigned.push((streams[i].clone(), place));
                proof {
                    assert(assigned.deep_view() =~= listed.push((streams[i as int]@, place)));
                }
            }
            i += 1;
        }
        proof {
            assert(all.take(i as int) =~= all);
        }
        let ghost pairs = assigned.deep_view();
        let ghost found = assigned@;
        let groups = group(assigned);
        proof {
            lemma_places_of(pairs);
            let seen = places_of(pairs);
            assert(groups.deep_view().len() == groups.len());
            assert forall|k: int| 0 <= k < groups.len() implies (#[trigger] groups[k]).0 == seen[k]
                && before.common.holds(groups[k].0) by {
                assert(groups.deep_view()[k] == grouped(pairs)[k]);
                assert(groups.deep_view()[k].0 == groups[k].0);
                assert(seen.contains(seen[k]));
                let j = choose|j: int|
                    #![trigger pairs[j]]
                    0 <= j < pairs.len() && pairs[j].1 == seen[k];
                assert(before.common.holds(found[j].1));
            }
        }
        groups
    }

    /// The streams among the given ones that are not followed.
    fn unfollowed_streams(&self, streams: Vec<String>, url_path: Option<&str>) -> (result: Vec<
        String,
    >)
        ensures
            result.deep_view() == self@.unfollowed(streams.deep_view(), text_view(url_path)),
    {
        let ghost all = streams.deep_view();
        let ghost fresh = |stream: Seq<char>|
            !self@.connection_streams.contains_key(key_of(stream, text_view(url_path)));
        let mut result: Vec<String> = Vec::new();
        let mut i: usize = 0;
        proof {
            reveal(Seq::filter);
            assert(result.deep_view() =~= all.take(0).filter(fresh));
        }
        while i < streams.len()
            invariant
                i <= streams.len(),
                all == streams.deep_view(),
                fresh == (|stream: Seq<char>|
                    !self@.connection_streams.contains_key(key_of(stream, text_view(url_path)))),
                result.deep_view() == all.take(i as int).filter(fresh),
            decreases streams.len() - i,
        {
            let key = self.stream_key(streams[i].as_str(), url_path);
            let ghost listed = result.deep_view();
            proof {
                reveal(Seq::filter);
                assert(all.take(i + 1).drop_last() =~= all.take(i as int));
                assert(all.take(i + 1).last() == streams[i as int]@);
            }
            if !self.connection_streams.contains_key(&key) {
                result.push(streams[i].clone());
                proof {
                    assert(result.deep_view() =~= listed.push(streams[i as int]@));
                }
            }
            i += 1;
        }
        proof {
            assert(all.take(i as int) =~= all);
        }
        result
    }

    /// Follows the streams that are not followed yet. Each finds a connection
    /// where there is one; a connection that cannot be used keeps its streams
    /// for later. Answers the subscriptions to ask for on the others.
    pub fn subscribe(
        &mut self,
        streams: Vec<String>,
        id: Option<StreamId>,
        url_path: Option<&str>,
    ) -> (result: Vec<SubscriptionRequest>)
        requires
            old(self)@.wf(),
        ensures
            final(self)@ == old(self)@.after_subscribe(streams.deep_view(), text_view(url_path)),
            final(self)@.wf(),
            result.deep_view() == old(self)@.subscriptions(
                streams.deep_view(),
                id.deep_view(),
                text_view(url_path),
            ),
            forall|k: int|
                0 <= k < result.len() ==> final(self)@.common.holds(
                    (#[trigger] result[k]).connection,
                ),
    {
        let ghost before = self@;
        let ghost path = text_view(url_path);
        let streams = self.unfollowed_streams(streams, url_path);
        let ghost fresh = streams.deep_view();
        let ghost assigned = before.assignments(fresh, path);
        let groups = self.handle_stream_assignment(&streams, url_path);
        let ghost middle = self@;
        let ghost gv = groups.deep_view();
        let ghost usable = |group: (usize, Seq<Seq<char>>)|
            middle.common.state(group.0 as int).ready(false);
        let ghost asked = |group: (usize, Seq<Seq<char>>)|
            SubscriptionRequestView { connection: group.0, streams: group.1, id: id.deep_view() };
        let mut requests: Vec<SubscriptionRequest> = Vec::new();
        let mut k: usize = 0;
        proof {
            reveal(Seq::filter);
            assert(requests.deep_view() =~= gv.take(0).filter(usable).map_values(asked));
        }
        while k < groups.len()
            invariant
                k <= groups.len(),
                gv == groups.deep_view(),
                usable == (|group: (usize, Seq<Seq<char>>)|
                    middle.common.state(group.0 as int).ready(false)),
                asked == (|group: (usize, Seq<Seq<char>>)|
                    SubscriptionRequestView {
                        connection: group.0,
                        streams: group.1,
                        id: id.deep_view(),
                    }),
                self@ == middle.with_common(
                    CommonView { pool: self@.common.pool, ..middle.common },
                ),
                self@.common.pool.len() == middle.common.pool.len(),
                forall|j: int|
                    0 <= j < groups.len() ==> middle.common.holds((#[trigger] groups[j]).0),
                forall|j: int, l: int|
                    0 <= j < l < groups.len() ==> (#[trigger] groups[j]).0 != (#[trigger] groups[l]).0,
                forall|j: int|
                    0 <= j < k && !middle.common.state((#[trigger] groups[j]).0 as int).ready(false)
                        ==> self@.common.pool[groups[j].0 as int] == (ConnectionView {
                        state: middle.common.state(groups[j].0 as int).queueing(
                            groups[j].1.deep_view(),
                        ),
                        ..middle.common.pool[groups[j].0 as int]
                    }),
                forall|i: int|
                    0 <= i < middle.common.pool.len() && middle.common.state(i).ready(false)
                        ==> #[trigger] self@.common.pool[i] == middle.common.pool[i],
                forall|i: int|
                    0 <= i < middle.common.pool.len() && (forall|j: int|
                        0 <= j < k ==> (#[trigger] groups[j]).0 != i) ==> #[trigger] self@.common.pool[i]
                        == middle.common.pool[i],
                requests.deep_view() == gv.take(k as int).filter(usable).map_values(asked),
                forall|j: int|
                    0 <= j < requests.len() ==> middle.common.holds(
                        (#[trigger] requests[j]).connection,
                    ),
            decreases groups.len() - k,
        {
            let place: usize = groups[k].0;
            let ghost previous = self@;
            let ghost listed = requests.deep_view();
            proof {
                reveal(Seq::filter);
                assert(gv.take(k + 1).drop_last() =~= gv.take(k as int));
                assert(gv.take(k + 1).last() == (place, groups[k as int].1.deep_view()));
                assert(self@.common.pool[place as int] == middle.common.pool[place as int]);
            }
            if !self.common.is_connected(Some(place)) {
                let ghost queue = self@.common.state(place as int).pending_subscriptions;
                let mut i: usize = 0;
                let mut queued: Vec<String> = Vec::new();
                std::mem::swap(
                    &mut queued,
                    &mut self.common.connection_pool[place].state.pending_subscriptions,
                );
                while i < groups[k as usize].1.len()
                    invariant
                        i <= groups[k as int].1.len(),
                        k < groups.len(),
                        queued.deep_view() == queue + groups[k as int].1.deep_view().take(i as int),
                    decreases groups[k as int].1.len() - i,
                {
                    let ghost shorter = queued.deep_view();
                    queued.push(groups[k].1[i].clone());
                    proof {
                        let added = groups[k as int].1.deep_view();
                        assert(queued.deep_view() =~= shorter.push(added[i as int]));
                        assert(queue + added.take(i + 1) =~= (queue + added.take(i as int)).push(
                            added[i as int],
                        ));
                    }
                    i += 1;
                }
                self.common.connection_pool[place].state.pending_subscriptions = queued;
                proof {
                    let added = groups[k as int].1.deep_view();
                    assert(added.take(added.len() as int) =~= added);
                    assert(self@.common =~= previous.common.with_state(
                        place as int,
                        previous.common.state(place as int).queueing(added),
                    ));
                }
            } else {
                requests.push(
                    SubscriptionRequest {
                        connection: place,
                        streams: clone_streams(&groups[k].1),
                        id: clone_id(&id),
                    },
                );
                proof {
                    let next = (place, groups[k as int].1.deep_view());
                    assert(requests.deep_view() =~= listed.push(asked(next)));
                    assert(gv.take(k + 1).filter(usable) == gv.take(k as int).filter(usable).push(
                        next,
                    ));
                    assert(gv.take(k as int).filter(usable).push(next).map_values(asked)
                        =~= gv.take(k as int).filter(usable).map_values(asked).push(asked(next)));
                }
            }
            k += 1;
        }
        proof {
            assert(gv.take(k as int) =~= gv);
            assert forall|i: int|
                0 <= i < middle.common.pool.len() implies #[trigger] self@.common.pool[i]
                == middle.with_queued(assigned).common.pool[i] by {
                assert(i < self.common.connection_pool.len());
                if !middle.common.state(i).ready(false) {
                    lemma_places_of(assigned);
                    if exists|j: int| 0 <= j < groups.len() && (#[trigger] groups[j]).0 == i {
                        let j = choose|j: int|
                            0 <= j < groups.len() && (#[trigger] groups[j]).0 == i;
                        assert(gv[j] == grouped(assigned)[j]);
                        assert(groups[j].1.deep_view() == streams_on(assigned, i));
                    } else {
                        let seen = places_of(assigned);
                        if seen.contains(i as usize) {
                            let j = choose|j: int| 0 <= j < seen.len() && seen[j] == i as usize;
                            assert(gv[j] == grouped(assigned)[j]);
                            assert(groups[j].0 == i);
                        }
                        lemma_no_streams(assigned, i as usize);
                        let state = middle.common.state(i);
                        assert(state.pending_subscriptions + streams_on(assigned, i)
                            =~= state.pending_subscriptions);
                    }
                }
            }
            assert(self@.common.pool =~= middle.with_queued(assigned).common.pool);
        }
        requests
    }
}

/// The messages let go of the streams on their connections, each in a request
/// of its own.
pub open spec fn are_releases(
    messages: Seq<StreamMessage>,
    released: Seq<Assigned>,
    id: StreamIdView,
) -> bool {
    &&& messages.len() == released.len()
    &&& forall|k: int|
        #![trigger messages[k]]
        0 <= k < messages.len() ==> messages[k].connection == released[k].1 && json_parse(
            messages[k].payload@,
        ) == Some(request_document("UNSUBSCRIBE"@, seq![released[k].0], id.document()))
}

impl WebsocketStreams {
    /// The text that asks for the streams, with the identifier `id` where that
    /// is valid, otherwise with a fresh one.
    pub fn send_subscription_payload(
        &self,
        streams: &Vec<String>,
        id: Option<StreamId>,
        fresh_text: String,
        fresh_number: u32,
    ) -> (result: String)
        ensures
            json_parse(result@) == Some(
                request_document(
                    "SUBSCRIBE"@,
                    streams.deep_view(),
                    normalized_id(
                        id.deep_view(),
                        self@.stream_id_is_strictly_number,
                        fresh_text@,
                        fresh_number,
                    ).document(),
                ),
            ),
    {
        let request_id = normalize_stream_id(
            id,
            self.stream_id_is_strictly_number,
            fresh_text,
            fresh_number,
        );
        request_text("SUBSCRIBE", streams, &request_id)
    }

    /// Lets go of the stream where it is followed on a connection that can be
    /// used and nobody waits for its messages. Answers that connection.
    fn release_stream(&mut self, stream: &String, url_path: Option<&str>) -> (result: Option<usize>)
        requires
            old(self)@.wf(),
        ensures
            result == if old(self)@.lets_go(stream@, text_view(url_path)) {
                Some(old(self)@.connection_streams[key_of(stream@, text_view(url_path))])
            } else {
                None
            },
            final(self)@ == old(self)@.after_unsubscribe_one(stream@, text_view(url_path)),
            final(self)@.wf(),
    {
        let key = self.stream_key(stream.as_str(), url_path);
        let place: usize = match self.connection_streams.get(&key) {
            Some(place) => *place,
            None => {
                return None;
            },
        };
        proof {
            assert(self@.common.holds(self@.connection_streams[key@]));
        }
        if !self.common.is_connected(Some(place)) {
            return None;
        }
        let has_callbacks = match self.common.connection_pool[place].state.stream_callbacks.get(
            &key,
        ) {
            Some(callbacks) => callbacks.len() > 0,
            None => false,
        };
        if has_callbacks {
            return None;
        }
        self.connection_streams.remove(&key);
        self.common.connection_pool[place].state.stream_callbacks.remove(&key);
        proof {
            assert(self@.common =~= old(self)@.common.with_state(
                place as int,
                old(self)@.common.state(place as int).not_listening(key@),
            ));
            assert(self@ =~= old(self)@.after_unsubscribe_one(stream@, text_view(url_path)));
        }
        Some(place)
    }

    /// Lets go of the streams, one after the other, that are followed on a
    /// connection that can be used and that nobody waits for. Answers the
    /// messages to send, all with the same identifier: `id` where that is valid,
    /// otherwise a fresh one.
    pub fn unsubscribe(
        &mut self,
        streams: Vec<String>,
        id: Option<StreamId>,
        url_path: Option<&str>,
        fresh_text: String,
        fresh_number: u32,
    ) -> (result: Vec<StreamMessage>)
        requires
            old(self)@.wf(),
        ensures
            final(self)@ == old(self)@.after_unsubscribe(streams.deep_view(), text_view(url_path)),
            final(self)@.wf(),
            are_releases(
                result@,
                old(self)@.released(streams.deep_view(), text_view(url_path)),
                normalized_id(
                    id.deep_view(),
                    old(self)@.stream_id_is_strictly_number,
                    fresh_text@,
                    fresh_number,
                ),
            ),
    {
        let request_id = normalize_stream_id(
            id,
            self.stream_id_is_strictly_number,
            fresh_text,
            fresh_number,
        );
        let ghost before = self@;
        let ghost all = streams.deep_view();
        let ghost path = text_view(url_path);
        let mut messages: Vec<StreamMessage> = Vec::new();
        let mut i: usize = 0;
        while i < streams.len()
            invariant
                i <= streams.len(),
                all == streams.deep_view(),
                path == text_view(url_path),
                self@.wf(),
                self@ == before.after_unsubscribe(all.take(i as int), path),
                are_releases(
                    messages@,
                    before.released(all.take(i as int), path),
                    request_id@,
                ),
            decreases streams.len() - i,
        {
            proof {
                assert(all.take(i + 1).drop_last() =~= all.take(i as int));
                assert(all.take(i + 1).last() == streams[i as int]@);
            }
            if let Some(place) = self.release_stream(&streams[i], url_path) {
                let params: Vec<String> = vec![streams[i].clone()];
                let payload = request_text("UNSUBSCRIBE", &params, &request_id);
                proof {
                    assert(params.deep_view() =~= seq![streams[i as int]@]);
                }
                messages.push(StreamMessage { connection: place, payload });
            }
            i += 1;
        }
        proof {
            assert(all.take(i as int) =~= all);
        }
        messages
    }
}

/// Clones a list of streams.
pub fn clone_streams(streams: &Vec<String>) -> (result: Vec<String>)
    ensures
        result.deep_view() == streams.deep_view(),
{
    let mut result: Vec<String> = Vec::new();
    let mut i: usize = 0;
    while i < streams.len()
        invariant
            i <= streams.len(),
            result.len() == i,
            forall|j: int| 0 <= j < i ==> (#[trigger] result[j])@ == streams[j]@,
        decreases streams.len() - i,
    {
        result.push(streams[i].clone());
        i += 1;
    }
    proof {
        assert(result.deep_view() =~= streams.deep_view());
    }
    result
}

} // verus!
