//! The pool of connections that the request and the stream clients share.

use crate::connection::{ConnectionStateView, ConnectionView, WebsocketConnection};
use crate::emitter::{SubscriberId, WebsocketEventEmitter, WebsocketMessageEventEmitter};
use crate::models::{text_view, WebsocketError, WebsocketErrorView, WebsocketMode};
use crate::text::same_text;
use vstd::prelude::*;

verus! {

/// The pool of connections.
pub struct WebsocketCommon {
    pub events: WebsocketEventEmitter,
    pub message_events: WebsocketMessageEventEmitter,
    pub mode: WebsocketMode,
    pub round_robin_index: usize,
    pub connection_pool: Vec<WebsocketConnection>,
    pub reconnect_delay: usize,
    pub user_agent: Option<String>,
}

/// The pool of connections, as a mathematical value.
#[verifier::ext_equal]
pub struct CommonView {
    pub events: Seq<SubscriberId>,
    pub message_events: Seq<SubscriberId>,
    pub mode: WebsocketMode,
    pub round_robin_index: usize,
    pub pool: Seq<ConnectionView>,
    pub reconnect_delay: usize,
    pub user_agent: Option<Seq<char>>,
}

impl View for WebsocketCommon {
    type V = CommonView;

    open spec fn view(&self) -> CommonView {
        CommonView {
            events: self.events@,
            message_events: self.message_events@,
            mode: self.mode,
            round_robin_index: self.round_robin_index,
            pool: self.connection_pool.deep_view(),
            reconnect_delay: self.reconnect_delay,
            user_agent: self.user_agent.deep_view(),
        }
    }
}

/// The places of the pool, in order, whose connections are picked.
pub open spec fn places(pool: Seq<ConnectionView>, pick: spec_fn(ConnectionView) -> bool) -> Seq<int>
    decreases pool.len(),
{
    if pool.len() == 0 {
        Seq::empty()
    } else {
        let front = places(pool.drop_last(), pick);
        if pick(pool.last()) {
            front.push(pool.len() - 1)
        } else {
            front
        }
    }
}

/// The connection is on the given path; where none is given, any connection is.
pub open spec fn on_path(connection: ConnectionView, url_path: Option<Seq<char>>) -> bool {
    url_path is Some ==> connection.state.url_path == url_path
}

impl CommonView {
    /// There is at least one connection.
    pub open spec fn wf(self) -> bool {
        self.pool.len() > 0
    }

    /// The requests that are kept to open sessions again have parameters with
    /// names of their own.
    pub open spec fn requests_wf(self) -> bool {
        forall|i: int| 0 <= i < self.pool.len() ==> (#[trigger] self.pool[i]).state.request_wf()
    }

    /// `place` is a place of the pool.
    pub open spec fn holds(self, place: usize) -> bool {
        place < self.pool.len()
    }

    /// The state of the connection at `place`.
    pub open spec fn state(self, place: int) -> ConnectionStateView {
        self.pool[place].state
    }

    /// The same pool with another state at `place`.
    pub open spec fn with_state(self, place: int, state: ConnectionStateView) -> CommonView {
        CommonView {
            pool: self.pool.update(place, ConnectionView { state, ..self.pool[place] }),
            ..self
        }
    }

    /// The same pool after one more connection was handed out in turn.
    pub open spec fn turned(self) -> CommonView {
        CommonView { round_robin_index: self.next_turn(), ..self }
    }

    /// The count of connections handed out, one further. It wraps around.
    pub open spec fn next_turn(self) -> usize {
        if self.round_robin_index == usize::MAX {
            0
        } else {
            (self.round_robin_index + 1) as usize
        }
    }

    /// Some connection is open and can be used.
    pub open spec fn connected(self) -> bool {
        exists|i: int| 0 <= i < self.pool.len() && (#[trigger] self.pool[i]).state.ready(false)
    }

    /// The connections that can be used. A single connection that is not asked
    /// for by its path counts as usable in any state.
    pub open spec fn available(self, allow_non_established: bool, by_path: bool) -> Seq<int> {
        if self.mode == WebsocketMode::Single && !by_path {
            seq![0int]
        } else {
            places(self.pool, |c: ConnectionView| c.state.ready(allow_non_established))
        }
    }

    /// The connections among which one is handed out.
    pub open spec fn candidates(
        self,
        allow_non_established: bool,
        url_path: Option<Seq<char>>,
    ) -> Seq<int> {
        if self.mode == WebsocketMode::Single && url_path is None {
            seq![0int]
        } else {
            places(
                self.pool,
                |c: ConnectionView| c.state.ready(allow_non_established) && on_path(c, url_path),
            )
        }
    }

    /// The candidate whose turn it is.
    pub open spec fn next_candidate(
        self,
        allow_non_established: bool,
        url_path: Option<Seq<char>>,
    ) -> int {
        let candidates = self.candidates(allow_non_established, url_path);
        candidates[self.round_robin_index as int % candidates.len() as int]
    }
}

/// The picked places are the places of the picked connections, in order.
pub proof fn lemma_places(pool: Seq<ConnectionView>, pick: spec_fn(ConnectionView) -> bool)
    ensures
        places(pool, pick).len() <= pool.len(),
        forall|k: int|
            0 <= k < places(pool, pick).len() ==> 0 <= #[trigger] places(pool, pick)[k] < pool.len()
                && pick(pool[places(pool, pick)[k]]),
        forall|a: int, b: int|
            0 <= a < b < places(pool, pick).len() ==> #[trigger] places(pool, pick)[a]
                < #[trigger] places(pool, pick)[b],
        forall|i: int|
            0 <= i < pool.len() && pick(#[trigger] pool[i]) ==> places(pool, pick).contains(i),
    decreases pool.len(),
{
    if pool.len() > 0 {
        let rest = pool.drop_last();
        lemma_places(rest, pick);
        let front = places(rest, pick);
        let all = places(pool, pick);
        assert forall|k: int| 0 <= k < all.len() implies 0 <= #[trigger] all[k] < pool.len()
            && pick(pool[all[k]]) by {
            if k < front.len() {
                assert(all[k] == front[k]);
                assert(pool[front[k]] == rest[front[k]]);
            }
        }
        assert forall|a: int, b: int| 0 <= a < b < all.len() implies #[trigger] all[a]
            < #[trigger] all[b] by {
            assert(all[a] == front[a]);
            if b < front.len() {
                assert(all[b] == front[b]);
            }
        }
        assert forall|i: int| 0 <= i < pool.len() && pick(#[trigger] pool[i]) implies all.contains(
            i,
        ) by {
            if i < rest.len() {
                assert(rest[i] == pool[i]);
                assert(front.contains(i));
                let k = choose|k: int| 0 <= k < front.len() && front[k] == i;
                assert(all[k] == i);
            } else {
                assert(all[front.len() as int] == i);
            }
        }
    }
}

impl WebsocketCommon {
    /// Has `subscriber` told of every text message, with the connection that it
    /// came through.
    pub fn subscribe_on_message_events(&mut self, subscriber: SubscriberId)
        ensures
            final(self)@ == (CommonView {
                message_events: old(self)@.message_events.push(subscriber),
                ..old(self)@
            }),
    {
        self.message_events.subscribe(subscriber);
    }

    /// Whether the connection at `place` can be used.
    pub fn is_connection_ready(&self, connection: usize, allow_non_established: bool) -> (result:
        bool)
        requires
            self@.holds(connection),
        ensures
            result == self@.state(connection as int).ready(allow_non_established),
    {
        self.connection_pool[connection].state.is_ready(allow_non_established)
    }

    /// Whether the given connection, or without one any connection, is open and
    /// can be used.
    pub fn is_connected(&self, connection: Option<usize>) -> (result: bool)
        requires
            connection is Some ==> self@.holds(connection->0),
        ensures
            result == match connection {
                Some(place) => self@.state(place as int).ready(false),
                None => self@.connected(),
            },
    {
        match connection {
            Some(place) => self.is_connection_ready(place, false),
            None => {
                let mut i: usize = 0;
                while i < self.connection_pool.len()
                    invariant
                        i <= self.connection_pool.len(),
                        connection is None,
                        forall|j: int|
                            0 <= j < i ==> !(#[trigger] self@.pool[j]).state.ready(false),
                    decreases self.connection_pool.len() - i,
                {
                    if self.is_connection_ready(i, false) {
                        proof {
                            assert(self@.pool[i as int].state.ready(false));
                        }
                        return true;
                    }
                    i += 1;
                }
                false
            },
        }
    }

    /// The connections that can be used.
    pub fn get_available_connections(
        &self,
        allow_non_established: bool,
        url_path: Option<&str>,
    ) -> (result: Vec<usize>)
        requires
            self@.wf(),
        ensures
            result@.map_values(|place: usize| place as int) == self@.available(
                allow_non_established,
                url_path is Some,
            ),
            forall|k: int| 0 <= k < result.len() ==> self@.holds(#[trigger] result[k]),
    {
        if matches!(self.mode, WebsocketMode::Single) && url_path.is_none() {
            let result: Vec<usize> = vec![0];
            proof {
                assert(result@.map_values(|place: usize| place as int) =~= seq![0int]);
            }
            return result;
        }
        let mut result: Vec<usize> = Vec::new();
        let ghost pick = |c: ConnectionView| c.state.ready(allow_non_established);
        let mut i: usize = 0;
        while i < self.connection_pool.len()
            invariant
                i <= self.connection_pool.len(),
                pick == (|c: ConnectionView| c.state.ready(allow_non_established)),
                result@.map_values(|place: usize| place as int) == places(
                    self@.pool.take(i as int),
                    pick,
                ),
                forall|k: int| 0 <= k < result.len() ==> self@.holds(#[trigger] result[k]),
            decreases self.connection_pool.len() - i,
        {
            proof {
                assert(self@.pool.take(i + 1).drop_last() =~= self@.pool.take(i as int));
            }
            if self.is_connection_ready(i, allow_non_established) {
                result.push(i);
            }
            proof {
                assert(result@.map_values(|place: usize| place as int) =~= places(
                    self@.pool.take(i + 1),
                    pick,
                ));
            }
            i += 1;
        }
        proof {
            assert(self@.pool.take(i as int) =~= self@.pool);
        }
        result
    }

    /// The connections among which one is handed out.
    fn get_candidates(&self, allow_non_established: bool, url_path: Option<&str>) -> (result: Vec<
        usize,
    >)
        requires
            self@.wf(),
        ensures
            result@.map_values(|place: usize| place as int) == self@.candidates(
                allow_non_established,
                text_view(url_path),
            ),
            forall|k: int| 0 <= k < result.len() ==> self@.holds(#[trigger] result[k]),
    {
        let ghost asked = text_view(url_path);
        let ghost pick = |c: ConnectionView|
            c.state.ready(allow_non_established) && on_path(c, asked);
        let path = match url_path {
            None => {
                let result = self.get_available_connections(allow_non_established, None);
                proof {
                    let usable = |c: ConnectionView| c.state.ready(allow_non_established);
                    lemma_same_places(self@.pool, usable, pick);
                }
                return result;
            },
            Some(path) => path,
        };
        let mut result: Vec<usize> = Vec::new();
        let mut i: usize = 0;
        while i < self.connection_pool.len()
            invariant
                i <= self.connection_pool.len(),
                asked == Some(path@),
                pick == (|c: ConnectionView|
                    c.state.ready(allow_non_established) && on_path(c, asked)),
                result@.map_values(|place: usize| place as int) == places(
                    self@.pool.take(i as int),
                    pick,
                ),
                forall|k: int| 0 <= k < result.len() ==> self@.holds(#[trigger] result[k]),
            decreases self.connection_pool.len() - i,
        {
            proof {
                assert(self@.pool.take(i + 1).drop_last() =~= self@.pool.take(i as int));
            }
            let matching = match &self.connection_pool[i].state.url_path {
                Some(own) => same_text(own.as_str(), path),
                None => false,
            };
            if matching && self.is_connection_ready(i, allow_non_established) {
                result.push(i);
            }
            proof {
                assert(result@.map_values(|place: usize| place as int) =~= places(
                    self@.pool.take(i + 1),
                    pick,
                ));
            }
            i += 1;
        }
        proof {
            assert(self@.pool.take(i as int) =~= self@.pool);
        }
        result
    }

    /// Hands out the candidate whose turn it is, where there is one.
    pub fn get_connection(
        &mut self,
        allow_non_established: bool,
        url_path: Option<&str>,
    ) -> (result: Result<usize, WebsocketError>)
        requires
            old(self)@.wf(),
        ensures
            match result {
                Ok(place) => {
                    &&& old(self)@.candidates(allow_non_established, text_view(url_path)).len() > 0
                    &&& place == old(self)@.next_candidate(
                        allow_non_established,
                        text_view(url_path),
                    )
                    &&& old(self)@.holds(place)
                    &&& final(self)@ == old(self)@.turned()
                },
                Err(error) => {
                    &&& old(self)@.candidates(allow_non_established, text_view(url_path)).len() == 0
                    &&& error@ == WebsocketErrorView::NotConnected
                    &&& final(self)@ == old(self)@
                },
            },
    {
        let ready = self.get_candidates(allow_non_established, url_path);
        if ready.len() == 0 {
            return Err(WebsocketError::NotConnected);
        }
        let turn: usize = self.round_robin_index % ready.len();
        self.round_robin_index = self.round_robin_index.wrapping_add(1);
        Ok(ready[turn])
    }
}

proof fn lemma_same_places(
    pool: Seq<ConnectionView>,
    left: spec_fn(ConnectionView) -> bool,
    right: spec_fn(ConnectionView) -> bool,
)
    requires
        forall|c: ConnectionView| #[trigger] left(c) == right(c),
    ensures
        places(pool, left) == places(pool, right),
    decreases pool.len(),
{
    if pool.len() > 0 {
        lemma_same_places(pool.drop_last(), left, right);
        assert(left(pool.last()) == right(pool.last()));
    }
}

} // verus!
