//! Opening and closing the connections that streams are followed on.

use crate::common::{lemma_places, places, CommonView, WebsocketCommon};
use crate::connection::{ConnectionStateView, ConnectionView, HandlerId, WebsocketConnection, WriterId};
use crate::lifecycle::{fresh_pool, ConnectStep, OpenTarget};
use crate::models::{ConfigurationWebsocketStreams, WebsocketError, WebsocketErrorView};
use crate::streams::{stream_url, StreamsView, WebsocketStreams};
use crate::string_map::StringMap;
use crate::text::{decimal, decimal_text};
use vstd::arithmetic::div_mod::lemma_fundamental_div_mod_converse;
use vstd::prelude::*;

verus! {

/// How many connections are added to the given ones: as many as are missing
/// from a full set for each path or, without paths and without connections, a
/// full set.
pub open spec fn missing_connections(given: int, size: int, paths: int) -> int {
    if paths > 0 {
        if given < size * paths {
            size * paths - given
        } else {
            0
        }
    } else if given == 0 {
        size
    } else {
        0
    }
}

/// The report of a pool that has not a full set of connections for each path.
pub open spec fn pool_too_small(size: int, pool: int) -> Seq<char> {
    "connection_pool too small for url_paths: need "@ + decimal(size as nat) + " per path, got "@
        + decimal((pool % size) as nat) + " for path index "@ + decimal((pool / size) as nat)
}

impl ConnectionStateView {
    /// The connection is on the path.
    pub open spec fn on(self, path: Seq<char>) -> ConnectionStateView {
        ConnectionStateView { url_path: Some(path), ..self }
    }

    /// The connection has no callbacks, and no streams to ask for.
    pub open spec fn without_streams(self) -> ConnectionStateView {
        ConnectionStateView {
            stream_callbacks: Map::empty(),
            pending_subscriptions: Seq::empty(),
            ..self
        }
    }
}

impl CommonView {
    /// The same pool with the first `count` connections on the paths, `size` on
    /// each in turn.
    pub open spec fn with_paths(self, size: int, paths: Seq<Seq<char>>, count: int) -> CommonView {
        CommonView {
            pool: Seq::new(
                self.pool.len(),
                |i: int|
                    if i < count {
                        ConnectionView {
                            state: self.pool[i].state.on(paths[i / size]),
                            ..self.pool[i]
                        }
                    } else {
                        self.pool[i]
                    },
            ),
            ..self
        }
    }
}

/// The targets open a full set of connections for each path, at the URL of the
/// streams below that path.
pub open spec fn are_path_targets(
    targets: Seq<OpenTarget>,
    configuration: ConfigurationWebsocketStreams,
    streams: Seq<Seq<char>>,
    paths: Seq<Seq<char>>,
) -> bool {
    &&& targets.len() == paths.len()
    &&& forall|i: int|
        #![trigger targets[i]]
        0 <= i < targets.len() ==> {
            &&& targets[i].url@ == stream_url(configuration, streams, Some(paths[i]))
            &&& targets[i].connections@ == Seq::new(
                configuration.mode.size() as nat,
                |j: int| (i * configuration.mode.size() + j) as usize,
            )
        }
}

impl StreamsView {
    /// There is a full set of connections for each path.
    pub open spec fn has_full_sets(self) -> bool {
        self.url_paths.len() * self.configuration.mode.size() <= self.common.pool.len()
    }

    /// The client once it lets go of every stream.
    pub open spec fn cleared(self) -> StreamsView {
        StreamsView {
            common: self.common.with_states(
                |state: ConnectionStateView| state.without_streams(),
            ),
            connection_streams: Map::empty(),
            ..self
        }
    }

    /// The client while its connections are being opened.
    pub open spec fn connecting(self, handler: HandlerId) -> StreamsView {
        StreamsView {
            common: self.common.with_states(
                |state: ConnectionStateView| state.handled_by(handler),
            ),
            is_connecting: true,
            ..self
        }
    }
}

impl WebsocketStreams {
    /// A client with the given connections, filled up with new ones, named by
    /// the fresh identifiers, to a full set for each path.
    #[must_use]
    pub fn new(
        configuration: ConfigurationWebsocketStreams,
        connection_pool: Vec<WebsocketConnection>,
        url_paths: Vec<String>,
        fresh_ids: &Vec<String>,
    ) -> (result: Self)
        requires
            configuration.mode.size() > 0,
            configuration.reconnect_delay <= usize::MAX,
            configuration.mode.size() * url_paths.len() <= usize::MAX,
            fresh_ids.len() >= missing_connections(
                connection_pool.len() as int,
                configuration.mode.size() as int,
                url_paths.len() as int,
            ),
        ensures
            result@ == (StreamsView {
                common: CommonView {
                    events: Seq::empty(),
                    message_events: Seq::empty(),
                    mode: configuration.mode,
                    round_robin_index: 0,
                    pool: connection_pool.deep_view() + fresh_pool(
                        fresh_ids.deep_view().take(
                            missing_connections(
                                connection_pool.len() as int,
                                configuration.mode.size() as int,
                                url_paths.len() as int,
                            ),
                        ),
                    ),
                    reconnect_delay: configuration.reconnect_delay as usize,
                    user_agent: Some(configuration.user_agent@),
                },
                stream_id_is_strictly_number: false,
                url_paths: url_paths.deep_view(),
                is_connecting: false,
                connection_streams: Map::empty(),
                configuration,
            }),
            result@.wf(),
    {
        let ghost given = connection_pool.deep_view();
        let ghost ids = fresh_ids.deep_view();
        let ghost missing = missing_connections(
            connection_pool.len() as int,
            configuration.mode.size() as int,
            url_paths.len() as int,
        );
        let mut pool = connection_pool;
        let size: usize = configuration.mode.pool_size();
        if url_paths.len() > 0 {
            let expected: usize = size * url_paths.len();
            proof {
                assert(expected >= 1) by (nonlinear_arith)
                    requires
                        expected == size * url_paths.len(),
                        size >= 1,
                        url_paths.len() >= 1,
                ;
            }
            let mut used: usize = 0;
            while pool.len() < expected
                invariant
                    ids == fresh_ids.deep_view(),
                    used <= missing,
                    missing <= fresh_ids.len(),
                    expected >= 1,
                    missing == if given.len() < expected {
                        expected - given.len()
                    } else {
                        0
                    },
                    pool.len() == given.len() + used,
                    pool.deep_view() == given + fresh_pool(ids.take(used as int)),
                decreases expected - pool.len(),
            {
                let ghost before = pool.deep_view();
                pool.push(WebsocketConnection::new(fresh_ids[used].as_str()));
                proof {
                    let added = ConnectionView {
                        id: fresh_ids[used as int]@,
                        state: ConnectionStateView::fresh(),
                    };
                    assert(pool.deep_view() =~= before.push(added));
                    assert(fresh_pool(ids.take(used + 1)) =~= fresh_pool(
                        ids.take(used as int),
                    ).push(added));
                }
                used += 1;
            }
            proof {
                assert(pool.deep_view() == given + fresh_pool(ids.take(missing)));
            }
        }
        let common = WebsocketCommon::new(
            pool,
            configuration.mode,
            configuration.reconnect_delay as usize,
            Some(configuration.user_agent.clone()),
            fresh_ids,
        );
        let result = WebsocketStreams {
            common,
            stream_id_is_strictly_number: false,
            url_paths,
            is_connecting: false,
            connection_streams: StringMap::new(),
            configuration,
        };
        proof {
            if url_paths.len() == 0 {
                if given.len() == 0 {
                    assert(given + fresh_pool(ids.take(missing)) =~= fresh_pool(ids.take(missing)));
                } else {
                    assert(given + fresh_pool(ids.take(missing)) =~= given);
                }
            }
            assert(result@.common.pool =~= given + fresh_pool(ids.take(missing)));
        }
        result
    }

    /// Begins to connect, unless a connection is in use or being opened. From
    /// now on `handler` handles what arrives on every connection. With paths,
    /// each path has a full set of connections of its own; it is an error where
    /// there are too few for that.
    pub fn connect(&mut self, streams: &Vec<String>, handler: HandlerId) -> (result: Result<
        ConnectStep,
        WebsocketError,
    >)
        requires
            old(self)@.configuration.mode.size() > 0,
        ensures
            ({
                let before = old(self)@;
                let size = before.configuration.mode.size() as int;
                let begun = before.connecting(handler);
                if before.common.connected() {
                    &&& result == Ok::<ConnectStep, WebsocketError>(ConnectStep::AlreadyConnected)
                    &&& final(self)@ == before
                } else if before.is_connecting {
                    &&& result == Ok::<ConnectStep, WebsocketError>(ConnectStep::AlreadyConnecting)
                    &&& final(self)@ == before
                } else if before.url_paths.len() == 0 {
                    &&& result matches Ok(ConnectStep::Open(targets)) && targets.len() == 1
                        && targets[0].url@ == stream_url(
                        before.configuration,
                        streams.deep_view(),
                        None,
                    ) && targets[0].connections@ == Seq::new(
                        before.common.pool.len(),
                        |i: int| i as usize,
                    )
                    &&& final(self)@ == begun
                } else if before.has_full_sets() {
                    &&& result matches Ok(ConnectStep::Open(targets)) && are_path_targets(
                        targets@,
                        before.configuration,
                        streams.deep_view(),
                        before.url_paths,
                    )
                    &&& final(self)@ == begun.with_common(
                        begun.common.with_paths(
                            size,
                            before.url_paths,
                            size * before.url_paths.len(),
                        ),
                    )
                } else {
                    let pool = before.common.pool.len() as int;
                    &&& result matches Err(error) && error@ == WebsocketErrorView::ServerError(
                        pool_too_small(size, pool),
                    )
                    &&& final(self)@ == (StreamsView {
                        is_connecting: false,
                        common: begun.common.with_paths(
                            size,
                            before.url_paths,
                            size * (pool / size),
                        ),
                        ..before
                    })
                }
            }),
            old(self)@.wf() ==> final(self)@.wf(),
    {
        if self.common.is_connected(None) {
            return Ok(ConnectStep::AlreadyConnected);
        }
        if self.is_connecting {
            return Ok(ConnectStep::AlreadyConnecting);
        }
        self.is_connecting = true;
        self.common.set_handlers(handler);
        let size: usize = self.configuration.mode.pool_size();
        if self.url_paths.len() == 0 {
            let url = self.prepare_url(streams, None);
            return Ok(
                ConnectStep::Open(
                    vec![OpenTarget { url, connections: self.common.all_connections() }],
                ),
            );
        }
        let ghost begun = self@;
        let ghost paths = self@.url_paths;
        let count: usize = self.common.connection_pool.len();
        let mut targets: Vec<OpenTarget> = Vec::new();
        let mut start: usize = 0;
        let mut i: usize = 0;
        proof {
            assert(self@.common =~= begun.common.with_paths(size as int, paths, 0));
        }
        while i < self.url_paths.len()
            invariant
                i <= self.url_paths.len(),
                begun == old(self)@.connecting(handler),
                !old(self)@.common.connected(),
                !old(self)@.is_connecting,
                size > 0,
                size == begun.configuration.mode.size(),
                start == i * size,
                start <= count,
                count == begun.common.pool.len(),
                paths == begun.url_paths,
                paths.len() == self.url_paths.len(),
                self@ == begun.with_common(
                    begun.common.with_paths(size as int, paths, start as int),
                ),
                targets.len() == i,
                forall|k: int|
                    #![trigger targets[k]]
                    0 <= k < i ==> {
                        &&& targets[k].url@ == stream_url(
                            begun.configuration,
                            streams.deep_view(),
                            Some(paths[k]),
                        )
                        &&& targets[k].connections@ == Seq::new(
                            size as nat,
                            |j: int| (k * size + j) as usize,
                        )
                    },
            decreases self.url_paths.len() - i,
        {
            let rest: usize = count - start;
            if rest < size {
                proof {
                    lemma_fundamental_div_mod_converse(
                        count as int,
                        size as int,
                        i as int,
                        rest as int,
                    );
                    assert(paths.len() * size > count) by (nonlinear_arith)
                        requires
                            paths.len() >= i + 1,
                            count == i * size + rest,
                            rest < size,
                    ;
                    assert(size * (count as int / size as int) == start) by (nonlinear_arith)
                        requires
                            count as int / size as int == i,
                            start == i * size,
                    ;
                }
                let mut text = "connection_pool too small for url_paths: need ".to_owned();
                text.append(decimal_text(size).as_str());
                text.append(" per path, got ");
                text.append(decimal_text(rest).as_str());
                text.append(" for path index ");
                text.append(decimal_text(i).as_str());
                self.is_connecting = false;
                proof {
                    assert(self@ =~= (StreamsView {
                        is_connecting: false,
                        common: begun.common.with_paths(size as int, paths, start as int),
                        ..begun
                    }));
                }
                return Err(WebsocketError::ServerError(text));
            }
            let mut connections: Vec<usize> = Vec::new();
            let mut j: usize = 0;
            while j < size
                invariant
                    j <= size,
                    i < self.url_paths.len(),
                    size > 0,
                    start == i * size,
                    start + size <= count,
                    count == begun.common.pool.len(),
                    paths == begun.url_paths,
                    paths.len() == self.url_paths.len(),
                    self@ == begun.with_common(
                        begun.common.with_paths(size as int, paths, start + j),
                    ),
                    connections@ == Seq::new(j as nat, |l: int| (i * size + l) as usize),
                decreases size - j,
            {
                let place: usize = start + j;
                let ghost previous = self@;
                proof {
                    assert(previous.common.holds(place));
                    lemma_fundamental_div_mod_converse(
                        place as int,
                        size as int,
                        i as int,
                        j as int,
                    );
                }
                self.common.connection_pool[place].state.url_path = Some(
                    self.url_paths[i].clone(),
                );
                connections.push(place);
                proof {
                    assert(self@.common =~= previous.common.with_state(
                        place as int,
                        previous.common.state(place as int).on(paths[i as int]),
                    ));
                    assert(self@.common =~= begun.common.with_paths(
                        size as int,
                        paths,
                        start + j + 1,
                    ));
                    assert(self@ =~= begun.with_common(
                        begun.common.with_paths(size as int, paths, start + j + 1),
                    ));
                    assert(connections@ =~= Seq::new(
                        (j + 1) as nat,
                        |l: int| (i * size + l) as usize,
                    ));
                }
                j += 1;
            }
            let path = self.url_paths[i].clone();
            let url = self.prepare_url(streams, Some(path.as_str()));
            targets.push(OpenTarget { url, connections });
            proof {
                assert((i + 1) * size == start + size) by (nonlinear_arith)
                    requires
                        start == i * size,
                ;
            }
            start += size;
            i += 1;
        }
        proof {
            assert(size * paths.len() == start) by (nonlinear_arith)
                requires
                    start == paths.len() * size,
            ;
        }
        Ok(ConnectStep::Open(targets))
    }

    /// Ends the attempt to connect with what came of it; nothing where it took
    /// too long. The attempt succeeds only where a connection is in use.
    pub fn finish_connect(&mut self, connected: Option<Result<(), WebsocketError>>) -> (result:
        Result<(), WebsocketError>)
        ensures
            match connected {
                Some(Ok(())) => if old(self)@.common.connected() {
                    result is Ok
                } else {
                    result is Err && result->Err_0@ == WebsocketErrorView::NotConnected
                },
                Some(Err(error)) => result is Err && result->Err_0 == error,
                None => result is Err && result->Err_0@ == WebsocketErrorView::Timeout,
            },
            result is Ok ==> final(self)@.common.connected(),
            final(self)@ == (StreamsView { is_connecting: false, ..old(self)@ }),
    {
        self.is_connecting = false;
        match connected {
            Some(Ok(())) => {
                if self.common.is_connected(None) {
                    Ok(())
                } else {
                    Err(WebsocketError::NotConnected)
                }
            },
            Some(Err(error)) => Err(error),
            None => Err(WebsocketError::Timeout),
        }
    }

    /// Lets go of every stream, and begins to close every connection, where any
    /// is in use.
    pub fn disconnect(&mut self) -> (result: Option<Vec<(usize, WriterId)>>)
        ensures
            ({
                let cleared = old(self)@.cleared();
                if old(self)@.common.connected() {
                    &&& result is Some
                    &&& result->0@ == old(self)@.common.writers()
                    &&& final(self)@ == cleared.with_common(cleared.common.closing())
                } else {
                    &&& result is None
                    &&& final(self)@ == cleared
                }
            }),
            old(self)@.common.wf() ==> final(self)@.wf(),
    {
        let ghost before = self@;
        let mut i: usize = 0;
        while i < self.common.connection_pool.len()
            invariant
                i <= self.common.connection_pool.len(),
                self@.common.pool.len() == before.common.pool.len(),
                self@ == before.with_common(
                    CommonView { pool: self@.common.pool, ..before.common },
                ),
                forall|j: int|
                    0 <= j < i ==> #[trigger] self@.common.pool[j] == (ConnectionView {
                        state: before.common.pool[j].state.without_streams(),
                        ..before.common.pool[j]
                    }),
                forall|j: int|
                    i <= j < before.common.pool.len() ==> #[trigger] self@.common.pool[j]
                        == before.common.pool[j],
            decreases self.common.connection_pool.len() - i,
        {
            let ghost previous = self@;
            self.common.connection_pool[i].state.stream_callbacks.clear();
            self.common.connection_pool[i].state.pending_subscriptions = Vec::new();
            proof {
                assert(previous.common.pool[i as int] == before.common.pool[i as int]);
                assert(self@.common.state(i as int).pending_subscriptions =~= Seq::<
                    Seq<char>,
                >::empty());
                assert(self@.common =~= previous.common.with_state(
                    i as int,
                    previous.common.state(i as int).without_streams(),
                ));
            }
            i += 1;
        }
        self.connection_streams.clear();
        proof {
            assert(self@.common =~= before.cleared().common);
            assert(self@ =~= before.cleared());
            lemma_cleared_pool(before.common);
        }
        self.common.disconnect()
    }

    /// Whether some connection is in use.
    pub fn is_connected(&self) -> (result: bool)
        ensures
            result == self@.common.connected(),
    {
        self.common.is_connected(None)
    }

    /// The connections that a ping goes out on.
    pub fn ping_server(&self) -> (result: Vec<(String, WriterId)>)
        ensures
            result.deep_view() == self@.common.pinged(),
    {
        self.common.ping_server()
    }
}

/// Letting go of every stream changes neither which connections are in use nor
/// their writers.
proof fn lemma_cleared_pool(common: CommonView)
    ensures
        common.with_states(|state: ConnectionStateView| state.without_streams()).connected()
            == common.connected(),
        common.with_states(|state: ConnectionStateView| state.without_streams()).writers()
            == common.writers(),
{
    let cleared = common.with_states(|state: ConnectionStateView| state.without_streams());
    assert forall|i: int| 0 <= i < common.pool.len() implies (#[trigger] cleared.pool[i]).state
        == common.pool[i].state.without_streams() by {}
    if common.connected() {
        let i = choose|i: int|
            0 <= i < common.pool.len() && (#[trigger] common.pool[i]).state.ready(false);
        assert(cleared.pool[i].state.ready(false));
    }
    if cleared.connected() {
        let i = choose|i: int|
            0 <= i < cleared.pool.len() && (#[trigger] cleared.pool[i]).state.ready(false);
        assert(common.pool[i].state.ready(false));
    }
    let pick = |c: ConnectionView| c.state.ws_write_tx is Some;
    lemma_same_picks(cleared.pool, common.pool, pick);
    lemma_places(common.pool, pick);
    assert(cleared.writers() =~= common.writers());
}

/// Pools whose connections are picked alike have the same picked places.
pub proof fn lemma_same_picks(
    left: Seq<ConnectionView>,
    right: Seq<ConnectionView>,
    pick: spec_fn(ConnectionView) -> bool,
)
    requires
        left.len() == right.len(),
        forall|i: int| #![trigger left[i]] 0 <= i < left.len() ==> pick(left[i]) == pick(right[i]),
    ensures
        places(left, pick) == places(right, pick),
    decreases left.len(),
{
    if left.len() > 0 {
        assert(pick(left[left.len() - 1]) == pick(right[right.len() - 1]));
        lemma_same_picks(left.drop_last(), right.drop_last(), pick);
    }
}

} // verus!
