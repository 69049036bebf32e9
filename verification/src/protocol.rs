//! What holds of a connection as a whole: of the calls between client and
//! server, and of the events between the event switch and the connections.
use vstd::prelude::*;

use crate::client::{all_taken, first_free};
use crate::connection::{changed_topics, granted, restored_topics};
use crate::event::{Change, EventEmitter, Notice, SubscriptionID, Wish};
use crate::server::Server;
use crate::switch::{
    change_notice, changed_routes, left_over, lists_subscribers, names_id, subscribers_of,
    taken_up, without_ids, EventSwitch,
};

verus! {

/// Where the calls of one connection are: waiting at the client, on their way
/// to the server, with the handler, or on their way back.
///
/// `calls` is the view of the client's active calls and the keys of `busy` are
/// the server's calls in flight; `requested` and `answered` are the messages
/// between them, which arrive in the order in which they were sent. Next to
/// each id stands what the client keeps of the call that the message or the
/// work belongs to, which is where its result ought to go.
pub struct CallTraffic<C> {
    pub calls: Map<u8, C>,
    pub requested: Seq<(u8, C)>,
    pub busy: Map<u8, C>,
    pub answered: Seq<(u8, C)>,
}

impl<C> CallTraffic<C> {
    /// A connection on which no call has been made.
    pub open spec fn start() -> CallTraffic<C> {
        CallTraffic {
            calls: Map::empty(),
            requested: Seq::empty(),
            busy: Map::empty(),
            answered: Seq::empty(),
        }
    }

    /// Every call on its way or with the handler waits at the client under its
    /// id, and is in one place only.
    pub open spec fn consistent(self) -> bool {
        &&& forall|i: int|
            0 <= i < self.requested.len() ==> {
                &&& self.calls.contains_pair((#[trigger] self.requested[i]).0, self.requested[i].1)
                &&& !self.busy.contains_key(self.requested[i].0)
            }
        &&& forall|i: int|
            0 <= i < self.answered.len() ==> {
                &&& self.calls.contains_pair((#[trigger] self.answered[i]).0, self.answered[i].1)
                &&& !self.busy.contains_key(self.answered[i].0)
            }
        &&& forall|id: u8| #[trigger]
            self.busy.contains_key(id) ==> self.calls.contains_pair(id, self.busy[id])
        &&& forall|i: int, j: int|
            0 <= i < j < self.requested.len() ==> (#[trigger] self.requested[i]).0 != (
            #[trigger] self.requested[j]).0
        &&& forall|i: int, j: int|
            0 <= i < j < self.answered.len() ==> (#[trigger] self.answered[i]).0 != (
            #[trigger] self.answered[j]).0
        &&& forall|i: int, j: int|
            0 <= i < self.requested.len() && 0 <= j < self.answered.len() ==> (
            #[trigger] self.requested[i]).0 != (#[trigger] self.answered[j]).0
    }

    /// The client has sent a call.
    pub open spec fn call(self, id: u8, completion: C) -> CallTraffic<C> {
        CallTraffic {
            calls: self.calls.insert(id, completion),
            requested: self.requested.push((id, completion)),
            ..self
        }
    }

    /// The server has taken up the next call.
    pub open spec fn take_up(self) -> CallTraffic<C> {
        CallTraffic {
            requested: self.requested.drop_first(),
            busy: self.busy.insert(self.requested[0].0, self.requested[0].1),
            ..self
        }
    }

    /// The server has answered a call.
    pub open spec fn answer(self, id: u8) -> CallTraffic<C> {
        CallTraffic {
            busy: self.busy.remove(id),
            answered: self.answered.push((id, self.busy[id])),
            ..self
        }
    }

    /// The client has taken up the next answer.
    pub open spec fn complete(self) -> CallTraffic<C> {
        CallTraffic {
            calls: self.calls.remove(self.answered[0].0),
            answered: self.answered.drop_first(),
            ..self
        }
    }
}

/// A new connection is consistent.
pub proof fn calls_start_consistent<C>()
    ensures
        CallTraffic::<C>::start().consistent(),
{
}

/// A call under the lowest free id of the client keeps the traffic consistent.
pub proof fn calling_keeps_calls_apart<C>(t: CallTraffic<C>, id: u8, completion: C)
    requires
        t.consistent(),
        first_free(t.calls, id),
    ensures
        t.call(id, completion).consistent(),
{
    let u = t.call(id, completion);
    assert forall|i: int| 0 <= i < u.requested.len() implies u.calls.contains_pair(
        (#[trigger] u.requested[i]).0,
        u.requested[i].1,
    ) && !u.busy.contains_key(u.requested[i].0) by {
        if i < t.requested.len() {
            assert(u.requested[i] == t.requested[i]);
        }
    }
    assert forall|i: int, j: int| 0 <= i < j < u.requested.len() implies (
    #[trigger] u.requested[i]).0 != (#[trigger] u.requested[j]).0 by {
        assert(u.requested[i] == t.requested[i]);
        if j < t.requested.len() {
            assert(u.requested[j] == t.requested[j]);
        }
    }
    assert forall|i: int, j: int|
        0 <= i < u.requested.len() && 0 <= j < u.answered.len() implies (
    #[trigger] u.requested[i]).0 != (#[trigger] u.answered[j]).0 by {
        assert(t.calls.contains_pair(t.answered[j].0, t.answered[j].1));
        if i < t.requested.len() {
            assert(u.requested[i] == t.requested[i]);
        }
    }
}

/// The server never finds the id of a call that reaches it in flight, so it
/// never ignores a call.
pub proof fn no_call_is_ignored<C>(t: CallTraffic<C>)
    requires
        t.consistent(),
        t.requested.len() > 0,
    ensures
        !t.busy.contains_key(t.requested[0].0),
        t.take_up().consistent(),
{
    let u = t.take_up();
    assert forall|i: int| 0 <= i < u.requested.len() implies u.calls.contains_pair(
        (#[trigger] u.requested[i]).0,
        u.requested[i].1,
    ) && !u.busy.contains_key(u.requested[i].0) by {
        assert(u.requested[i] == t.requested[i + 1]);
    }
    assert forall|i: int, j: int| 0 <= i < j < u.requested.len() implies (
    #[trigger] u.requested[i]).0 != (#[trigger] u.requested[j]).0 by {
        assert(u.requested[i] == t.requested[i + 1]);
        assert(u.requested[j] == t.requested[j + 1]);
    }
    assert forall|i: int, j: int|
        0 <= i < u.requested.len() && 0 <= j < u.answered.len() implies (
    #[trigger] u.requested[i]).0 != (#[trigger] u.answered[j]).0 by {
        assert(u.requested[i] == t.requested[i + 1]);
    }
}

/// Answering a call in flight keeps the traffic consistent.
pub proof fn answering_keeps_calls_apart<C>(t: CallTraffic<C>, id: u8)
    requires
        t.consistent(),
        t.busy.contains_key(id),
    ensures
        t.answer(id).consistent(),
{
    let u = t.answer(id);
    assert forall|i: int| 0 <= i < u.answered.len() implies u.calls.contains_pair(
        (#[trigger] u.answered[i]).0,
        u.answered[i].1,
    ) && !u.busy.contains_key(u.answered[i].0) by {
        if i < t.answered.len() {
            assert(u.answered[i] == t.answered[i]);
        }
    }
    assert forall|i: int, j: int| 0 <= i < j < u.answered.len() implies (
    #[trigger] u.answered[i]).0 != (#[trigger] u.answered[j]).0 by {
        assert(u.answered[i] == t.answered[i]);
        if j < t.answered.len() {
            assert(u.answered[j] == t.answered[j]);
        }
    }
    assert forall|i: int, j: int|
        0 <= i < u.requested.len() && 0 <= j < u.answered.len() implies (
    #[trigger] u.requested[i]).0 != (#[trigger] u.answered[j]).0 by {
        if j < t.answered.len() {
            assert(u.answered[j] == t.answered[j]);
        }
    }
}

/// The client always finds the call that an answer belongs to waiting under the
/// answer's id, so every caller gets the result of its own call; and once the
/// answer is taken up the id is free, at the server too.
pub proof fn answers_reach_their_callers<C>(t: CallTraffic<C>)
    requires
        t.consistent(),
        t.answered.len() > 0,
    ensures
        t.calls.contains_pair(t.answered[0].0, t.answered[0].1),
        t.complete().consistent(),
        !t.complete().calls.contains_key(t.answered[0].0),
        !t.complete().busy.contains_key(t.answered[0].0),
{
    let u = t.complete();
    assert(t.calls.contains_pair(t.answered[0].0, t.answered[0].1));
    assert forall|i: int| 0 <= i < u.answered.len() implies u.calls.contains_pair(
        (#[trigger] u.answered[i]).0,
        u.answered[i].1,
    ) && !u.busy.contains_key(u.answered[i].0) by {
        assert(u.answered[i] == t.answered[i + 1]);
    }
    assert forall|i: int, j: int| 0 <= i < j < u.answered.len() implies (
    #[trigger] u.answered[i]).0 != (#[trigger] u.answered[j]).0 by {
        assert(u.answered[i] == t.answered[i + 1]);
        assert(u.answered[j] == t.answered[j + 1]);
    }
    assert forall|i: int, j: int|
        0 <= i < u.requested.len() && 0 <= j < u.answered.len() implies (
    #[trigger] u.requested[i]).0 != (#[trigger] u.answered[j]).0 by {
        assert(u.answered[j] == t.answered[j + 1]);
    }
}

/// The ids below `n`.
spec fn ids_below(n: nat) -> Set<u8> {
    Set::new(|id: u8| id < n)
}

/// There are `n` ids below `n`.
proof fn count_ids_below(n: nat)
    requires
        n <= 256,
    ensures
        ids_below(n).finite(),
        ids_below(n).len() == n,
    decreases n,
{
    if n == 0 {
        assert(ids_below(n) =~= Set::empty());
    } else {
        count_ids_below((n - 1) as nat);
        assert(ids_below(n) =~= ids_below((n - 1) as nat).insert((n - 1) as u8));
    }
}

/// Up to 256 calls can wait at the same time, and only when so many do is there
/// no id for another one.
pub proof fn calls_are_limited<C>(calls: Map<u8, C>)
    ensures
        calls.dom().finite(),
        calls.dom().len() <= 256,
        all_taken(calls) <==> calls.dom().len() == 256,
{
    count_ids_below(256);
    let all = ids_below(256);
    assert(calls.dom().subset_of(all));
    vstd::set_lib::lemma_len_subset(calls.dom(), all);
    if all_taken(calls) {
        assert(calls.dom() =~= all);
    }
    if calls.dom().len() == 256 {
        vstd::set_lib::lemma_subset_equality(calls.dom(), all);
        assert forall|id: u8| #[trigger] calls.contains_key(id) by {
            assert(all.contains(id));
        }
    }
}

/// Every emitter of a server feeds the server's event switch: whatever has been
/// handed in through any of them is taken up whole, and nothing of it is left.
/// Nothing is taken up from the emitters of a server on another channel.
pub proof fn emitters_feed_their_switch<Tls, Factory, Notifier>(
    server: Server<Tls, Factory, Notifier>,
    switch: EventSwitch,
    emitters: Seq<EventEmitter>,
)
    requires
        switch.source() == server.event_tx,
    ensures
        forall|i: int|
            0 <= i < emitters.len() && (#[trigger] emitters[i]).channel() == server.event_tx ==> {
                &&& taken_up(switch.source(), emitters[i].channel(), emitters[i]@)
                    == emitters[i]@
                &&& left_over(switch.source(), emitters[i].channel(), emitters[i]@).len() == 0
            },
        forall|i: int|
            0 <= i < emitters.len() && (#[trigger] emitters[i]).channel() != server.event_tx ==> {
                &&& taken_up(switch.source(), emitters[i].channel(), emitters[i]@).len() == 0
                &&& left_over(switch.source(), emitters[i].channel(), emitters[i]@)
                    == emitters[i]@
            },
{
}

/// Whether the event switch and the open connections agree: the switch has a
/// route to an open connection exactly when the connection has the
/// subscription. `conns` is the subscriptions of each open connection by
/// channel. The switch may still have routes to channels that are closed.
pub open spec fn routes_agree(
    routes: Map<(Seq<u8>, bool), Map<Seq<u8>, u64>>,
    conns: Map<u64, Map<(Seq<u8>, bool), Seq<u8>>>,
) -> bool {
    forall|topic: (Seq<u8>, bool), id: Seq<u8>, tx: u64|
        #![trigger subscribers_of(routes, topic).contains_pair(id, tx)]
        #![trigger conns[tx].contains_pair(topic, id)]
        conns.contains_key(tx) ==> (subscribers_of(routes, topic).contains_pair(id, tx)
            <==> conns[tx].contains_pair(topic, id))
}

/// Whether no topic has infinitely many subscribers.
pub open spec fn finite_routes(routes: Map<(Seq<u8>, bool), Map<Seq<u8>, u64>>) -> bool {
    forall|topic: (Seq<u8>, bool)| #[trigger]
        routes.contains_key(topic) ==> routes[topic].dom().finite()
}

/// Whether every topic has a subscriber.
pub open spec fn no_empty_topics(routes: Map<(Seq<u8>, bool), Map<Seq<u8>, u64>>) -> bool {
    forall|topic: (Seq<u8>, bool)| #[trigger]
        routes.contains_key(topic) ==> routes[topic].dom().len() > 0
}

/// The routes after a connection has told the switch of a change, if any.
pub open spec fn told_routes(
    routes: Map<(Seq<u8>, bool), Map<Seq<u8>, u64>>,
    change: Option<Change>,
) -> Map<(Seq<u8>, bool), Map<Seq<u8>, u64>> {
    match change {
        Some(c) => changed_routes(routes, c),
        None => routes,
    }
}

/// A server without connections and subscriptions agrees.
pub proof fn routes_start_in_agreement()
    ensures
        routes_agree(Map::empty(), Map::empty()),
        finite_routes(Map::empty()),
        no_empty_topics(Map::empty()),
{
}

/// When a connection takes up a wish of its handler and tells the switch, the
/// two still agree. The id of a new subscription must be new to its topic.
pub proof fn wishes_keep_agreement(
    routes: Map<(Seq<u8>, bool), Map<Seq<u8>, u64>>,
    conns: Map<u64, Map<(Seq<u8>, bool), Seq<u8>>>,
    tx: u64,
    wish: Wish,
    fresh: Seq<u8>,
)
    requires
        routes_agree(routes, conns),
        finite_routes(routes),
        conns.contains_key(tx),
        wish matches Wish::Subscribe(topic) ==> !subscribers_of(routes, topic).contains_key(fresh),
    ensures
        ({
            let change = granted(conns[tx], tx, wish, fresh);
            let after = told_routes(routes, change);
            &&& routes_agree(after, conns.insert(tx, changed_topics(conns[tx], change)))
            &&& finite_routes(after)
        }),
{
    let change = granted(conns[tx], tx, wish, fresh);
    let after = told_routes(routes, change);
    let mine = changed_topics(conns[tx], change);
    let all = conns.insert(tx, mine);
    assert forall|topic: (Seq<u8>, bool)| #[trigger]
        after.contains_key(topic) implies after[topic].dom().finite() by {
        assert(routes.contains_key(topic) ==> routes[topic].dom().finite());
    }
    assert forall|topic: (Seq<u8>, bool), id: Seq<u8>, ch: u64|
        all.contains_key(ch) implies (subscribers_of(after, topic).contains_pair(id, ch)
        <==> all[ch].contains_pair(topic, id)) by {
        assert(subscribers_of(routes, topic).contains_pair(id, ch) <==> conns[ch].contains_pair(
            topic,
            id,
        ));
        match change {
            Some(Change::Subscribe { topic: t, id: i, tx: x }) => {
                if topic == t {
                    assert(subscribers_of(after, t) == subscribers_of(routes, t).insert(i, x));
                } else {
                    assert(subscribers_of(after, topic) == subscribers_of(routes, topic));
                }
            },
            Some(Change::Unsubscribe { topic: t, id: i }) => {
                assert(conns[tx].contains_pair(t, i));
                assert(subscribers_of(routes, t).contains_pair(i, tx));
                if topic == t {
                    let left = routes[t].remove(i);
                    assert(routes.contains_key(t) && routes[t].dom().finite());
                    if left.dom().len() == 0 {
                        assert(left.dom() =~= Set::empty());
                        assert(!left.contains_key(id));
                        assert(subscribers_of(after, t) == Map::<Seq<u8>, u64>::empty());
                    } else {
                        assert(subscribers_of(after, t) == left);
                    }
                    assert(subscribers_of(after, t).contains_pair(id, ch) <==> id != i
                        && subscribers_of(routes, t).contains_pair(id, ch));
                } else {
                    assert(subscribers_of(after, topic) == subscribers_of(routes, topic));
                }
            },
            None => {},
        }
    }
}

/// A connection that opens on a channel to which there is no route, and has no
/// subscriptions, keeps the agreement.
pub proof fn opening_keeps_agreement(
    routes: Map<(Seq<u8>, bool), Map<Seq<u8>, u64>>,
    conns: Map<u64, Map<(Seq<u8>, bool), Seq<u8>>>,
    tx: u64,
)
    requires
        routes_agree(routes, conns),
        forall|topic: (Seq<u8>, bool), id: Seq<u8>|
            !#[trigger] subscribers_of(routes, topic).contains_pair(id, tx),
    ensures
        routes_agree(routes, conns.insert(tx, Map::empty())),
{
}

/// A connection that closes keeps the agreement among the others.
pub proof fn closing_keeps_agreement(
    routes: Map<(Seq<u8>, bool), Map<Seq<u8>, u64>>,
    conns: Map<u64, Map<(Seq<u8>, bool), Seq<u8>>>,
    tx: u64,
)
    requires
        routes_agree(routes, conns),
    ensures
        routes_agree(routes, conns.remove(tx)),
{
}

/// Dropping subscriptions whose channels are closed keeps the agreement.
pub proof fn dropping_keeps_agreement(
    routes: Map<(Seq<u8>, bool), Map<Seq<u8>, u64>>,
    conns: Map<u64, Map<(Seq<u8>, bool), Seq<u8>>>,
    topic: (Seq<u8>, bool),
    closed: Seq<SubscriptionID>,
)
    requires
        routes_agree(routes, conns),
        finite_routes(routes),
        routes.contains_key(topic),
        forall|id: Seq<u8>|
            names_id(closed, id) && #[trigger] routes[topic].contains_key(id)
                ==> !conns.contains_key(routes[topic][id]),
    ensures
        routes_agree(routes.insert(topic, without_ids(routes[topic], closed)), conns),
        finite_routes(routes.insert(topic, without_ids(routes[topic], closed))),
{
    let left = without_ids(routes[topic], closed);
    let after = routes.insert(topic, left);
    assert(routes[topic].dom().finite());
    assert(left.dom().subset_of(routes[topic].dom()));
    vstd::set_lib::lemma_set_subset_finite(routes[topic].dom(), left.dom());
    assert forall|t: (Seq<u8>, bool)| #[trigger] after.contains_key(t) implies after[t].dom().finite() by {
        if t != topic {
            assert(routes.contains_key(t));
        }
    }
    assert forall|t: (Seq<u8>, bool), id: Seq<u8>, tx: u64| conns.contains_key(tx) implies (
    subscribers_of(after, t).contains_pair(id, tx) <==> conns[tx].contains_pair(t, id)) by {
        assert(subscribers_of(routes, t).contains_pair(id, tx) <==> conns[tx].contains_pair(t, id));
        if t == topic {
            assert(subscribers_of(after, t) == left);
            assert(left.contains_key(id) <==> routes[topic].contains_key(id) && !names_id(
                closed,
                id,
            ));
            if routes[topic].contains_pair(id, tx) {
                assert(routes[topic].contains_key(id));
                assert(!names_id(closed, id));
            }
        } else {
            assert(subscribers_of(after, t) == subscribers_of(routes, t));
        }
    }
}

/// Among the open connections, an event goes to exactly those that are
/// subscribed to its topic, and to each of them once.
pub proof fn events_reach_the_subscribed(
    routes: Map<(Seq<u8>, bool), Map<Seq<u8>, u64>>,
    conns: Map<u64, Map<(Seq<u8>, bool), Seq<u8>>>,
    topic: (Seq<u8>, bool),
    list: Seq<(SubscriptionID, u64)>,
)
    requires
        routes_agree(routes, conns),
        lists_subscribers(list, subscribers_of(routes, topic)),
    ensures
        forall|tx: u64| #[trigger]
            conns.contains_key(tx) ==> ((exists|i: int|
                0 <= i < list.len() && (#[trigger] list[i]).1 == tx) <==> conns[tx].contains_key(
                topic,
            )),
        forall|i: int, j: int|
            0 <= i < j < list.len() && conns.contains_key(list[i].1) ==> (#[trigger] list[i]).1 != (
            #[trigger] list[j]).1,
{
    let subs = subscribers_of(routes, topic);
    assert forall|tx: u64| #[trigger] conns.contains_key(tx) implies ((exists|i: int|
        0 <= i < list.len() && (#[trigger] list[i]).1 == tx) <==> conns[tx].contains_key(topic)) by {
        if exists|i: int| 0 <= i < list.len() && (#[trigger] list[i]).1 == tx {
            let i = choose|i: int| 0 <= i < list.len() && (#[trigger] list[i]).1 == tx;
            assert(subs.contains_pair(list[i].0@, tx));
            assert(conns[tx].contains_pair(topic, list[i].0@));
        }
        if conns[tx].contains_key(topic) {
            let id = conns[tx][topic];
            assert(conns[tx].contains_pair(topic, id));
            assert(subs.contains_pair(id, tx));
            assert(subs.contains_key(id));
            let i = choose|i: int| 0 <= i < list.len() && (#[trigger] list[i]).0@ == id;
            assert(subs.contains_pair(list[i].0@, list[i].1));
            assert(list[i].1 == tx);
        }
    }
    assert forall|i: int, j: int|
        0 <= i < j < list.len() && conns.contains_key(list[i].1) implies (#[trigger] list[i]).1 != (
    #[trigger] list[j]).1 by {
        assert(subs.contains_pair(list[i].0@, list[i].1));
        assert(subs.contains_pair(list[j].0@, list[j].1));
        if list[i].1 == list[j].1 {
            assert(conns[list[i].1].contains_pair(topic, list[i].0@));
            assert(conns[list[j].1].contains_pair(topic, list[j].0@));
        }
    }
}

/// As long as no channel has been found closed, the application is told of a
/// topic exactly when it comes into being and exactly when it goes. The id of a
/// new subscription must be new to its topic.
pub proof fn notices_match_topics(
    routes: Map<(Seq<u8>, bool), Map<Seq<u8>, u64>>,
    change: Change,
)
    requires
        finite_routes(routes),
        no_empty_topics(routes),
        change matches Change::Subscribe { topic, id, tx } ==> !subscribers_of(
            routes,
            topic,
        ).contains_key(id),
    ensures
        finite_routes(changed_routes(routes, change)),
        no_empty_topics(changed_routes(routes, change)),
        forall|topic: (Seq<u8>, bool)|
            change_notice(routes, change) == Some(Notice::Created(topic)) <==> (
            !routes.contains_key(topic) && #[trigger] changed_routes(
                routes,
                change,
            ).contains_key(topic)),
        forall|topic: (Seq<u8>, bool)|
            change_notice(routes, change) == Some(Notice::Removed(topic)) <==> (
            routes.contains_key(topic) && !#[trigger] changed_routes(
                routes,
                change,
            ).contains_key(topic)),
{
    let after = changed_routes(routes, change);
    match change {
        Change::Subscribe { topic, id, tx } => {
            let before = subscribers_of(routes, topic);
            assert(before.dom().finite());
            assert(before.insert(id, tx).dom() =~= before.dom().insert(id));
            assert(before.insert(id, tx).dom().len() == before.dom().len() + 1);
            assert forall|t: (Seq<u8>, bool)| #[trigger] after.contains_key(t) implies after[t].dom().finite()
                && after[t].dom().len() > 0 by {
                if t != topic {
                    assert(routes.contains_key(t));
                }
            }
        },
        Change::Unsubscribe { topic, id } => {
            assert forall|t: (Seq<u8>, bool)| #[trigger] after.contains_key(t) implies after[t].dom().finite()
                && after[t].dom().len() > 0 by {
                assert(routes.contains_key(t));
            }
        },
    }
}

/// A handler that asks twice for the same subscription, or for the end of one
/// that is not there, changes nothing and the event switch hears nothing.
pub proof fn repeated_wishes_are_silent(
    topics: Map<(Seq<u8>, bool), Seq<u8>>,
    tx: u64,
    topic: (Seq<u8>, bool),
    fresh: Seq<u8>,
    later: Seq<u8>,
)
    ensures
        ({
            let once = changed_topics(topics, granted(topics, tx, Wish::Subscribe(topic), fresh));
            granted(once, tx, Wish::Subscribe(topic), later) is None
        }),
        ({
            let once = changed_topics(topics, granted(topics, tx, Wish::Unsubscribe(topic), fresh));
            granted(once, tx, Wish::Unsubscribe(topic), later) is None
        }),
{
}

/// Taking back a change that the event switch could not be told leaves the
/// subscriptions as they were.
pub proof fn taking_back_restores(
    topics: Map<(Seq<u8>, bool), Seq<u8>>,
    tx: u64,
    wish: Wish,
    fresh: Seq<u8>,
)
    ensures
        granted(topics, tx, wish, fresh) matches Some(change) ==> restored_topics(
            changed_topics(topics, Some(change)),
            change,
        ) == topics,
{
    match granted(topics, tx, wish, fresh) {
        Some(change) => {
            assert(restored_topics(changed_topics(topics, Some(change)), change) =~= topics);
        },
        None => {},
    }
}

/// Unsubscribing undoes subscribing, at the connection and at the switch: both
/// are as they were, and the application that was told of a new topic is told
/// that it is gone. The id of the subscription must be new to its topic.
pub proof fn unsubscribing_undoes_subscribing(
    topics: Map<(Seq<u8>, bool), Seq<u8>>,
    routes: Map<(Seq<u8>, bool), Map<Seq<u8>, u64>>,
    tx: u64,
    topic: (Seq<u8>, bool),
    fresh: Seq<u8>,
    later: Seq<u8>,
)
    requires
        !topics.contains_key(topic),
        finite_routes(routes),
        no_empty_topics(routes),
        !subscribers_of(routes, topic).contains_key(fresh),
    ensures
        ({
            let on = granted(topics, tx, Wish::Subscribe(topic), fresh);
            let with = changed_topics(topics, on);
            let off = granted(with, tx, Wish::Unsubscribe(topic), later);
            &&& on is Some && off is Some
            &&& changed_topics(with, off) == topics
            &&& told_routes(told_routes(routes, on), off) == routes
            &&& change_notice(routes, on->0) is Some <==> change_notice(
                told_routes(routes, on),
                off->0,
            ) is Some
        }),
{
    let on = granted(topics, tx, Wish::Subscribe(topic), fresh);
    let with = changed_topics(topics, on);
    let off = granted(with, tx, Wish::Unsubscribe(topic), later);
    assert(changed_topics(with, off) =~= topics);
    let before = subscribers_of(routes, topic);
    assert(before.dom().finite());
    let after = told_routes(routes, on);
    assert(after[topic] == before.insert(fresh, tx));
    assert(after[topic].remove(fresh) =~= before);
    assert(before.insert(fresh, tx).dom() =~= before.dom().insert(fresh));
    assert(before.dom().len() == 0 ==> before.dom() =~= Set::empty());
    if !routes.contains_key(topic) {
        assert(before.dom().len() == 0);
        assert(told_routes(after, off) =~= routes);
    } else {
        assert(told_routes(after, off) =~= routes);
    }
}

} // verus!
