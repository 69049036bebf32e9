//! The event switch, which routes events to the connections subscribed to
//! their topics.
use vstd::prelude::*;

use crate::event::{
    Change, Event, EventEmitter, Notice, SubscriptionID, SubscriptionNotification,
    TopicNotification,
};
use crate::maps::{topics, subscribers, Subscribers, Topics};
use crate::topic::Topic;

verus! {

/// The subscribers that `m` files under `topic`: none when it has no entry.
pub open spec fn subscribers_of(
    m: Map<(Seq<u8>, bool), Map<Seq<u8>, u64>>,
    topic: (Seq<u8>, bool),
) -> Map<Seq<u8>, u64> {
    if m.contains_key(topic) {
        m[topic]
    } else {
        Map::empty()
    }
}

/// The routes after a change of subscriptions: a new subscription is filed
/// under its topic; a topic that loses a subscription and has none left is
/// given up.
pub open spec fn changed_routes(
    m: Map<(Seq<u8>, bool), Map<Seq<u8>, u64>>,
    change: Change,
) -> Map<(Seq<u8>, bool), Map<Seq<u8>, u64>> {
    match change {
        Change::Subscribe { topic, id, tx } => m.insert(
            topic,
            subscribers_of(m, topic).insert(id, tx),
        ),
        Change::Unsubscribe { topic, id } => if !m.contains_key(topic) {
            m
        } else if m[topic].remove(id).dom().len() == 0 {
            m.remove(topic)
        } else {
            m.insert(topic, m[topic].remove(id))
        },
    }
}

/// What the application is told of a change of subscriptions: that a topic was
/// created when the new subscription is its only one, that it was removed when
/// it is given up.
pub open spec fn change_notice(
    m: Map<(Seq<u8>, bool), Map<Seq<u8>, u64>>,
    change: Change,
) -> Option<Notice> {
    match change {
        Change::Subscribe { topic, id, tx } => if subscribers_of(m, topic).insert(
            id,
            tx,
        ).dom().len() == 1 {
            Some(Notice::Created(topic))
        } else {
            None
        },
        Change::Unsubscribe { topic, id } => if m.contains_key(topic) && m[topic].remove(
            id,
        ).dom().len() == 0 {
            Some(Notice::Removed(topic))
        } else {
            None
        },
    }
}

/// Whether `list` names each subscriber in `m` once, with its channel, and
/// nobody else.
pub open spec fn lists_subscribers(
    list: Seq<(SubscriptionID, u64)>,
    m: Map<Seq<u8>, u64>,
) -> bool {
    &&& forall|i: int|
        0 <= i < list.len() ==> m.contains_pair((#[trigger] list[i]).0@, list[i].1)
    &&& forall|i: int, j: int|
        0 <= i < j < list.len() ==> (#[trigger] list[i]).0@ != (#[trigger] list[j]).0@
    &&& forall|id: Seq<u8>| #[trigger]
        m.contains_key(id) ==> exists|i: int|
            0 <= i < list.len() && (#[trigger] list[i]).0@ == id
}

/// Whether `id` is one of `ids`.
pub open spec fn names_id(ids: Seq<SubscriptionID>, id: Seq<u8>) -> bool {
    exists|i: int| 0 <= i < ids.len() && (#[trigger] ids[i])@ == id
}

/// `m` without the subscriptions that `ids` names.
pub open spec fn without_ids(
    m: Map<Seq<u8>, u64>,
    ids: Seq<SubscriptionID>,
) -> Map<Seq<u8>, u64> {
    m.restrict(Set::new(|id: Seq<u8>| !names_id(ids, id)))
}

/// What a switch with this source takes up of what is pending on a channel.
pub open spec fn taken_up(
    source: u64,
    channel: u64,
    pending: Seq<((Seq<u8>, bool), Seq<u8>)>,
) -> Seq<((Seq<u8>, bool), Seq<u8>)> {
    if channel == source {
        pending
    } else {
        Seq::empty()
    }
}

/// What stays pending on a channel when a switch with this source has taken up
/// what it takes up.
pub open spec fn left_over(
    source: u64,
    channel: u64,
    pending: Seq<((Seq<u8>, bool), Seq<u8>)>,
) -> Seq<((Seq<u8>, bool), Seq<u8>)> {
    if channel == source {
        Seq::empty()
    } else {
        pending
    }
}

/// Takes the subscriptions that `ids` names out of `subs`.
fn remove_ids(subs: &mut Subscribers, ids: &Vec<SubscriptionID>)
    ensures
        subscribers(*final(subs)) == without_ids(subscribers(*old(subs)), ids@),
{
    let mut i: usize = 0;
    assert(subscribers(*subs) =~= without_ids(subscribers(*subs), ids@.take(0)));
    while i < ids.len()
        invariant
            i <= ids@.len(),
            subscribers(*subs) == without_ids(subscribers(*old(subs)), ids@.take(i as int)),
        decreases ids@.len() - i,
    {
        subs.remove(&ids[i]);
        proof {
            let m = subscribers(*old(subs));
            let before = ids@.take(i as int);
            let now = ids@.take(i + 1);
            assert forall|id: Seq<u8>| #[trigger]
                names_id(now, id) == (names_id(before, id) || ids@[i as int]@ == id) by {
                if names_id(now, id) {
                    let k = choose|k: int| 0 <= k < now.len() && (#[trigger] now[k])@ == id;
                    assert(k < i ==> before[k]@ == id);
                }
                if names_id(before, id) {
                    let k = choose|k: int| 0 <= k < before.len() && (#[trigger] before[k])@ == id;
                    assert(now[k]@ == id);
                }
                if ids@[i as int]@ == id {
                    assert(now[i as int]@ == id);
                }
            }
            assert(without_ids(m, before).remove(ids@[i as int]@) =~= without_ids(m, now));
        }
        i += 1;
    }
    assert(ids@.take(i as int) =~= ids@);
}

/// Routes events from the application and handlers to the subscribed
/// connections.
///
/// The view is the routing table: topics to subscription ids to channel
/// numbers; `source` is the number of the channel from which events come.
pub struct EventSwitch {
    event_rx: u64,
    subscriptions: Topics,
}

impl View for EventSwitch {
    type V = Map<(Seq<u8>, bool), Map<Seq<u8>, u64>>;

    closed spec fn view(&self) -> Map<(Seq<u8>, bool), Map<Seq<u8>, u64>> {
        topics(self.subscriptions)
    }
}

impl EventSwitch {
    /// The number of the channel from which events come.
    pub closed spec fn source(&self) -> u64 {
        self.event_rx
    }

    /// A switch that takes events from the channel with this number, without
    /// subscriptions.
    pub fn new(event_rx: u64) -> (r: EventSwitch)
        ensures
            r.source() == event_rx,
            (r@ == Map::<(Seq<u8>, bool), Map<Seq<u8>, u64>>::empty()),
    {
        EventSwitch { event_rx, subscriptions: Topics::new() }
    }

    /// Takes up what an emitter has to pass on: all of it when the emitter is
    /// one for the channel from which events come, nothing otherwise.
    pub fn take_up(&self, emitter: &mut EventEmitter) -> (r: Vec<Event>)
        ensures
            r@.map_values(|e: Event| e@) == taken_up(
                self.source(),
                old(emitter).channel(),
                old(emitter)@,
            ),
            final(emitter)@ == left_over(self.source(), old(emitter).channel(), old(emitter)@),
            final(emitter).channel() == old(emitter).channel(),
    {
        if emitter.channel_number() == self.event_rx {
            let r = emitter.take_pending();
            assert(emitter@ =~= Seq::empty());
            r
        } else {
            let r: Vec<Event> = Vec::new();
            assert(r@.map_values(|e: Event| e@) =~= Seq::empty());
            r
        }
    }

    /// The subscribers that an event goes to, each with its channel, in no
    /// particular order.
    pub fn route(&self, event: &Event) -> (r: Vec<(SubscriptionID, u64)>)
        ensures
            lists_subscribers(r@, subscribers_of(self@, event.topic@)),
            forall|id: Seq<u8>|
                self@.contains_key(event.topic@) && #[trigger] self@[event.topic@].contains_key(id)
                    ==> exists|i: int|
                    0 <= i < r@.len() && (#[trigger] r@[i]).0@ == id && r@[i].1
                        == self@[event.topic@][id],
            r@.len() > 0 ==> self@.contains_key(event.topic@),
            forall|i: int|
                0 <= i < r@.len() ==> self@[event.topic@].contains_pair(
                    (#[trigger] r@[i]).0@,
                    r@[i].1,
                ),
            forall|i: int, j: int|
                0 <= i < j < r@.len() ==> (#[trigger] r@[i]).0@ != (#[trigger] r@[j]).0@,
    {
        let r = match self.subscriptions.get(&event.topic.key()) {
            Some(subs) => subs.entries(),
            None => Vec::new(),
        };
        proof {
            routes_are_the_subscribers(self@, event.topic@, r@);
        }
        r
    }

    /// Drops the subscribers of `topic` whose channels turned out to be closed.
    /// The topic keeps its entry, even when nobody is left under it.
    pub fn drop_closed(&mut self, topic: &Topic, closed: &Vec<SubscriptionID>)
        ensures
            final(self).source() == old(self).source(),
            final(self)@ == (if old(self)@.contains_key(topic@) {
                old(self)@.insert(topic@, without_ids(old(self)@[topic@], closed@))
            } else {
                old(self)@
            }),
    {
        match self.subscriptions.get_mut(&topic.key()) {
            Some(subs) => remove_ids(subs, closed),
            None => {},
        }
    }

    /// Takes up a change of subscriptions and says what the application is to
    /// be told of it.
    pub fn notify(&mut self, notification: SubscriptionNotification) -> (r: Option<
        TopicNotification,
    >)
        ensures
            final(self).source() == old(self).source(),
            final(self)@ == changed_routes(old(self)@, notification@),
            r is Some <==> change_notice(old(self)@, notification@) is Some,
            r matches Some(n) ==> Some(n@) == change_notice(old(self)@, notification@),
    {
        match notification {
            SubscriptionNotification::Subscribe { topic, id, tx } => {
                let key = topic.key();
                let count: usize;
                match self.subscriptions.get_mut(&key) {
                    Some(subs) => {
                        subs.insert(id, tx);
                        count = subs.len();
                    },
                    None => {
                        let mut subs = Subscribers::new();
                        subs.insert(id, tx);
                        count = subs.len();
                        self.subscriptions.insert(key, subs);
                    },
                }
                if count == 1 {
                    Some(TopicNotification::Created(topic))
                } else {
                    None
                }
            },
            SubscriptionNotification::Unsubscribe { topic, id } => {
                let key = topic.key();
                let emptied: bool;
                match self.subscriptions.get_mut(&key) {
                    Some(subs) => {
                        subs.remove(&id);
                        emptied = subs.len() == 0;
                    },
                    None => {
                        return None;
                    },
                }
                if emptied {
                    self.subscriptions.remove(&key);
                    Some(TopicNotification::Removed(topic))
                } else {
                    None
                }
            },
        }
    }
}

/// A new subscription is filed under its topic and id with its channel, and
/// every other subscription stays what it was.
pub proof fn subscribing_adds_one_subscription(
    m: Map<(Seq<u8>, bool), Map<Seq<u8>, u64>>,
    topic: (Seq<u8>, bool),
    id: Seq<u8>,
    tx: u64,
    t: (Seq<u8>, bool),
    i: Seq<u8>,
    x: u64,
)
    ensures
        ({
            let after = changed_routes(m, Change::Subscribe { topic, id, tx });
            &&& after.contains_key(t) <==> t == topic || m.contains_key(t)
            &&& (after.contains_key(t) && after[t].contains_pair(i, x)) <==> if t == topic && i
                == id {
                x == tx
            } else {
                m.contains_key(t) && m[t].contains_pair(i, x)
            }
        }),
{
}

/// The end of a subscription takes out that subscription and no other. A topic
/// loses its entry exactly when it had one and nobody else is subscribed to it.
pub proof fn unsubscribing_takes_one_subscription(
    m: Map<(Seq<u8>, bool), Map<Seq<u8>, u64>>,
    topic: (Seq<u8>, bool),
    id: Seq<u8>,
    t: (Seq<u8>, bool),
    i: Seq<u8>,
    x: u64,
)
    requires
        m.contains_key(topic) ==> m[topic].dom().finite(),
    ensures
        ({
            let after = changed_routes(m, Change::Unsubscribe { topic, id });
            &&& after.contains_key(t) <==> m.contains_key(t) && (t != topic || exists|other: Seq<u8>|
                other != id && #[trigger] m[topic].contains_key(other))
            &&& (after.contains_key(t) && after[t].contains_pair(i, x)) <==> m.contains_key(t)
                && m[t].contains_pair(i, x) && !(t == topic && i == id)
        }),
{
    if m.contains_key(topic) {
        let left = m[topic].remove(id);
        assert(left.dom().finite());
        if left.dom().len() == 0 {
            assert(left.dom() =~= Set::empty());
            assert forall|other: Seq<u8>| other != id implies !(#[trigger] m[topic].contains_key(
                other,
            )) by {
                assert(!left.dom().contains(other));
            }
            if m[topic].contains_pair(i, x) {
                assert(m[topic].contains_key(i));
            }
        } else {
            let other = left.dom().choose();
            assert(left.dom().contains(other));
            assert(other != id && m[topic].contains_key(other));
        }
    }
}

/// A topic is announced as created exactly when somebody subscribes to it and
/// nobody else is subscribed, whether or not it has an entry already; and as
/// removed exactly when it has an entry, a subscription ends, and nobody else is
/// subscribed. Nothing else is announced, and only of that topic.
pub proof fn topics_are_announced_by_their_subscribers(
    m: Map<(Seq<u8>, bool), Map<Seq<u8>, u64>>,
    topic: (Seq<u8>, bool),
    id: Seq<u8>,
    tx: u64,
)
    requires
        m.contains_key(topic) ==> m[topic].dom().finite(),
    ensures
        change_notice(m, Change::Subscribe { topic, id, tx }) == (if m.contains_key(topic) && (
        exists|other: Seq<u8>| other != id && #[trigger] m[topic].contains_key(other)) {
            None
        } else {
            Some(Notice::Created(topic))
        }),
        change_notice(m, Change::Unsubscribe { topic, id }) == (if !m.contains_key(topic) || (
        exists|other: Seq<u8>| other != id && #[trigger] m[topic].contains_key(other)) {
            None
        } else {
            Some(Notice::Removed(topic))
        }),
{
    let subs = subscribers_of(m, topic);
    assert(subs.dom().finite());
    let rest = subs.dom().remove(id);
    assert(subs.insert(id, tx).dom() =~= rest.insert(id));
    assert(subs.insert(id, tx).dom().len() == rest.len() + 1);
    if m.contains_key(topic) {
        assert(m[topic].remove(id).dom() =~= rest);
        if rest.len() == 0 {
            assert(rest =~= Set::empty());
            assert forall|other: Seq<u8>| other != id implies !(#[trigger] m[topic].contains_key(
                other,
            )) by {
                assert(!rest.contains(other));
            }
        } else {
            let other = rest.choose();
            assert(rest.contains(other));
            assert(other != id && m[topic].contains_key(other));
        }
    } else {
        assert(rest =~= Set::empty());
    }
}

/// A topic that had no subscriber, with or without an entry, is announced when
/// one comes, whatever its id; a topic that had another one is not.
pub proof fn first_subscriber_is_announced(
    m: Map<(Seq<u8>, bool), Map<Seq<u8>, u64>>,
    topic: (Seq<u8>, bool),
    id: Seq<u8>,
    tx: u64,
)
    requires
        m.contains_key(topic) ==> m[topic].dom().finite(),
        m.contains_key(topic) ==> !m[topic].contains_key(id),
    ensures
        change_notice(m, Change::Subscribe { topic, id, tx }) == Some(Notice::Created(topic))
            <==> !m.contains_key(topic) || forall|other: Seq<u8>|
            !#[trigger] m[topic].contains_key(other),
{
    topics_are_announced_by_their_subscribers(m, topic, id, tx);
}

/// The subscribers that an event goes to are those filed under its topic, each
/// with its channel, each once and nobody else.
pub proof fn routes_are_the_subscribers(
    m: Map<(Seq<u8>, bool), Map<Seq<u8>, u64>>,
    topic: (Seq<u8>, bool),
    list: Seq<(SubscriptionID, u64)>,
)
    requires
        lists_subscribers(list, subscribers_of(m, topic)),
    ensures
        forall|id: Seq<u8>|
            m.contains_key(topic) && #[trigger] m[topic].contains_key(id) ==> exists|i: int|
                0 <= i < list.len() && (#[trigger] list[i]).0@ == id && list[i].1 == m[topic][id],
        list.len() > 0 ==> m.contains_key(topic),
        forall|i: int|
            0 <= i < list.len() ==> m[topic].contains_pair((#[trigger] list[i]).0@, list[i].1),
        forall|i: int, j: int|
            0 <= i < j < list.len() ==> (#[trigger] list[i]).0@ != (#[trigger] list[j]).0@,
{
    let subs = subscribers_of(m, topic);
    assert forall|id: Seq<u8>|
        m.contains_key(topic) && #[trigger] m[topic].contains_key(id) implies exists|i: int|
        0 <= i < list.len() && (#[trigger] list[i]).0@ == id && list[i].1 == m[topic][id] by {
        assert(subs.contains_key(id));
        let i = choose|i: int| 0 <= i < list.len() && (#[trigger] list[i]).0@ == id;
        assert(subs.contains_pair(list[i].0@, list[i].1));
    }
    if list.len() > 0 {
        assert(subs.contains_pair(list[0].0@, list[0].1));
    }
}

/// Dropping closed subscriptions takes out exactly those that are named.
pub proof fn dropping_takes_the_named(
    m: Map<Seq<u8>, u64>,
    ids: Seq<SubscriptionID>,
    id: Seq<u8>,
    tx: u64,
)
    ensures
        without_ids(m, ids).contains_pair(id, tx) <==> m.contains_pair(id, tx) && forall|k: int|
            0 <= k < ids.len() ==> (#[trigger] ids[k])@ != id,
{
    assert(names_id(ids, id) <==> exists|k: int| 0 <= k < ids.len() && (#[trigger] ids[k])@ == id);
}

} // verus!
