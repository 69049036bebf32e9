//! The server's side of one connection: which calls are in flight, which
//! topics the connection is subscribed to, and what to do about everything
//! that arrives.
use rand::RngCore;
use vstd::prelude::*;

use crate::event::{
    Change, Event, ProxiedSubscriptionNotification, SubscriptionID, SubscriptionNotification, Wish,
};
use crate::maps::{topic_ids, TopicIds};
use crate::topic::Topic;
use crate::wire::{ClientMessage, HandlerResult, ServerMessage, StateUpdate};

verus! {

/// `rand::thread_rng` fills an array with random bytes; nothing is known of
/// them.
#[verifier::external_body]
fn random_id() -> (id: SubscriptionID) {
    let mut id = [0; 16];
    rand::thread_rng().fill_bytes(&mut id);
    id
}

/// What a connection tells the event switch when its handler wishes for a
/// change of subscriptions: nothing when there is nothing to change. A new
/// subscription bears the id `fresh`.
pub open spec fn granted(
    topics: Map<(Seq<u8>, bool), Seq<u8>>,
    tx: u64,
    wish: Wish,
    fresh: Seq<u8>,
) -> Option<Change> {
    match wish {
        Wish::Subscribe(topic) => if topics.contains_key(topic) {
            None
        } else {
            Some(Change::Subscribe { topic, id: fresh, tx })
        },
        Wish::Unsubscribe(topic) => if topics.contains_key(topic) {
            Some(Change::Unsubscribe { topic, id: topics[topic] })
        } else {
            None
        },
    }
}

/// The subscriptions of a connection after a change.
pub open spec fn changed_topics(
    topics: Map<(Seq<u8>, bool), Seq<u8>>,
    change: Option<Change>,
) -> Map<(Seq<u8>, bool), Seq<u8>> {
    match change {
        Some(Change::Subscribe { topic, id, tx }) => topics.insert(topic, id),
        Some(Change::Unsubscribe { topic, id }) => topics.remove(topic),
        None => topics,
    }
}

/// The subscriptions of a connection after taking a change back.
pub open spec fn restored_topics(
    topics: Map<(Seq<u8>, bool), Seq<u8>>,
    change: Change,
) -> Map<(Seq<u8>, bool), Seq<u8>> {
    match change {
        Change::Subscribe { topic, id, tx } => topics.remove(topic),
        Change::Unsubscribe { topic, id } => topics.insert(topic, id),
    }
}

/// The view of a notification that may be missing.
pub open spec fn optional_change(n: Option<SubscriptionNotification>) -> Option<Change> {
    match n {
        Some(n) => Some(n@),
        None => None,
    }
}

/// Something that a connection takes up.
pub enum ConnectionEvent {
    /// A handler has come to the result of a call.
    RpcDone { id: u8, output: HandlerResult<Vec<u8>> },
    /// The handler has changed the connection state.
    StateChanged(Vec<StateUpdate>),
    /// The event switch has routed an event here.
    Routed(Event),
    /// The handler wishes for a change of subscriptions.
    Wished(ProxiedSubscriptionNotification),
    /// The client has sent a message, which may not have decoded.
    Received(Option<ClientMessage>),
}

/// What there is to do for a connection.
pub enum ConnectionAction {
    /// Nothing.
    Ignore,
    /// Send a message to the client.
    Send(ServerMessage),
    /// Let the handler work on a call.
    Handle { id: u8, internal: Vec<u8> },
    /// Tell the event switch about a change of subscriptions.
    Notify(SubscriptionNotification),
}

/// The server's side of one connection.
pub struct Connection {
    in_flight: [bool; 256],
    subscriptions: TopicIds,
    events_tx: u64,
}

impl Connection {
    /// The ids of the calls that the handler is working on.
    pub closed spec fn busy(&self) -> Set<u8> {
        Set::new(|id: u8| self.in_flight@[id as int])
    }

    /// The topics that the connection is subscribed to, with the ids of the
    /// subscriptions.
    pub closed spec fn topics(&self) -> Map<(Seq<u8>, bool), Seq<u8>> {
        topic_ids(self.subscriptions)
    }

    /// The number of the channel on which the connection takes events.
    pub closed spec fn channel(&self) -> u64 {
        self.events_tx
    }

    /// A new connection, without calls and subscriptions.
    pub fn new(events_tx: u64) -> (r: Connection)
        ensures
            r.busy() == Set::<u8>::empty(),
            (r.topics() == Map::<(Seq<u8>, bool), Seq<u8>>::empty()),
            r.channel() == events_tx,
    {
        let r = Connection { in_flight: [false; 256], subscriptions: TopicIds::new(), events_tx };
        assert(r.busy() =~= Set::<u8>::empty());
        r
    }

    /// Takes up a message from the client. A call is handed out for the
    /// handler, unless one with its id is in flight already: then it is
    /// ignored, as is a message that did not decode.
    pub fn receive(&mut self, msg: Option<ClientMessage>) -> (r: Option<(u8, Vec<u8>)>)
        ensures
            final(self).topics() == old(self).topics(),
            final(self).channel() == old(self).channel(),
            match msg {
                Some(ClientMessage::RPCRequest { id, internal }) => if old(self).busy().contains(
                    id,
                ) {
                    r is None && final(self).busy() == old(self).busy()
                } else {
                    r == Some((id, internal)) && final(self).busy() == old(self).busy().insert(id)
                },
                None => r is None && final(self).busy() == old(self).busy(),
            },
    {
        match msg {
            Some(ClientMessage::RPCRequest { id, internal }) => {
                if self.in_flight[id as usize] {
                    return None;
                }
                self.in_flight[id as usize] = true;
                assert(self.busy() =~= old(self).busy().insert(id));
                Some((id, internal))
            },
            None => None,
        }
    }

    /// Takes up the result of a call: its id is free again, and the client is
    /// to be sent the result.
    pub fn respond(&mut self, id: u8, output: HandlerResult<Vec<u8>>) -> (r: ServerMessage)
        ensures
            final(self).busy() == old(self).busy().remove(id),
            final(self).topics() == old(self).topics(),
            final(self).channel() == old(self).channel(),
            r == (ServerMessage::RPCResponse { id, output }),
    {
        self.in_flight[id as usize] = false;
        assert(self.busy() =~= old(self).busy().remove(id));
        ServerMessage::RPCResponse { id, output }
    }

    /// Whether the connection is subscribed to `topic`.
    pub fn is_subscribed(&self, topic: &Topic) -> (r: bool)
        ensures
            r == self.topics().contains_key(topic@),
    {
        self.subscriptions.contains_key(&topic.key())
    }

    /// Takes up a wish of the handler and says what the event switch is to be
    /// told. `fresh` is the id for a new subscription.
    pub fn grant(&mut self, wish: ProxiedSubscriptionNotification, fresh: SubscriptionID) -> (r:
        Option<SubscriptionNotification>)
        ensures
            optional_change(r) == granted(
                old(self).topics(),
                old(self).channel(),
                wish@,
                fresh@,
            ),
            final(self).topics() == changed_topics(old(self).topics(), optional_change(r)),
            final(self).busy() == old(self).busy(),
            final(self).channel() == old(self).channel(),
    {
        match wish {
            ProxiedSubscriptionNotification::Subscribe(topic) => {
                if self.is_subscribed(&topic) {
                    return None;
                }
                self.subscriptions.insert(topic.key(), fresh);
                Some(
                    SubscriptionNotification::Subscribe { topic, id: fresh, tx: self.events_tx },
                )
            },
            ProxiedSubscriptionNotification::Unsubscribe(topic) => {
                match self.subscriptions.remove(&topic.key()) {
                    Some(id) => Some(SubscriptionNotification::Unsubscribe { topic, id }),
                    None => {
                        assert(self.topics() =~= old(self).topics());
                        None
                    },
                }
            },
        }
    }

    /// Takes back a change that the event switch could not be told.
    pub fn take_back(&mut self, change: SubscriptionNotification)
        ensures
            final(self).topics() == restored_topics(old(self).topics(), change@),
            final(self).busy() == old(self).busy(),
            final(self).channel() == old(self).channel(),
    {
        match change {
            SubscriptionNotification::Subscribe { topic, id, tx } => {
                self.subscriptions.remove(&topic.key());
            },
            SubscriptionNotification::Unsubscribe { topic, id } => {
                self.subscriptions.insert(topic.key(), id);
            },
        }
    }

    /// Takes up whatever has arrived and says what there is to do.
    pub fn step(&mut self, event: ConnectionEvent) -> (r: ConnectionAction)
        ensures
            final(self).channel() == old(self).channel(),
            match event {
                ConnectionEvent::RpcDone { id, output } => {
                    &&& r == ConnectionAction::Send(ServerMessage::RPCResponse { id, output })
                    &&& final(self).busy() == old(self).busy().remove(id)
                    &&& final(self).topics() == old(self).topics()
                },
                ConnectionEvent::StateChanged(changes) => {
                    &&& r == ConnectionAction::Send(ServerMessage::StateChange(changes))
                    &&& final(self).busy() == old(self).busy()
                    &&& final(self).topics() == old(self).topics()
                },
                ConnectionEvent::Routed(e) => {
                    &&& r == ConnectionAction::Send(
                        ServerMessage::NewEvent { topic: e.topic, payload: e.payload },
                    )
                    &&& final(self).busy() == old(self).busy()
                    &&& final(self).topics() == old(self).topics()
                },
                ConnectionEvent::Wished(wish) => {
                    &&& final(self).busy() == old(self).busy()
                    &&& exists|fresh: Seq<u8>|
                        {
                            &&& fresh.len() == 16
                            &&& (#[trigger] granted(
                                old(self).topics(),
                                old(self).channel(),
                                wish@,
                                fresh,
                            )) == (match r {
                                ConnectionAction::Notify(n) => Some(n@),
                                _ => None,
                            })
                        }
                    &&& r is Notify || r is Ignore
                    &&& final(self).topics() == changed_topics(
                        old(self).topics(),
                        match r {
                            ConnectionAction::Notify(n) => Some(n@),
                            _ => None,
                        },
                    )
                },
                ConnectionEvent::Received(Some(ClientMessage::RPCRequest { id, internal })) => {
                    &&& final(self).topics() == old(self).topics()
                    &&& if old(self).busy().contains(id) {
                        r is Ignore && final(self).busy() == old(self).busy()
                    } else {
                        &&& r == (ConnectionAction::Handle { id, internal })
                        &&& final(self).busy() == old(self).busy().insert(id)
                    }
                },
                ConnectionEvent::Received(None) => {
                    &&& r is Ignore
                    &&& final(self).busy() == old(self).busy()
                    &&& final(self).topics() == old(self).topics()
                },
            },
    {
        match event {
            ConnectionEvent::RpcDone { id, output } => ConnectionAction::Send(
                self.respond(id, output),
            ),
            ConnectionEvent::StateChanged(changes) => ConnectionAction::Send(
                ServerMessage::StateChange(changes),
            ),
            ConnectionEvent::Routed(e) => ConnectionAction::Send(
                ServerMessage::NewEvent { topic: e.topic, payload: e.payload },
            ),
            ConnectionEvent::Wished(wish) => {
                let fresh = random_id();
                assert(fresh@.len() == 16);
                assert(granted(self.topics(), self.channel(), wish@, fresh@) == granted(
                    old(self).topics(),
                    old(self).channel(),
                    wish@,
                    fresh@,
                ));
                match self.grant(wish, fresh) {
                    Some(change) => ConnectionAction::Notify(change),
                    None => ConnectionAction::Ignore,
                }
            },
            ConnectionEvent::Received(msg) => match self.receive(msg) {
                Some((id, internal)) => ConnectionAction::Handle { id, internal },
                None => ConnectionAction::Ignore,
            },
        }
    }
}

/// A wish is fulfilled: the connection is subscribed afterwards exactly when
/// that was the wish, and nothing else changes. The event switch hears of it
/// exactly when it was not so already; it hears of that topic, with the id of the
/// subscription that begins or ends, and for one that begins with the channel of
/// the connection and the new id.
pub proof fn wishes_are_fulfilled(
    topics: Map<(Seq<u8>, bool), Seq<u8>>,
    tx: u64,
    topic: (Seq<u8>, bool),
    fresh: Seq<u8>,
)
    ensures
        ({
            let change = granted(topics, tx, Wish::Subscribe(topic), fresh);
            let after = changed_topics(topics, change);
            &&& after.contains_key(topic)
            &&& forall|t: (Seq<u8>, bool)|
                t != topic ==> (#[trigger] after.contains_key(t) <==> topics.contains_key(t))
            &&& forall|t: (Seq<u8>, bool)| #[trigger]
                topics.contains_key(t) ==> after[t] == topics[t]
            &&& change is Some <==> !topics.contains_key(topic)
            &&& change matches Some(c) ==> c is Subscribe && c->Subscribe_topic == topic
                && c->Subscribe_id == fresh && c->tx == tx && after[topic] == fresh
        }),
        ({
            let change = granted(topics, tx, Wish::Unsubscribe(topic), fresh);
            let after = changed_topics(topics, change);
            &&& !after.contains_key(topic)
            &&& forall|t: (Seq<u8>, bool)|
                t != topic ==> (#[trigger] after.contains_key(t) <==> topics.contains_key(t))
            &&& forall|t: (Seq<u8>, bool)| #[trigger]
                after.contains_key(t) ==> after[t] == topics[t]
            &&& change is Some <==> topics.contains_key(topic)
            &&& change matches Some(c) ==> c is Unsubscribe && c->Unsubscribe_topic == topic
                && c->Unsubscribe_id == topics[topic]
        }),
{
}

/// The view of a notification that may be missing tells it, or that it is.
pub proof fn optional_changes_tell_all(n: SubscriptionNotification)
    ensures
        optional_change(None) is None,
        optional_change(Some(n)) == Some(n@),
{
}

/// A subscription that is taken back is gone, and the end of one that is taken
/// back leaves the subscription with its id; no other topic is touched.
pub proof fn changes_are_taken_back(
    topics: Map<(Seq<u8>, bool), Seq<u8>>,
    topic: (Seq<u8>, bool),
    id: Seq<u8>,
    tx: u64,
    t: (Seq<u8>, bool),
)
    ensures
        ({
            let after = restored_topics(topics, Change::Subscribe { topic, id, tx });
            &&& !after.contains_key(topic)
            &&& t != topic ==> (after.contains_key(t) <==> topics.contains_key(t))
            &&& t != topic && topics.contains_key(t) ==> after[t] == topics[t]
        }),
        ({
            let after = restored_topics(topics, Change::Unsubscribe { topic, id });
            &&& after.contains_key(topic) && after[topic] == id
            &&& t != topic ==> (after.contains_key(t) <==> topics.contains_key(t))
            &&& t != topic && topics.contains_key(t) ==> after[t] == topics[t]
        }),
{
}

} // verus!
