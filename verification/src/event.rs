//! Events and the notifications that handlers, connections and the event
//! switch exchange about topics.
use vstd::prelude::*;
use vstd::slice::slice_to_vec;

use crate::topic::Topic;

verus! {

/// Tells the subscriptions to one topic apart.
pub type SubscriptionID = [u8; 16];

/// Something that happened under a topic.
///
/// The view is the pair of the topic and the payload.
pub struct Event {
    pub topic: Topic,
    pub payload: Vec<u8>,
}

impl View for Event {
    type V = ((Seq<u8>, bool), Seq<u8>);

    open spec fn view(&self) -> ((Seq<u8>, bool), Seq<u8>) {
        (self.topic@, self.payload@)
    }
}

impl Clone for Event {
    fn clone(&self) -> (r: Event)
        ensures
            r@ == self@,
    {
        Event { topic: self.topic.clone(), payload: slice_to_vec(self.payload.as_slice()) }
    }
}

/// The conversion of a type to itself hands back its argument.
pub assume_specification<Unchanged>[ <Unchanged as From<Unchanged>>::from ](
    v: Unchanged,
) -> (r: Unchanged)
    ensures
        r == v,
;

impl Event {
    /// An event under `topic` that carries what `payload` converts to.
    pub fn new<P: Into<Vec<u8>>>(topic: &Topic, payload: P) -> (r: Event)
        ensures
            r.topic@ == topic@,
            call_ensures(<P as Into<Vec<u8>>>::into, (payload,), r.payload),
    {
        let payload = payload.into();
        Event { topic: topic.clone(), payload }
    }
}

/// What a handler tells its connection: to subscribe to a topic or to
/// unsubscribe from it. The connection does the talking to the event switch.
pub enum ProxiedSubscriptionNotification {
    Subscribe(Topic),
    Unsubscribe(Topic),
}

/// The view of a [`ProxiedSubscriptionNotification`].
pub enum Wish {
    Subscribe((Seq<u8>, bool)),
    Unsubscribe((Seq<u8>, bool)),
}

impl View for ProxiedSubscriptionNotification {
    type V = Wish;

    open spec fn view(&self) -> Wish {
        match self {
            ProxiedSubscriptionNotification::Subscribe(topic) => Wish::Subscribe(topic@),
            ProxiedSubscriptionNotification::Unsubscribe(topic) => Wish::Unsubscribe(topic@),
        }
    }
}

/// What a connection tells the event switch. `tx` is the number of the channel
/// on which the connection takes events.
pub enum SubscriptionNotification {
    Subscribe { topic: Topic, id: SubscriptionID, tx: u64 },
    Unsubscribe { topic: Topic, id: SubscriptionID },
}

/// The view of a [`SubscriptionNotification`].
pub enum Change {
    Subscribe { topic: (Seq<u8>, bool), id: Seq<u8>, tx: u64 },
    Unsubscribe { topic: (Seq<u8>, bool), id: Seq<u8> },
}

impl View for SubscriptionNotification {
    type V = Change;

    open spec fn view(&self) -> Change {
        match self {
            SubscriptionNotification::Subscribe { topic, id, tx } => Change::Subscribe {
                topic: topic@,
                id: id@,
                tx: *tx,
            },
            SubscriptionNotification::Unsubscribe { topic, id } => Change::Unsubscribe {
                topic: topic@,
                id: id@,
            },
        }
    }
}

/// What the event switch tells the application: that a topic has come into
/// being or has gone.
pub enum TopicNotification {
    Created(Topic),
    Removed(Topic),
}

/// The view of a [`TopicNotification`].
pub enum Notice {
    Created((Seq<u8>, bool)),
    Removed((Seq<u8>, bool)),
}

impl View for TopicNotification {
    type V = Notice;

    open spec fn view(&self) -> Notice {
        match self {
            TopicNotification::Created(topic) => Notice::Created(topic@),
            TopicNotification::Removed(topic) => Notice::Removed(topic@),
        }
    }
}

/// Where a handler says which topics its connection is interested in.
///
/// The view is what has been said and not yet been passed on, oldest first.
pub struct HandlerSubscriptionManager {
    outbox: Vec<ProxiedSubscriptionNotification>,
}

impl View for HandlerSubscriptionManager {
    type V = Seq<Wish>;

    closed spec fn view(&self) -> Seq<Wish> {
        self.outbox@.map_values(|n: ProxiedSubscriptionNotification| n@)
    }
}

impl HandlerSubscriptionManager {
    /// A manager to which nothing has been said.
    pub fn new() -> (r: HandlerSubscriptionManager)
        ensures
            r@ == Seq::<Wish>::empty(),
    {
        let r = HandlerSubscriptionManager { outbox: Vec::new() };
        assert(r@ =~= Seq::<Wish>::empty());
        r
    }

    /// Asks for the connection to be subscribed to `topic`.
    pub fn add(&mut self, topic: &Topic)
        ensures
            final(self)@ == old(self)@.push(Wish::Subscribe(topic@)),
    {
        self.outbox.push(ProxiedSubscriptionNotification::Subscribe(topic.clone()));
        assert(self@ =~= old(self)@.push(Wish::Subscribe(topic@)));
    }

    /// Asks for the connection to be unsubscribed from `topic`.
    pub fn remove(&mut self, topic: &Topic)
        ensures
            final(self)@ == old(self)@.push(Wish::Unsubscribe(topic@)),
    {
        self.outbox.push(ProxiedSubscriptionNotification::Unsubscribe(topic.clone()));
        assert(self@ =~= old(self)@.push(Wish::Unsubscribe(topic@)));
    }

    /// Takes out what has been said, to pass it on to the connection.
    pub fn take_pending(&mut self) -> (r: Vec<ProxiedSubscriptionNotification>)
        ensures
            r@.map_values(|n: ProxiedSubscriptionNotification| n@) == old(self)@,
            final(self)@ == Seq::<Wish>::empty(),
    {
        let mut r: Vec<ProxiedSubscriptionNotification> = Vec::new();
        std::mem::swap(&mut r, &mut self.outbox);
        assert(self@ =~= Seq::<Wish>::empty());
        r
    }
}

/// Where the application and handlers hand in events for the event switch.
///
/// The view is what has been handed in and not yet been passed on, oldest
/// first; `channel` is the number of the channel through which it goes.
pub struct EventEmitter {
    outbox: Vec<Event>,
    event_tx: u64,
}

impl View for EventEmitter {
    type V = Seq<((Seq<u8>, bool), Seq<u8>)>;

    closed spec fn view(&self) -> Seq<((Seq<u8>, bool), Seq<u8>)> {
        self.outbox@.map_values(|e: Event| e@)
    }
}

impl EventEmitter {
    /// The number of the channel to the event switch.
    pub closed spec fn channel(&self) -> u64 {
        self.event_tx
    }

    /// An emitter for the channel with this number, with nothing handed in.
    pub fn new(event_tx: u64) -> (r: EventEmitter)
        ensures
            r.channel() == event_tx,
            r@.len() == 0,
    {
        EventEmitter { outbox: Vec::new(), event_tx }
    }

    /// The number of the channel to the event switch.
    pub fn channel_number(&self) -> (r: u64)
        ensures
            r == self.channel(),
    {
        self.event_tx
    }

    /// Hands in an event under `topic` that carries what `payload` converts
    /// to.
    pub fn emit<P: Into<Vec<u8>>>(&mut self, topic: &Topic, payload: P)
        ensures
            final(self).channel() == old(self).channel(),
            final(self)@.len() == old(self)@.len() + 1,
            final(self)@.drop_last() == old(self)@,
            final(self)@.last().0 == topic@,
            exists|data: Vec<u8>| #[trigger]
                call_ensures(<P as Into<Vec<u8>>>::into, (payload,), data)
                    && final(self)@.last().1 == data@,
    {
        let event = Event::new(topic, payload);
        let ghost data = event.payload;
        self.outbox.push(event);
        assert(self@.drop_last() =~= old(self)@);
        assert(call_ensures(<P as Into<Vec<u8>>>::into, (payload,), data));
    }

    /// Takes out what has been handed in, to pass it on to the event switch.
    pub fn take_pending(&mut self) -> (r: Vec<Event>)
        ensures
            r@.map_values(|e: Event| e@) == old(self)@,
            final(self)@.len() == 0,
            final(self).channel() == old(self).channel(),
    {
        let mut r: Vec<Event> = Vec::new();
        std::mem::swap(&mut r, &mut self.outbox);
        r
    }
}

/// The view of an event tells its topic and its payload.
pub proof fn event_views_tell_all(e: Event)
    ensures
        e@.0 == e.topic@,
        e@.1 == e.payload@,
{
}

/// The views of the notifications tell which of the two they are, and of which
/// topic, subscription and channel.
pub proof fn notification_views_tell_all(topic: Topic, id: SubscriptionID, tx: u64)
    ensures
        ProxiedSubscriptionNotification::Subscribe(topic)@ == Wish::Subscribe(topic@),
        ProxiedSubscriptionNotification::Unsubscribe(topic)@ == Wish::Unsubscribe(topic@),
        (SubscriptionNotification::Subscribe { topic, id, tx })@ == (Change::Subscribe {
            topic: topic@,
            id: id@,
            tx,
        }),
        (SubscriptionNotification::Unsubscribe { topic, id })@ == (Change::Unsubscribe {
            topic: topic@,
            id: id@,
        }),
        TopicNotification::Created(topic)@ == Notice::Created(topic@),
        TopicNotification::Removed(topic)@ == Notice::Removed(topic@),
{
}

} // verus!
