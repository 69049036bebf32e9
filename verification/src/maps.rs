//! The hash maps that keep subscriptions, from the `hashbrown` crate.
//!
//! Keys are topics as pairs of bytes and flag, and subscription ids as arrays
//! of bytes, so that equality and hashing of keys are those of the standard
//! library.
use hashbrown::HashMap;
use vstd::prelude::*;

verus! {

/// The topics that one connection is subscribed to, with the id of each
/// subscription.
#[verifier::external_body]
pub struct TopicIds {
    inner: HashMap<(Vec<u8>, bool), [u8; 16]>,
}

/// What a `TopicIds` holds: topics to subscription ids.
pub uninterp spec fn topic_ids(m: TopicIds) -> Map<(Seq<u8>, bool), Seq<u8>>;

impl TopicIds {
    /// `HashMap::new` makes an empty map.
    #[verifier::external_body]
    pub(crate) fn new() -> (r: TopicIds)
        ensures
            (topic_ids(r) == Map::<(Seq<u8>, bool), Seq<u8>>::empty()),
    {
        TopicIds { inner: HashMap::new() }
    }

    /// `HashMap::contains_key` tells whether the map holds the key.
    #[verifier::external_body]
    pub(crate) fn contains_key(&self, topic: &(Vec<u8>, bool)) -> (r: bool)
        ensures
            r == topic_ids(*self).contains_key((topic.0@, topic.1)),
    {
        self.inner.contains_key(topic)
    }

    /// `HashMap::insert` files the value under the key, in the place of what
    /// was there.
    #[verifier::external_body]
    pub(crate) fn insert(&mut self, topic: (Vec<u8>, bool), id: [u8; 16])
        ensures
            topic_ids(*final(self)) == topic_ids(*old(self)).insert((topic.0@, topic.1), id@),
    {
        self.inner.insert(topic, id);
    }

    /// `HashMap::remove` takes the key out and hands back what was under it.
    #[verifier::external_body]
    pub(crate) fn remove(&mut self, topic: &(Vec<u8>, bool)) -> (r: Option<[u8; 16]>)
        ensures
            topic_ids(*final(self)) == topic_ids(*old(self)).remove((topic.0@, topic.1)),
            r is Some <==> topic_ids(*old(self)).contains_key((topic.0@, topic.1)),
            r matches Some(id) ==> id@ == topic_ids(*old(self))[(topic.0@, topic.1)],
    {
        self.inner.remove(topic)
    }
}

/// The subscribers of one topic: subscription ids to channel numbers.
#[verifier::external_body]
pub struct Subscribers {
    inner: HashMap<[u8; 16], u64>,
}

/// What a `Subscribers` holds: subscription ids to channel numbers.
pub uninterp spec fn subscribers(m: Subscribers) -> Map<Seq<u8>, u64>;

impl Subscribers {
    /// `HashMap::new` makes an empty map.
    #[verifier::external_body]
    pub(crate) fn new() -> (r: Subscribers)
        ensures
            (subscribers(r) == Map::<Seq<u8>, u64>::empty()),
    {
        Subscribers { inner: HashMap::new() }
    }

    /// `HashMap::insert` files the value under the key, in the place of what
    /// was there.
    #[verifier::external_body]
    pub(crate) fn insert(&mut self, id: [u8; 16], channel: u64)
        ensures
            subscribers(*final(self)) == subscribers(*old(self)).insert(id@, channel),
    {
        self.inner.insert(id, channel);
    }

    /// `HashMap::remove` takes the key out.
    #[verifier::external_body]
    pub(crate) fn remove(&mut self, id: &[u8; 16])
        ensures
            subscribers(*final(self)) == subscribers(*old(self)).remove(id@),
    {
        self.inner.remove(id);
    }

    /// `HashMap::len` counts the keys.
    #[verifier::external_body]
    pub(crate) fn len(&self) -> (r: usize)
        ensures
            r == subscribers(*self).dom().len(),
    {
        self.inner.len()
    }

    /// `HashMap::iter` visits each key with its value once, in an order that
    /// is not promised.
    #[verifier::external_body]
    pub(crate) fn entries(&self) -> (r: Vec<([u8; 16], u64)>)
        ensures
            forall|i: int|
                0 <= i < r@.len() ==> subscribers(*self).contains_pair(
                    (#[trigger] r@[i]).0@,
                    r@[i].1,
                ),
            forall|i: int, j: int|
                0 <= i < j < r@.len() ==> (#[trigger] r@[i]).0@ != (#[trigger] r@[j]).0@,
            forall|id: Seq<u8>| #[trigger]
                subscribers(*self).contains_key(id) ==> exists|i: int|
                    0 <= i < r@.len() && (#[trigger] r@[i]).0@ == id,
    {
        self.inner.iter().map(|(id, channel)| (*id, *channel)).collect()
    }
}

/// The topics that have ever had subscribers and were not given up, each with
/// its subscribers.
#[verifier::external_body]
pub struct Topics {
    inner: HashMap<(Vec<u8>, bool), Subscribers>,
}

/// What a `Topics` holds: topics to their subscribers.
pub uninterp spec fn topics(m: Topics) -> Map<(Seq<u8>, bool), Map<Seq<u8>, u64>>;

impl Topics {
    /// `HashMap::new` makes an empty map.
    #[verifier::external_body]
    pub(crate) fn new() -> (r: Topics)
        ensures
            (topics(r) == Map::<(Seq<u8>, bool), Map<Seq<u8>, u64>>::empty()),
    {
        Topics { inner: HashMap::new() }
    }

    /// `HashMap::get` lends out what is under the key.
    #[verifier::external_body]
    pub(crate) fn get(&self, topic: &(Vec<u8>, bool)) -> (r: Option<&Subscribers>)
        ensures
            r is Some <==> topics(*self).contains_key((topic.0@, topic.1)),
            r matches Some(s) ==> subscribers(*s) == topics(*self)[(topic.0@, topic.1)],
    {
        self.inner.get(topic)
    }

    /// `HashMap::get_mut` lends out what is under the key for changing; what
    /// the borrower leaves there is what the map holds afterwards.
    #[verifier::external_body]
    pub(crate) fn get_mut(&mut self, topic: &(Vec<u8>, bool)) -> (r: Option<&mut Subscribers>)
        ensures
            r is Some <==> topics(*old(self)).contains_key((topic.0@, topic.1)),
            match r {
                Some(s) => subscribers(*s) == topics(*old(self))[(topic.0@, topic.1)] && topics(
                    *final(self),
                ) == topics(*old(self)).insert((topic.0@, topic.1), subscribers(*final(s))),
                None => topics(*final(self)) == topics(*old(self)),
            },
    {
        self.inner.get_mut(topic)
    }

    /// `HashMap::insert` files the value under the key, in the place of what
    /// was there.
    #[verifier::external_body]
    pub(crate) fn insert(&mut self, topic: (Vec<u8>, bool), value: Subscribers)
        ensures
            topics(*final(self)) == topics(*old(self)).insert(
                (topic.0@, topic.1),
                subscribers(value),
            ),
    {
        self.inner.insert(topic, value);
    }

    /// `HashMap::remove` takes the key out.
    #[verifier::external_body]
    pub(crate) fn remove(&mut self, topic: &(Vec<u8>, bool))
        ensures
            topics(*final(self)) == topics(*old(self)).remove((topic.0@, topic.1)),
    {
        self.inner.remove(topic);
    }
}

} // verus!
