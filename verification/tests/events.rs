use hardlight::{Event, EventSwitch, SubscriptionNotification, Topic, TopicNotification};

fn subscribe(switch: &mut EventSwitch, topic: &Topic, id: u8, tx: u64) -> Option<TopicNotification> {
    switch.notify(SubscriptionNotification::Subscribe { topic: topic.clone(), id: [id; 16], tx })
}

fn unsubscribe(switch: &mut EventSwitch, topic: &Topic, id: u8) -> Option<TopicNotification> {
    switch.notify(SubscriptionNotification::Unsubscribe { topic: topic.clone(), id: [id; 16] })
}

fn channels(switch: &EventSwitch, topic: &Topic) -> Vec<u64> {
    let event = Event::new(topic, vec![9u8]);
    let mut found: Vec<u64> = switch.route(&event).into_iter().map(|(_, tx)| tx).collect();
    found.sort();
    found
}

fn is_created(notice: &Option<TopicNotification>, topic: &Topic) -> bool {
    match notice {
        Some(TopicNotification::Created(t)) => t == topic,
        _ => false,
    }
}

fn is_removed(notice: &Option<TopicNotification>, topic: &Topic) -> bool {
    match notice {
        Some(TopicNotification::Removed(t)) => t == topic,
        _ => false,
    }
}

#[test]
fn event_without_subscribers_goes_nowhere() {
    let switch = EventSwitch::new(0);
    assert!(channels(&switch, &"a".into()).is_empty());
}

#[test]
fn events_go_to_the_subscribers_of_their_topic() {
    let mut switch = EventSwitch::new(0);
    let a: Topic = "a".into();
    let b: Topic = "b".into();
    subscribe(&mut switch, &a, 1, 10);
    subscribe(&mut switch, &a, 2, 20);
    subscribe(&mut switch, &b, 3, 30);
    assert_eq!(channels(&switch, &a), vec![10, 20]);
    assert_eq!(channels(&switch, &b), vec![30]);
    let bytes: Topic = b"a".to_vec().into();
    assert!(channels(&switch, &bytes).is_empty());
}

#[test]
fn topic_comes_with_its_first_subscriber_and_goes_with_its_last() {
    let mut switch = EventSwitch::new(0);
    let a: Topic = "a".into();
    assert!(is_created(&subscribe(&mut switch, &a, 1, 10), &a));
    assert!(subscribe(&mut switch, &a, 2, 20).is_none());
    assert!(unsubscribe(&mut switch, &a, 1).is_none());
    assert_eq!(channels(&switch, &a), vec![20]);
    assert!(is_removed(&unsubscribe(&mut switch, &a, 2), &a));
    assert!(channels(&switch, &a).is_empty());
    assert!(unsubscribe(&mut switch, &a, 2).is_none());
}

#[test]
fn same_id_again_takes_the_place_of_the_first() {
    let mut switch = EventSwitch::new(0);
    let a: Topic = "a".into();
    assert!(is_created(&subscribe(&mut switch, &a, 1, 10), &a));
    assert!(is_created(&subscribe(&mut switch, &a, 1, 11), &a));
    assert_eq!(channels(&switch, &a), vec![11]);
}

#[test]
fn unknown_id_leaves_the_topic_alone() {
    let mut switch = EventSwitch::new(0);
    let a: Topic = "a".into();
    subscribe(&mut switch, &a, 1, 10);
    assert!(unsubscribe(&mut switch, &a, 9).is_none());
    assert_eq!(channels(&switch, &a), vec![10]);
}

#[test]
fn closed_channels_are_dropped() {
    let mut switch = EventSwitch::new(0);
    let a: Topic = "a".into();
    subscribe(&mut switch, &a, 1, 10);
    subscribe(&mut switch, &a, 2, 20);
    subscribe(&mut switch, &a, 3, 30);
    switch.drop_closed(&a, &vec![[1; 16], [3; 16]]);
    assert_eq!(channels(&switch, &a), vec![20]);
    switch.drop_closed(&"b".into(), &vec![[2; 16]]);
    assert_eq!(channels(&switch, &a), vec![20]);
}

#[test]
fn topic_outlives_closed_channels() {
    let mut switch = EventSwitch::new(0);
    let a: Topic = "a".into();
    subscribe(&mut switch, &a, 1, 10);
    switch.drop_closed(&a, &vec![[1; 16]]);
    assert!(channels(&switch, &a).is_empty());
    assert!(is_removed(&unsubscribe(&mut switch, &a, 1), &a));
}

#[test]
fn unsubscribing_gives_up_an_unheard_topic() {
    let mut switch = EventSwitch::new(0);
    let a: Topic = "a".into();
    subscribe(&mut switch, &a, 1, 10);
    switch.drop_closed(&a, &vec![[1; 16]]);
    assert!(is_created(&subscribe(&mut switch, &a, 2, 20), &a));
    assert_eq!(channels(&switch, &a), vec![20]);
}
