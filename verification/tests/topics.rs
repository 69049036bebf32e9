use hardlight::{Event, EventEmitter, HandlerSubscriptionManager, ProxiedSubscriptionNotification, Topic};

#[test]
fn text_topic_reads_back() {
    let topic: Topic = "chat-topic-abc".into();
    assert_eq!(topic.as_string(), "chat-topic-abc");
    assert_eq!(topic.as_bytes(), b"chat-topic-abc");
    assert_eq!(topic.to_debug_string(), "chat-topic-abc");
    assert!(topic.is_text());
    let owned: Topic = String::from("chat-topic-abc").into();
    assert!(topic == owned);
}

#[test]
fn text_beyond_ascii_reads_back() {
    let topic: Topic = "thé ☕".into();
    assert_eq!(topic.as_string(), "thé ☕");
    assert_eq!(topic.as_bytes(), "thé ☕".as_bytes());
}

#[test]
fn byte_topic_is_shown_as_list() {
    let topic: Topic = vec![0u8, 7, 42, 255].into();
    assert_eq!(topic.to_debug_string(), "[0, 7, 42, 255]");
    assert!(!topic.is_text());
    let single: Topic = vec![100u8].into();
    assert_eq!(single.to_debug_string(), "[100]");
}

#[test]
fn byte_topic_without_bytes() {
    let topic = Topic::default();
    assert_eq!(topic.to_debug_string(), "[]");
    assert_eq!(topic.as_string(), "");
    assert!(topic.as_bytes().is_empty());
}

#[test]
fn bytes_that_are_no_text_give_an_empty_string() {
    let topic: Topic = vec![0xffu8, 0xfe].into();
    assert_eq!(topic.as_string(), "");
}

#[test]
fn bytes_that_are_text_read_as_text() {
    let topic: Topic = b"plain".to_vec().into();
    assert_eq!(topic.as_string(), "plain");
    assert_eq!(topic.to_debug_string(), "[112, 108, 97, 105, 110]");
}

#[test]
fn text_and_bytes_are_different_topics() {
    let text: Topic = "abc".into();
    let bytes: Topic = b"abc".to_vec().into();
    assert!(text != bytes);
    assert!(text == text.clone());
    let other: Topic = "abd".into();
    assert!(text != other);
    let longer: Topic = "abcd".into();
    assert!(text != longer);
}

#[test]
fn topic_turns_into_its_bytes() {
    let topic: Topic = "abc".into();
    let bytes: Vec<u8> = topic.into();
    assert_eq!(bytes, b"abc".to_vec());
}

#[test]
fn event_carries_topic_and_payload() {
    let topic: Topic = "abc".into();
    let event = Event::new(&topic, vec![1u8, 2, 3]);
    assert!(event.topic == topic);
    assert_eq!(event.payload, vec![1, 2, 3]);
    let from_text = Event::new(&topic, "hi");
    assert_eq!(from_text.payload, b"hi".to_vec());
    let copy = event.clone();
    assert!(copy.topic == event.topic);
    assert_eq!(copy.payload, event.payload);
}

#[test]
fn emitter_passes_events_on_in_order() {
    let mut emitter = EventEmitter::new(0);
    let a: Topic = "a".into();
    let b: Topic = "b".into();
    emitter.emit(&a, vec![1u8]);
    emitter.emit(&b, vec![2u8]);
    let events = emitter.take_pending();
    assert_eq!(events.len(), 2);
    assert!(events[0].topic == a);
    assert_eq!(events[0].payload, vec![1]);
    assert!(events[1].topic == b);
    assert_eq!(events[1].payload, vec![2]);
    assert!(emitter.take_pending().is_empty());
    assert_eq!(emitter.channel_number(), 0);
}

#[test]
fn subscription_manager_passes_wishes_on_in_order() {
    let mut manager = HandlerSubscriptionManager::new();
    let a: Topic = "a".into();
    let b: Topic = "b".into();
    manager.add(&a);
    manager.remove(&b);
    let wishes = manager.take_pending();
    assert_eq!(wishes.len(), 2);
    match &wishes[0] {
        ProxiedSubscriptionNotification::Subscribe(topic) => assert!(*topic == a),
        _ => panic!("expected a subscription"),
    }
    match &wishes[1] {
        ProxiedSubscriptionNotification::Unsubscribe(topic) => assert!(*topic == b),
        _ => panic!("expected the end of a subscription"),
    }
    assert!(manager.take_pending().is_empty());
}

#[test]
fn received_topic_keeps_its_parts() {
    let text = Topic::from_parts(b"abc".to_vec(), true);
    assert!(text == Topic::from("abc"));
    let bytes = Topic::from_parts(b"abc".to_vec(), false);
    assert!(bytes == Topic::from(b"abc".to_vec()));
    let broken = Topic::from_parts(vec![0xff], true);
    assert_eq!(broken.to_debug_string(), "");
    assert!(broken.is_text());
}
