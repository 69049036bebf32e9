use hardlight::{
    ClientMessage, Connection, ConnectionAction, ConnectionEvent, Event, EventSwitch,
    ProxiedSubscriptionNotification, RpcHandlerError, ServerMessage, StateUpdate,
    SubscriptionNotification, Topic,
};

fn call(id: u8, internal: Vec<u8>) -> ConnectionEvent {
    ConnectionEvent::Received(Some(ClientMessage::RPCRequest { id, internal }))
}

fn wish(topic: &Topic, subscribe: bool) -> ConnectionEvent {
    ConnectionEvent::Wished(if subscribe {
        ProxiedSubscriptionNotification::Subscribe(topic.clone())
    } else {
        ProxiedSubscriptionNotification::Unsubscribe(topic.clone())
    })
}

#[test]
fn calls_are_handed_to_the_handler() {
    let mut connection = Connection::new(1);
    match connection.step(call(5, vec![1, 2])) {
        ConnectionAction::Handle { id, internal } => {
            assert_eq!(id, 5);
            assert_eq!(internal, vec![1, 2]);
        }
        _ => panic!("expected a call"),
    }
}

#[test]
fn call_in_flight_is_not_taken_up_twice() {
    let mut connection = Connection::new(1);
    assert!(matches!(connection.step(call(5, vec![])), ConnectionAction::Handle { .. }));
    assert!(matches!(connection.step(call(5, vec![])), ConnectionAction::Ignore));
    assert!(matches!(connection.step(call(6, vec![])), ConnectionAction::Handle { .. }));
    match connection.step(ConnectionEvent::RpcDone { id: 5, output: Ok(vec![9]) }) {
        ConnectionAction::Send(ServerMessage::RPCResponse { id, output }) => {
            assert_eq!(id, 5);
            assert_eq!(output, Ok(vec![9]));
        }
        _ => panic!("expected a response"),
    }
    assert!(matches!(connection.step(call(5, vec![])), ConnectionAction::Handle { .. }));
    assert!(matches!(connection.step(call(6, vec![])), ConnectionAction::Ignore));
}

#[test]
fn every_id_can_be_in_flight() {
    let mut connection = Connection::new(1);
    for id in 0..=255u8 {
        assert!(matches!(connection.step(call(id, vec![])), ConnectionAction::Handle { .. }));
    }
    for id in 0..=255u8 {
        assert!(matches!(connection.step(call(id, vec![])), ConnectionAction::Ignore));
    }
}

#[test]
fn failed_calls_are_answered_with_their_error() {
    let mut connection = Connection::new(1);
    let output = Err(RpcHandlerError::ServerDecodeError);
    match connection.step(ConnectionEvent::RpcDone { id: 0, output }) {
        ConnectionAction::Send(ServerMessage::RPCResponse { id, output }) => {
            assert_eq!(id, 0);
            assert_eq!(output, Err(RpcHandlerError::ServerDecodeError));
        }
        _ => panic!("expected a response"),
    }
}

#[test]
fn message_that_does_not_decode_is_ignored() {
    let mut connection = Connection::new(1);
    assert!(matches!(connection.step(ConnectionEvent::Received(None)), ConnectionAction::Ignore));
}

#[test]
fn state_changes_and_events_are_sent() {
    let mut connection = Connection::new(1);
    let changes = vec![StateUpdate { index: 2, data: vec![7] }];
    match connection.step(ConnectionEvent::StateChanged(changes)) {
        ConnectionAction::Send(ServerMessage::StateChange(changes)) => {
            assert_eq!(changes.len(), 1);
            assert_eq!(changes[0].index, 2);
            assert_eq!(changes[0].data, vec![7]);
        }
        _ => panic!("expected a state change"),
    }
    let topic: Topic = "a".into();
    match connection.step(ConnectionEvent::Routed(Event::new(&topic, vec![3u8]))) {
        ConnectionAction::Send(ServerMessage::NewEvent { topic: t, payload }) => {
            assert!(t == topic);
            assert_eq!(payload, vec![3]);
        }
        _ => panic!("expected an event"),
    }
}

#[test]
fn wishes_are_passed_on_once() {
    let mut connection = Connection::new(42);
    let topic: Topic = "a".into();
    assert!(matches!(connection.step(wish(&topic, false)), ConnectionAction::Ignore));
    let first = match connection.step(wish(&topic, true)) {
        ConnectionAction::Notify(SubscriptionNotification::Subscribe { topic: t, id, tx }) => {
            assert!(t == topic);
            assert_eq!(tx, 42);
            id
        }
        _ => panic!("expected a subscription"),
    };
    assert!(connection.is_subscribed(&topic));
    assert!(matches!(connection.step(wish(&topic, true)), ConnectionAction::Ignore));
    match connection.step(wish(&topic, false)) {
        ConnectionAction::Notify(SubscriptionNotification::Unsubscribe { topic: t, id }) => {
            assert!(t == topic);
            assert_eq!(id, first);
        }
        _ => panic!("expected the end of a subscription"),
    }
    assert!(!connection.is_subscribed(&topic));
    assert!(matches!(connection.step(wish(&topic, false)), ConnectionAction::Ignore));
}

#[test]
fn subscriptions_get_random_ids() {
    let mut ids: Vec<[u8; 16]> = Vec::new();
    let mut connection = Connection::new(1);
    for name in ["a", "b", "c", "d"] {
        match connection.step(wish(&name.into(), true)) {
            ConnectionAction::Notify(SubscriptionNotification::Subscribe { id, .. }) => ids.push(id),
            _ => panic!("expected a subscription"),
        }
    }
    ids.sort();
    ids.dedup();
    assert_eq!(ids.len(), 4);
    assert!(!ids.contains(&[0; 16]));
}

#[test]
fn grant_uses_the_given_id() {
    let mut connection = Connection::new(8);
    let topic: Topic = "a".into();
    let change = connection.grant(ProxiedSubscriptionNotification::Subscribe(topic.clone()), [3; 16]);
    match change {
        Some(SubscriptionNotification::Subscribe { topic: t, id, tx }) => {
            assert!(t == topic);
            assert_eq!(id, [3; 16]);
            assert_eq!(tx, 8);
        }
        _ => panic!("expected a subscription"),
    }
}

#[test]
fn changes_that_could_not_be_told_are_taken_back() {
    let mut connection = Connection::new(8);
    let topic: Topic = "a".into();
    let on = connection.grant(ProxiedSubscriptionNotification::Subscribe(topic.clone()), [3; 16]).unwrap();
    connection.take_back(on);
    assert!(!connection.is_subscribed(&topic));
    connection.grant(ProxiedSubscriptionNotification::Subscribe(topic.clone()), [4; 16]).unwrap();
    let off = connection.grant(ProxiedSubscriptionNotification::Unsubscribe(topic.clone()), [5; 16]).unwrap();
    assert!(!connection.is_subscribed(&topic));
    connection.take_back(off);
    assert!(connection.is_subscribed(&topic));
    match connection.grant(ProxiedSubscriptionNotification::Unsubscribe(topic.clone()), [6; 16]) {
        Some(SubscriptionNotification::Unsubscribe { id, .. }) => assert_eq!(id, [4; 16]),
        _ => panic!("expected the end of a subscription"),
    }
}

#[test]
fn events_reach_exactly_the_subscribed_connections() {
    let mut switch = EventSwitch::new(0);
    let mut connections = vec![Connection::new(0), Connection::new(1), Connection::new(2)];
    let a: Topic = "a".into();
    let b: Topic = "b".into();
    for (i, topic) in [(0usize, &a), (2, &a), (1, &b)] {
        match connections[i].step(wish(topic, true)) {
            ConnectionAction::Notify(change) => {
                switch.notify(change);
            }
            _ => panic!("expected a subscription"),
        }
    }
    let mut reached: Vec<u64> =
        switch.route(&Event::new(&a, vec![1u8])).into_iter().map(|(_, tx)| tx).collect();
    reached.sort();
    assert_eq!(reached, vec![0, 2]);
    match connections[0].step(wish(&a, false)) {
        ConnectionAction::Notify(change) => {
            assert!(switch.notify(change).is_none());
        }
        _ => panic!("expected the end of a subscription"),
    }
    let reached: Vec<u64> =
        switch.route(&Event::new(&a, vec![1u8])).into_iter().map(|(_, tx)| tx).collect();
    assert_eq!(reached, vec![2]);
}
