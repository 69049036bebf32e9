use hardlight::counter::{decrement, get, increment, Handler, RpcCall, State};
use hardlight::state::{accept_updates, list_updates};
use hardlight::{
    ClientState, EventEmitter, Event, HandlerSubscriptionManager, ProxiedSubscriptionNotification,
    RpcHandlerError, StateGuard, StateUpdate, Topic,
};

fn new_handler() -> Handler {
    Handler::new(HandlerSubscriptionManager::new(), EventEmitter::new(0))
}

fn number(bytes: &[u8]) -> u32 {
    u32::from_le_bytes([bytes[0], bytes[1], bytes[2], bytes[3]])
}

#[test]
fn counter_test_counter() {
    let mut handler = new_handler();
    let res = handler.handle_rpc_call(Some(RpcCall::Increment { amount: 10 })).unwrap();
    assert_eq!(number(&res), 10);
    let res = handler.handle_rpc_call(Some(RpcCall::Decrement { amount: 5 })).unwrap();
    assert_eq!(number(&res), 5);
    let res = handler.handle_rpc_call(Some(RpcCall::Get {})).unwrap();
    assert_eq!(number(&res), 5);
}

#[test]
fn custom_handler_test_counter() {
    let mut counter = new_handler();
    let res = increment(&mut counter, 10).unwrap();
    assert_eq!(res, 10);
    let res = decrement(&mut counter, 5).unwrap();
    assert_eq!(res, 5);
    let res = get(&counter).unwrap();
    assert_eq!(res, 5);
}

#[test]
fn counter_reaches_both_ends_of_its_range() {
    let mut handler = new_handler();
    increment(&mut handler, 5).unwrap();
    assert_eq!(increment(&mut handler, u32::MAX - 5), Ok(u32::MAX));
    assert_eq!(decrement(&mut handler, u32::MAX), Ok(0));
}

#[test]
fn results_are_archived_least_significant_byte_first() {
    let mut handler = new_handler();
    let res = handler.handle_rpc_call(Some(RpcCall::Increment { amount: 0x01020304 })).unwrap();
    assert_eq!(res, vec![4, 3, 2, 1]);
    assert_eq!(handler.handle_rpc_call(Some(RpcCall::TestOverhead {})), Ok(vec![]));
}

#[test]
fn call_that_does_not_decode_changes_nothing() {
    let mut handler = new_handler();
    increment(&mut handler, 3).unwrap();
    assert_eq!(handler.handle_rpc_call(None), Err(RpcHandlerError::ServerDecodeError));
    assert_eq!(handler.state.counter, 3);
    assert_eq!(handler.updates.len(), 1);
}

#[test]
fn client_state_follows_the_handler() {
    let mut handler = new_handler();
    let mut copy = State::default();
    for call in [
        RpcCall::Increment { amount: 10 },
        RpcCall::Get {},
        RpcCall::Decrement { amount: 4 },
        RpcCall::Increment { amount: 0 },
        RpcCall::TestOverhead {},
        RpcCall::Increment { amount: 70000 },
    ] {
        handler.handle_rpc_call(Some(call)).unwrap();
    }
    assert_eq!(handler.updates.len(), 3);
    for batch in handler.updates.drain(..) {
        assert_eq!(batch.len(), 1);
        assert_eq!(batch[0].index, 0);
        assert_eq!(copy.apply_changes(batch), Ok(()));
    }
    assert_eq!(copy, handler.state);
    assert_eq!(copy.counter, 70006);
}

#[test]
fn unchanged_state_sends_nothing() {
    let same = State { counter: 8 };
    let (state, updates) = StateGuard { starting_state: same, state: same }.finish();
    assert_eq!(state, same);
    assert!(updates.is_none());
    let now = State { counter: 9 };
    let (state, updates) = StateGuard { starting_state: same, state: now }.finish();
    assert_eq!(state, now);
    assert_eq!(updates.unwrap()[0].data, vec![9, 0, 0, 0]);
}

#[test]
fn updates_of_unknown_fields_are_passed_over() {
    let mut copy = State { counter: 1 };
    let changes = vec![
        StateUpdate { index: 7, data: vec![] },
        StateUpdate { index: 0, data: vec![2, 0, 0, 0] },
    ];
    assert_eq!(copy.apply_changes(changes), Ok(()));
    assert_eq!(copy.counter, 2);
}

#[test]
fn update_that_does_not_decode_ends_the_matter() {
    let mut copy = State { counter: 1 };
    let changes = vec![
        StateUpdate { index: 0, data: vec![2, 0, 0, 0] },
        StateUpdate { index: 0, data: vec![3, 0, 0] },
        StateUpdate { index: 0, data: vec![4, 0, 0, 0] },
    ];
    assert_eq!(copy.apply_changes(changes), Err(RpcHandlerError::BadInputBytes));
    assert_eq!(copy.counter, 2);
}

#[test]
fn archive_holds_its_number_at_the_end() {
    let mut copy = State { counter: 1 };
    for (data, counter) in [(vec![9, 9, 9, 9, 5, 0, 0, 0], 5), (vec![0, 1, 0, 0], 256)] {
        assert_eq!(copy.apply_changes(vec![StateUpdate { index: 0, data }]), Ok(()));
        assert_eq!(copy.counter, counter);
    }
    for data in [vec![], vec![1], vec![1, 0, 0, 0, 0], vec![1, 0, 0, 0, 0, 0, 0]] {
        assert_eq!(
            copy.apply_changes(vec![StateUpdate { index: 0, data }]),
            Err(RpcHandlerError::BadInputBytes)
        );
        assert_eq!(copy.counter, 256);
    }
}

#[test]
fn handler_passes_wishes_and_events_on() {
    let mut handler = new_handler();
    let topic: Topic = "counter".into();
    handler.subscribe(&topic);
    handler.unsubscribe(&topic);
    handler.emit(Event::new(&topic, vec![1u8]));
    let wishes = handler.subscriptions.take_pending();
    assert!(matches!(&wishes[0], ProxiedSubscriptionNotification::Subscribe(t) if *t == topic));
    assert!(matches!(&wishes[1], ProxiedSubscriptionNotification::Unsubscribe(t) if *t == topic));
    let events = handler.events.take_pending();
    assert_eq!(events.len(), 1);
    assert!(events[0].topic == topic);
    assert_eq!(events[0].payload, vec![1]);
}

#[test]
fn calls_that_leave_the_range_are_told_beforehand() {
    let mut handler = new_handler();
    increment(&mut handler, 7).unwrap();
    assert!(handler.has_room_for(Some(RpcCall::Decrement { amount: 7 })));
    assert!(!handler.has_room_for(Some(RpcCall::Decrement { amount: 8 })));
    assert!(handler.has_room_for(Some(RpcCall::Increment { amount: u32::MAX - 7 })));
    assert!(!handler.has_room_for(Some(RpcCall::Increment { amount: u32::MAX - 6 })));
    assert!(handler.has_room_for(Some(RpcCall::Get {})));
    assert!(handler.has_room_for(Some(RpcCall::TestOverhead {})));
    assert!(handler.has_room_for(None));
}

#[test]
fn updates_list_the_changed_fields_in_order() {
    let updates = list_updates(vec![Some(vec![3]), None, Some(vec![4, 5])]);
    assert_eq!(updates.len(), 2);
    assert_eq!((updates[0].index, updates[0].data.clone()), (0, vec![3]));
    assert_eq!((updates[1].index, updates[1].data.clone()), (2, vec![4, 5]));
    assert!(list_updates(vec![None, None]).is_empty());
}

#[test]
fn decoded_updates_are_taken_over_up_to_the_first_failure() {
    let all = vec![(0, Some('a')), (9, None), (1, Some('b'))];
    assert_eq!(accept_updates(2, all), (vec!['a', 'b'], Ok(())));
    let some = vec![(0, Some('a')), (1, None), (0, Some('c'))];
    assert_eq!(
        accept_updates(2, some),
        (vec!['a'], Err(RpcHandlerError::BadInputBytes))
    );
    assert_eq!(accept_updates(1, vec![(1, Some('z'))]), (vec![], Ok(())));
}
