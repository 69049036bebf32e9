use hardlight::call::{accept_call, accept_reply};
use hardlight::counter::State;
use hardlight::{
    deserialize, handle, ActiveCalls, CallOutcome, CallStart, CertificateCheck, Client,
    ClientAction, ClientMessage, Connection, Links, RpcHandlerError, ServerMessage, ServiceClient,
    StateUpdate,
};

fn send(calls: &mut ActiveCalls<u32>, completion: u32) -> (u8, Vec<u8>) {
    match calls.begin(vec![completion as u8], completion) {
        CallStart::Send { id, message, completion } => {
            assert!(calls.settle(id, completion, CallOutcome::Sent).is_none());
            match message {
                ClientMessage::RPCRequest { id: sent, internal } => {
                    assert_eq!(sent, id);
                    (id, internal)
                }
            }
        }
        CallStart::Fail { .. } => panic!("expected a free id"),
    }
}

#[test]
fn calls_get_the_lowest_free_id() {
    let mut calls: ActiveCalls<u32> = ActiveCalls::new();
    assert_eq!(send(&mut calls, 100), (0, vec![100]));
    assert_eq!(send(&mut calls, 101), (1, vec![101]));
    assert_eq!(send(&mut calls, 102), (2, vec![102]));
    match calls.receive(Some(ServerMessage::RPCResponse { id: 1, output: Ok(vec![7]) })) {
        ClientAction::Complete { completion, output } => {
            assert_eq!(completion, 101);
            assert_eq!(output, Ok(vec![7]));
        }
        _ => panic!("expected a result"),
    }
    assert_eq!(calls.free_id(), Some(1));
    assert_eq!(send(&mut calls, 103).0, 1);
    assert_eq!(send(&mut calls, 104).0, 3);
}

#[test]
fn up_to_256_calls_wait_at_a_time() {
    let mut calls: ActiveCalls<u32> = ActiveCalls::new();
    for i in 0..256u32 {
        assert_eq!(send(&mut calls, i).0 as u32, i);
    }
    assert_eq!(calls.free_id(), None);
    match calls.begin(vec![], 256) {
        CallStart::Fail { completion, error } => {
            assert_eq!(completion, 256);
            assert_eq!(error, RpcHandlerError::TooManyCallsInFlight);
        }
        CallStart::Send { .. } => panic!("expected no free id"),
    }
    assert!(matches!(
        calls.receive(Some(ServerMessage::RPCResponse { id: 255, output: Ok(vec![]) })),
        ClientAction::Complete { completion: 255, .. }
    ));
    assert_eq!(calls.free_id(), Some(255));
}

#[test]
fn calls_that_are_not_sent_fail_and_leave_their_id_free() {
    let mut calls: ActiveCalls<u32> = ActiveCalls::new();
    assert_eq!(
        calls.settle(0, 5, CallOutcome::Unencodable),
        Some((5, RpcHandlerError::BadInputBytes))
    );
    assert_eq!(
        calls.settle(0, 6, CallOutcome::Unsent),
        Some((6, RpcHandlerError::ClientNotConnected))
    );
    assert_eq!(calls.free_id(), Some(0));
}

#[test]
fn result_that_no_call_waits_for_is_ignored() {
    let mut calls: ActiveCalls<u32> = ActiveCalls::new();
    assert!(matches!(
        calls.receive(Some(ServerMessage::RPCResponse { id: 0, output: Ok(vec![]) })),
        ClientAction::Ignore
    ));
    send(&mut calls, 1);
    assert!(matches!(
        calls.receive(Some(ServerMessage::RPCResponse { id: 0, output: Ok(vec![]) })),
        ClientAction::Complete { completion: 1, .. }
    ));
    assert!(matches!(
        calls.receive(Some(ServerMessage::RPCResponse { id: 0, output: Ok(vec![]) })),
        ClientAction::Ignore
    ));
}

#[test]
fn other_messages_leave_calls_alone() {
    let mut calls: ActiveCalls<u32> = ActiveCalls::new();
    send(&mut calls, 1);
    assert!(matches!(calls.receive(None), ClientAction::Ignore));
    let changes = vec![StateUpdate { index: 0, data: vec![4] }];
    match calls.receive(Some(ServerMessage::StateChange(changes))) {
        ClientAction::Apply(changes) => {
            assert_eq!(changes.len(), 1);
            assert_eq!(changes[0].data, vec![4]);
        }
        _ => panic!("expected changes"),
    }
    match calls.receive(Some(ServerMessage::NewEvent { topic: "t".into(), payload: vec![2] })) {
        ClientAction::Emit(event) => {
            assert_eq!(event.topic.as_string(), "t");
            assert_eq!(event.payload, vec![2]);
        }
        _ => panic!("expected an event"),
    }
    assert_eq!(calls.free_id(), Some(1));
}

#[test]
fn every_caller_gets_its_own_result() {
    let mut calls: ActiveCalls<u32> = ActiveCalls::new();
    let mut connection = Connection::new(0);
    let mut work: Vec<(u8, Vec<u8>)> = Vec::new();
    for completion in 1..=5u32 {
        let (id, internal) = send(&mut calls, completion);
        work.push(connection.receive(Some(ClientMessage::RPCRequest { id, internal })).unwrap());
    }
    work.reverse();
    for (id, internal) in work {
        let answer = connection.respond(id, Ok(internal));
        match calls.receive(Some(answer)) {
            ClientAction::Complete { completion, output } => {
                assert_eq!(output, Ok(vec![completion as u8]));
            }
            _ => panic!("expected a result"),
        }
    }
    assert_eq!(calls.free_id(), Some(0));
}

#[test]
fn what_does_not_decode_is_an_error() {
    assert_eq!(handle(vec![1]), Ok(vec![1]));
    assert_eq!(deserialize(Some(3)), Ok(3));
    assert_eq!(deserialize::<u32>(None), Err(RpcHandlerError::ServerDecodeError));
    assert_eq!(accept_call(Some(3)), Ok(3));
    assert_eq!(accept_call::<u32>(None), Err(RpcHandlerError::BadInputBytes));
    assert_eq!(accept_reply(Ok(Some(3))), Ok(3));
    assert_eq!(accept_reply::<u32>(Ok(None)), Err(RpcHandlerError::BadOutputBytes));
    assert_eq!(
        accept_reply::<u32>(Err(RpcHandlerError::TooManyCallsInFlight)),
        Err(RpcHandlerError::TooManyCallsInFlight)
    );
}

type TestClient = ServiceClient<u8, u16, u32, u64>;

#[test]
fn service_client_without_a_connection() {
    let mut client: TestClient = ServiceClient::new("localhost:8080", 6);
    assert_eq!(client.state(), Err(RpcHandlerError::ClientNotConnected));
    assert_eq!(client.subscribe(), Err(RpcHandlerError::ClientNotConnected));
    assert_eq!(client.make_rpc_call(Some(vec![1])), Err(RpcHandlerError::ClientNotConnected));
    assert_eq!(client.make_rpc_call(None), Err(RpcHandlerError::ClientNotConnected));
    assert_eq!(client.disconnect(), None);
    assert_eq!(client.connect(Err("refused")), Err("refused"));
    assert_eq!(client.state(), Err(RpcHandlerError::ClientNotConnected));
}

#[test]
fn service_client_with_a_connection() {
    let mut client: TestClient = ServiceClient::new_self_signed("localhost:8080", 6);
    let links = Links { shutdown: 1, rpc_tx: 2, events_tx: 3, state: 4 };
    assert_eq!(client.connect::<()>(Ok(links)), Ok(()));
    assert_eq!(client.state(), Ok(&4));
    assert_eq!(client.subscribe(), Ok(&3));
    assert_eq!(client.make_rpc_call(Some(vec![9])), Ok((&2, vec![9])));
    assert_eq!(client.make_rpc_call(None), Err(RpcHandlerError::BadInputBytes));
    assert_eq!(client.disconnect(), Some(1));
    assert_eq!(client.disconnect(), None);
    assert_eq!(client.state(), Ok(&4));
}

#[test]
fn service_client_decides_how_certificates_are_checked() {
    let checked: TestClient = ServiceClient::new("localhost:8080", 3);
    let runtime: Client<State> = checked.runtime_client();
    assert_eq!(runtime.config.tls, CertificateCheck::NativeRoots);
    assert_eq!(runtime.config.host, "localhost:8080");
    assert_eq!(runtime.config.compression, 3);
    assert_eq!(runtime.state.counter, 0);
    assert_eq!(runtime.hl_version_string, "hl/4");
    let unchecked: TestClient = ServiceClient::new_self_signed("localhost:8080", 3);
    let runtime: Client<State> = unchecked.runtime_client();
    assert_eq!(runtime.config.tls, CertificateCheck::Unchecked);
}
