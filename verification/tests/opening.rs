use hardlight::compress::{pack, parse_level, unpack};
use hardlight::counter::State;
use hardlight::handshake::{
    answer_handshake, check_handshake, upgrade_request, HandshakeIncomplete, UpgradeRequest,
};
use hardlight::text::decimal_text;
use hardlight::version::{major_version, version_string};
use hardlight::{Client, RpcHandlerError, Server, ServerConfig, HL_VERSION};

fn header<'a>(request: &'a UpgradeRequest, name: &str) -> Option<&'a [u8]> {
    request.headers.iter().find(|h| h.0 == name).map(|h| h.1.as_bytes())
}

#[test]
fn frames_unpack_to_what_was_packed() {
    for level in 0..=10u32 {
        for message in [vec![], vec![1u8, 2, 3], vec![7u8; 5000], (0..=255u8).collect()] {
            let frame = pack(Some(message.clone()), level).unwrap();
            assert_ne!(frame, message);
            assert_eq!(unpack(&frame), Some(message));
        }
    }
}

#[test]
fn packing_makes_repetition_small() {
    let message = vec![7u8; 5000];
    assert!(pack(Some(message.clone()), 9).unwrap().len() < 100);
    assert!(pack(Some(message), 0).unwrap().len() > 5000);
}

#[test]
fn message_that_did_not_encode_is_not_packed() {
    assert_eq!(pack(None, 6), None);
}

#[test]
fn bytes_that_are_no_frame_do_not_unpack() {
    assert_eq!(unpack(&[0xff, 0xff, 0xff]), None);
    assert_eq!(unpack(&[0x07]), None);
    let mut frame = pack(Some(vec![1, 2, 3]), 6).unwrap();
    frame.push(0);
    assert_eq!(unpack(&frame), None);
}

#[test]
fn levels_are_numbers_up_to_nine() {
    for level in 0..=9u32 {
        assert_eq!(parse_level(decimal_text(level).as_bytes()), Some(level));
    }
    assert_eq!(parse_level(b"+7"), Some(7));
    assert_eq!(parse_level(b"007"), Some(7));
    assert_eq!(parse_level(b"10"), None);
    assert_eq!(parse_level(b"256"), None);
    assert_eq!(parse_level(b"99999999999999999999"), None);
    assert_eq!(parse_level(b""), None);
    assert_eq!(parse_level(b"+"), None);
    assert_eq!(parse_level(b"-1"), None);
    assert_eq!(parse_level(b" 1"), None);
    assert_eq!(parse_level(b"1a"), None);
    assert_eq!(parse_level(&[0xff]), None);
}

#[test]
fn numbers_are_spelled_in_decimal() {
    for n in [0u32, 9, 10, 99, 100, 65535, 4294967295] {
        assert_eq!(decimal_text(n), n.to_string());
    }
}

#[test]
fn version_names_the_subprotocol() {
    assert_eq!(HL_VERSION, "4.0.0");
    assert_eq!(major_version(), 4);
    assert_eq!(version_string(4), "hl/4");
    assert_eq!(version_string(4294967295), "hl/4294967295");
}

#[test]
fn handshake_of_the_same_version_is_accepted() {
    let reply = answer_handshake("hl/4", Some(b"hl/4"), Some(b"3"));
    assert!(!reply.bad_request);
    assert_eq!(reply.protocol, Some("hl/4".to_string()));
    assert_eq!(reply.compression, 3);
}

#[test]
fn handshake_of_another_version_is_a_bad_request() {
    let reply = answer_handshake("hl/4", Some(b"hl/3"), Some(b"3"));
    assert!(reply.bad_request);
    assert_eq!(reply.protocol, None);
    assert_eq!(reply.compression, 3);
}

#[test]
fn handshake_without_a_version_is_a_bad_request() {
    let reply = answer_handshake("hl/4", None, None);
    assert!(reply.bad_request);
    assert_eq!(reply.protocol, None);
    assert_eq!(reply.compression, 6);
}

#[test]
fn unusable_level_falls_back_to_the_default() {
    assert_eq!(answer_handshake("hl/4", Some(b"hl/4"), Some(b"10")).compression, 6);
    assert_eq!(answer_handshake("hl/4", Some(b"hl/4"), Some(b"fast")).compression, 6);
    assert_eq!(answer_handshake("hl/4", Some(b"hl/4"), None).compression, 6);
}

#[test]
fn client_checks_the_answer() {
    assert_eq!(check_handshake("hl/4", Some(b"hl/4"), Some(b"2")), Ok(Some(2)));
    assert_eq!(check_handshake("hl/4", Some(b"hl/4"), None), Ok(None));
    assert_eq!(check_handshake("hl/4", Some(b"hl/4"), Some(b"x")), Ok(None));
    assert_eq!(check_handshake("hl/4", Some(b"hl/5"), Some(b"2")), Err(HandshakeIncomplete));
    assert_eq!(check_handshake("hl/4", None, Some(b"2")), Err(HandshakeIncomplete));
}

#[test]
fn upgrade_request_has_its_headers_in_order() {
    let request = upgrade_request("localhost:8080", "a2V5", "hl/4", 7);
    assert_eq!(request.uri, "wss://localhost:8080/");
    let expected = [
        ("Host", "localhost:8080"),
        ("Connection", "Upgrade"),
        ("Upgrade", "websocket"),
        ("Sec-WebSocket-Version", "13"),
        ("Sec-WebSocket-Key", "a2V5"),
        ("Sec-WebSocket-Protocol", "hl/4"),
        ("X-HL-Compress", "7"),
    ];
    assert_eq!(request.headers.len(), expected.len());
    for (found, wanted) in request.headers.iter().zip(expected) {
        assert_eq!((found.0.as_str(), found.1.as_str()), wanted);
    }
}

#[test]
fn client_and_server_of_one_version_connect() {
    let server = Server::new(ServerConfig::new("localhost:8080", ()), (), 0, ());
    for level in 0..=9u32 {
        let client: Client<State> = Client::new_self_signed("localhost:8080", level);
        let request = client.request("a2V5");
        let (reply, connection) = server.open_connection(
            header(&request, "Sec-WebSocket-Protocol"),
            header(&request, "X-HL-Compress"),
            1,
        );
        assert!(!reply.bad_request);
        assert_eq!(reply.compression, level);
        assert!(!connection.is_subscribed(&"a".into()));
        let protocol = reply.protocol.unwrap();
        let named = decimal_text(reply.compression);
        assert_eq!(client.accept(Some(protocol.as_bytes()), Some(named.as_bytes())), Ok(level));
    }
}

#[test]
fn level_beyond_nine_is_not_agreed_on() {
    let server = Server::new(ServerConfig::new("localhost:8080", ()), (), 0, ());
    let client: Client<State> = Client::new_self_signed("localhost:8080", 10);
    let request = client.request("a2V5");
    let (reply, _) = server.open_connection(
        header(&request, "Sec-WebSocket-Protocol"),
        header(&request, "X-HL-Compress"),
        1,
    );
    assert!(!reply.bad_request);
    assert_eq!(reply.compression, 6);
}

#[test]
fn client_and_server_of_different_versions_do_not_connect() {
    let config = ServerConfig { address: "localhost:8080".to_string(), version_major: 5, tls: () };
    let server = Server::new(config, (), 0, ());
    let client: Client<State> = Client::new("localhost:8080", 6);
    let request = client.request("a2V5");
    let (reply, _) = server.open_connection(
        header(&request, "Sec-WebSocket-Protocol"),
        header(&request, "X-HL-Compress"),
        1,
    );
    assert!(reply.bad_request);
    assert_eq!(reply.protocol, None);
    assert_eq!(client.accept(None, Some(b"6")), Err(HandshakeIncomplete));
}

#[test]
fn client_names_its_own_level_when_the_server_names_none() {
    let client: Client<State> = Client::new("localhost:8080", 8);
    assert_eq!(client.accept(Some(b"hl/4"), None), Ok(8));
    assert_eq!(client.accept(Some(b"hl/4"), Some(b"12")), Ok(8));
    assert_eq!(client.accept(Some(b"hl/4"), Some(b"1")), Ok(1));
}

#[test]
fn client_packs_calls_at_its_level() {
    let client: Client<State> = Client::new("localhost:8080", 9);
    let frame = client.pack_call(Some(vec![5u8; 300])).unwrap();
    assert!(frame.len() < 300);
    assert_eq!(unpack(&frame), Some(vec![5u8; 300]));
    assert_eq!(client.pack_call(None), Err(RpcHandlerError::BadInputBytes));
}

fn der(tag: u8, content: &[u8]) -> Vec<u8> {
    let n = content.len();
    let mut out = vec![tag];
    if n < 128 {
        out.push(n as u8);
    } else if n < 256 {
        out.extend([0x81, n as u8]);
    } else {
        out.extend([0x82, (n / 256) as u8, (n % 256) as u8]);
    }
    out.extend(content);
    out
}

fn holds(bytes: &[u8], part: &[u8]) -> bool {
    bytes.windows(part.len()).any(|w| w == part)
}

fn alternative_name(host: &str) -> Vec<u8> {
    let mut content = vec![0x06, 0x03, 0x55, 0x1d, 0x11];
    content.extend(der(0x04, &der(0x30, &der(0x82, host.as_bytes()))));
    der(0x30, &content)
}

fn public_key(private_key: &[u8]) -> Vec<u8> {
    let mut bits = vec![0];
    bits.extend(&private_key[private_key.len() - 65..]);
    der(0x03, &bits)
}

#[test]
fn self_signed_configuration_is_for_its_host() {
    let config = ServerConfig::new_self_signed("localhost:8080");
    assert_eq!(config.address, "localhost:8080");
    assert_eq!(config.version_major, 4);
    assert!(holds(&config.tls.certificate, &alternative_name("localhost:8080")));
    assert!(!holds(&config.tls.certificate, &alternative_name("localhost:808")));
    for n in [0, 1, 113, 114, 127, 128, 247, 256, 300, 70000] {
        let host = "h".repeat(n);
        let config = ServerConfig::new_self_signed(&host);
        if n < 60000 {
            assert!(holds(&config.tls.certificate, &alternative_name(&host)));
        } else {
            let mut name = vec![0x82, 0x83, 0x01, 0x11, 0x70];
            name.extend(host.as_bytes());
            assert!(holds(&config.tls.certificate, &name));
        }
    }
}

#[test]
fn self_signed_configuration_has_the_key_of_its_certificate() {
    let config = ServerConfig::new_self_signed("localhost:8080");
    assert_eq!(config.tls.private_key.len(), 138);
    assert_eq!(config.tls.private_key[73], 4);
    assert!(holds(&config.tls.certificate, &public_key(&config.tls.private_key)));
    let other = ServerConfig::new_self_signed("localhost:8080");
    assert_ne!(config.tls.private_key, other.tls.private_key);
    assert!(!holds(&config.tls.certificate, &public_key(&other.tls.private_key)));
}

#[test]
fn topic_notifier_can_be_taken_once() {
    let mut server = Server::new(ServerConfig::new("localhost:8080", 1u8), 2u8, 4, 3u8);
    assert_eq!(server.hl_version_string, "hl/4");
    assert_eq!(server.config.tls, 1);
    assert_eq!(server.factory, 2);
    assert_eq!(server.get_topic_notifier(), Some(3));
    assert_eq!(server.get_topic_notifier(), None);
    assert_eq!(server.event_tx, 4);
}

#[test]
fn emitters_can_be_had_any_number_of_times() {
    let server = Server::new(ServerConfig::new("localhost:8080", ()), (), 7, ());
    let switch = server.event_switch();
    let mut first = server.get_event_emitter();
    let mut second = server.get_event_emitter();
    assert_eq!(first.channel_number(), 7);
    assert_eq!(second.channel_number(), 7);
    first.emit(&"a".into(), vec![1u8]);
    first.emit(&"a".into(), vec![2u8]);
    second.emit(&"b".into(), vec![3u8]);
    let events = switch.take_up(&mut first);
    assert_eq!(events.len(), 2);
    assert_eq!(events[0].payload, vec![1]);
    assert_eq!(events[1].payload, vec![2]);
    assert!(first.take_pending().is_empty());
    drop(first);
    let events = switch.take_up(&mut second);
    assert_eq!(events.len(), 1);
    assert!(events[0].topic == "b".into());
    assert!(switch.take_up(&mut second).is_empty());
}

#[test]
fn emitters_of_another_server_do_not_feed_a_switch() {
    let ours = Server::new(ServerConfig::new("localhost:8080", ()), (), 7, ());
    let theirs = Server::new(ServerConfig::new("localhost:8081", ()), (), 8, ());
    let mut emitter = theirs.get_event_emitter();
    emitter.emit(&"a".into(), vec![1u8]);
    assert!(ours.event_switch().take_up(&mut emitter).is_empty());
    assert_eq!(theirs.event_switch().take_up(&mut emitter).len(), 1);
}
