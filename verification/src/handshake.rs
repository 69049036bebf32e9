//! The handshake that opens a connection: both ends must speak the same major
//! version, and the client may ask for a compression level.
use vstd::prelude::*;
use vstd::utf8::{encode_utf8, is_ascii_chars};

use crate::compress::{default_level, header_level, levels_are_single_digits, parse_level};
use crate::text::{decimal, decimal_spells, decimal_text, is_digit, latin_text};
use crate::topic::same_bytes;

verus! {

/// The view of a header value that may be missing.
pub open spec fn optional_value(h: Option<&[u8]>) -> Option<Seq<u8>> {
    match h {
        Some(v) => Some(v@),
        None => None,
    }
}

/// Whether a header carries the name of the subprotocol.
pub open spec fn speaks(version: Seq<char>, header: Option<Seq<u8>>) -> bool {
    header == Some(encode_utf8(version))
}

/// The level at which a server compresses, by the header in which the client
/// asks for one.
pub open spec fn agreed_level(asked: Option<Seq<u8>>) -> u32 {
    match asked {
        Some(value) => match header_level(value) {
            Some(level) => level,
            None => 6,
        },
        None => 6,
    }
}

/// How a server answers a handshake.
pub struct HandshakeReply {
    /// Whether the answer has the status for a bad request.
    pub bad_request: bool,
    /// The subprotocol that the answer names.
    pub protocol: Option<String>,
    /// The compression level that the answer names and the server uses.
    pub compression: u32,
}

/// Whether `header` is the name of the subprotocol.
fn is_protocol(version: &str, header: Option<&[u8]>) -> (r: bool)
    ensures
        r == speaks(version@, optional_value(header)),
{
    match header {
        Some(value) => same_bytes(value, version.as_bytes()),
        None => false,
    }
}

/// Answers a handshake in which the client offers a subprotocol and asks for a
/// compression level. A client that offers another subprotocol, or none, is
/// told so and gets no subprotocol back.
pub fn answer_handshake(version: &str, offered: Option<&[u8]>, asked: Option<&[u8]>) -> (r:
    HandshakeReply)
    ensures
        r.bad_request <==> !(offered is Some && offered->0@ == encode_utf8(version@)),
        r.bad_request <==> !speaks(version@, optional_value(offered)),
        r.protocol is Some <==> speaks(version@, optional_value(offered)),
        r.protocol matches Some(p) ==> p@ == version@,
        r.compression == agreed_level(optional_value(asked)),
        r.compression <= 9,
{
    let accepted = is_protocol(version, offered);
    let level: u32 = match asked {
        Some(value) => match parse_level(value) {
            Some(level) => level,
            None => default_level(),
        },
        None => default_level(),
    };
    HandshakeReply {
        bad_request: !accepted,
        protocol: if accepted {
            Some(version.to_owned())
        } else {
            None
        },
        compression: level,
    }
}

/// A connection that was not opened because the server did not name the
/// subprotocol that the client wants.
#[derive(Clone, Copy, Debug, PartialEq, Eq, Structural)]
pub struct HandshakeIncomplete;

/// Checks a server's answer. A connection is open when the answer names the
/// subprotocol; the level that the answer names is handed out for information.
pub fn check_handshake(version: &str, protocol: Option<&[u8]>, named: Option<&[u8]>) -> (r: Result<
    Option<u32>,
    HandshakeIncomplete,
>)
    ensures
        r is Ok <==> protocol is Some && protocol->0@ == encode_utf8(version@),
        r is Ok <==> speaks(version@, optional_value(protocol)),
        r matches Ok(level) ==> level == (match optional_value(named) {
            Some(value) => header_level(value),
            None => None,
        }),
{
    if !is_protocol(version, protocol) {
        return Err(HandshakeIncomplete);
    }
    match named {
        Some(value) => Ok(parse_level(value)),
        None => Ok(None),
    }
}

/// The request with which a client opens a connection.
pub struct UpgradeRequest {
    pub uri: String,
    pub headers: Vec<(String, String)>,
}

/// The views of header names and values.
pub open spec fn header_views(headers: Seq<(String, String)>) -> Seq<(Seq<char>, Seq<char>)> {
    headers.map_values(|h: (String, String)| (h.0@, h.1@))
}

/// The address of a host's connection endpoint.
pub open spec fn endpoint(host: Seq<char>) -> Seq<char> {
    "wss://"@ + host + "/"@
}

/// The headers of the request with which a client opens a connection.
pub open spec fn request_headers(
    host: Seq<char>,
    key: Seq<char>,
    version: Seq<char>,
    level: u32,
) -> Seq<(Seq<char>, Seq<char>)> {
    seq![
        ("Host"@, host),
        ("Connection"@, "Upgrade"@),
        ("Upgrade"@, "websocket"@),
        ("Sec-WebSocket-Version"@, "13"@),
        ("Sec-WebSocket-Key"@, key),
        ("Sec-WebSocket-Protocol"@, version),
        ("X-HL-Compress"@, decimal(level as nat)),
    ]
}

/// Makes the request with which a client opens a connection. `key` is the
/// random key of the WebSocket handshake.
pub fn upgrade_request(host: &str, key: &str, version: &str, level: u32) -> (r: UpgradeRequest)
    ensures
        r.uri@ == endpoint(host@),
        header_views(r.headers@) == request_headers(host@, key@, version@, level),
{
    let mut uri = "wss://".to_owned();
    uri.append(host);
    uri.append("/");
    let mut headers: Vec<(String, String)> = Vec::new();
    headers.push(("Host".to_owned(), host.to_owned()));
    headers.push(("Connection".to_owned(), "Upgrade".to_owned()));
    headers.push(("Upgrade".to_owned(), "websocket".to_owned()));
    headers.push(("Sec-WebSocket-Version".to_owned(), "13".to_owned()));
    headers.push(("Sec-WebSocket-Key".to_owned(), key.to_owned()));
    headers.push(("Sec-WebSocket-Protocol".to_owned(), version.to_owned()));
    headers.push(("X-HL-Compress".to_owned(), decimal_text(level)));
    assert(header_views(headers@) =~= request_headers(host@, key@, version@, level));
    UpgradeRequest { uri, headers }
}

/// The value of the first header with this name.
pub open spec fn header_value(headers: Seq<(Seq<char>, Seq<char>)>, name: Seq<char>) -> Option<
    Seq<char>,
>
    decreases headers.len(),
{
    if headers.len() == 0 {
        None
    } else if headers[0].0 == name {
        Some(headers[0].1)
    } else {
        header_value(headers.drop_first(), name)
    }
}

/// The bytes of a header value that may be missing.
pub open spec fn value_bytes(value: Option<Seq<char>>) -> Option<Seq<u8>> {
    match value {
        Some(v) => Some(encode_utf8(v)),
        None => None,
    }
}

/// A decimal number in a header reads back as the level it spells.
pub proof fn level_header_reads_back(level: u32)
    requires
        level <= 9,
    ensures
        header_level(encode_utf8(decimal(level as nat))) == Some(level),
{
    let s = decimal(level as nat);
    decimal_spells(level as nat);
    assert forall|i: int| 0 <= i < s.len() implies s[i] as u32 <= 127 by {
        assert(is_digit(s[i]));
    }
    assert(is_ascii_chars(s));
    vstd::utf8::is_ascii_chars_encode_utf8(s);
    assert(latin_text(encode_utf8(s)) =~= s);
}

/// A server of the same version accepts what a client sends, agrees on the
/// level that the client asks for, and the client accepts the answer.
pub proof fn same_versions_connect(
    host: Seq<char>,
    key: Seq<char>,
    version: Seq<char>,
    level: u32,
)
    requires
        level <= 9,
    ensures
        ({
            let sent = request_headers(host, key, version, level);
            let offered = value_bytes(header_value(sent, "Sec-WebSocket-Protocol"@));
            let asked = value_bytes(header_value(sent, "X-HL-Compress"@));
            let named = encode_utf8(decimal(agreed_level(asked) as nat));
            &&& speaks(version, offered)
            &&& agreed_level(asked) == level
            &&& speaks(version, Some(encode_utf8(version)))
            &&& header_level(named) == Some(level)
        }),
{
    level_header_reads_back(level);
    let sent = request_headers(host, key, version, level);
    reveal_strlit("Host");
    reveal_strlit("Connection");
    reveal_strlit("Upgrade");
    reveal_strlit("Sec-WebSocket-Version");
    reveal_strlit("Sec-WebSocket-Key");
    reveal_strlit("Sec-WebSocket-Protocol");
    reveal_strlit("X-HL-Compress");
    assert("Sec-WebSocket-Protocol"@.len() == 22 && "X-HL-Compress"@.len() == 13);
    reveal_with_fuel(header_value, 8);
    let s1 = sent.drop_first();
    let s2 = s1.drop_first();
    let s3 = s2.drop_first();
    let s4 = s3.drop_first();
    let s5 = s4.drop_first();
    let s6 = s5.drop_first();
    assert(header_value(sent, "Sec-WebSocket-Protocol"@) == Some(version));
    assert(header_value(sent, "X-HL-Compress"@) == Some(decimal(level as nat)));
}

/// A server refuses a client of another major version.
pub proof fn other_versions_are_refused(ours: u32, theirs: u32)
    requires
        ours != theirs,
    ensures
        !speaks(
            crate::version::protocol_name(ours),
            Some(encode_utf8(crate::version::protocol_name(theirs))),
        ),
{
    let a = crate::version::protocol_name(ours);
    let b = crate::version::protocol_name(theirs);
    if encode_utf8(a) == encode_utf8(b) {
        vstd::utf8::encode_utf8_decode_utf8(a);
        vstd::utf8::encode_utf8_decode_utf8(b);
        assert(a.skip(3) =~= decimal(ours as nat));
        assert(b.skip(3) =~= decimal(theirs as nat));
        decimal_spells(ours as nat);
        decimal_spells(theirs as nat);
    }
}

/// A header speaks the subprotocol exactly when it is there and is, byte for
/// byte, the name of the subprotocol: every other value is refused.
pub proof fn only_the_name_itself_is_spoken(version: Seq<char>, header: Option<Seq<u8>>)
    ensures
        speaks(version, header) <==> header is Some && header->0.len() == encode_utf8(version).len()
            && forall|i: int|
            0 <= i < header->0.len() ==> #[trigger] header->0[i] == encode_utf8(version)[i],
{
    match header {
        Some(value) => {
            if value.len() == encode_utf8(version).len() && forall|i: int|
                0 <= i < value.len() ==> #[trigger] value[i] == encode_utf8(version)[i] {
                assert(value =~= encode_utf8(version));
            }
        },
        None => {},
    }
}

/// A header value is read byte for byte, and a missing one as missing.
pub proof fn header_values_are_read_as_they_are(value: &[u8])
    ensures
        optional_value(None) is None,
        optional_value(Some(value)) == Some(value@),
{
}

/// The level agreed on is the digit with which a usable header ends, and six
/// when there is no header or no usable one.
pub proof fn agreed_level_is_asked_for(value: Seq<u8>)
    ensures
        agreed_level(None) == 6,
        agreed_level(Some(value)) == (if value.len() > 0 && 48 <= value[value.len() - 1] <= 57 && (forall|i: int|
            0 <= i < value.len() - 1 ==> #[trigger] value[i] == 48 || i == 0 && value[i] == 43) {
            (value[value.len() - 1] - 48) as u32
        } else {
            6
        }),
{
    levels_are_single_digits(value);
}

/// A request says where it goes: to the host, over TLS, at the root.
pub proof fn endpoint_is_the_host_over_tls(host: Seq<char>)
    ensures
        endpoint(host).len() == host.len() + 7,
        endpoint(host).subrange(0, 6) == "wss://"@,
        endpoint(host).subrange(6, host.len() as int + 6) == host,
        endpoint(host).last() == '/',
{
    reveal_strlit("wss://");
    reveal_strlit("/");
    assert(endpoint(host).subrange(0, 6) =~= "wss://"@);
    assert(endpoint(host).subrange(6, host.len() as int + 6) =~= host);
}

/// A request has seven headers: those of every WebSocket handshake, for the
/// host and with the key, the subprotocol, and the level in decimal.
pub proof fn requests_have_their_headers(
    host: Seq<char>,
    key: Seq<char>,
    version: Seq<char>,
    level: u32,
)
    ensures
        ({
            let sent = request_headers(host, key, version, level);
            &&& sent.len() == 7
            &&& sent.contains(("Host"@, host))
            &&& sent.contains(("Connection"@, "Upgrade"@))
            &&& sent.contains(("Upgrade"@, "websocket"@))
            &&& sent.contains(("Sec-WebSocket-Version"@, "13"@))
            &&& sent.contains(("Sec-WebSocket-Key"@, key))
            &&& sent.contains(("Sec-WebSocket-Protocol"@, version))
            &&& sent.contains(("X-HL-Compress"@, decimal(level as nat)))
        }),
{
    let sent = request_headers(host, key, version, level);
    assert(sent[0] == ("Host"@, host));
    assert(sent[1] == ("Connection"@, "Upgrade"@));
    assert(sent[2] == ("Upgrade"@, "websocket"@));
    assert(sent[3] == ("Sec-WebSocket-Version"@, "13"@));
    assert(sent[4] == ("Sec-WebSocket-Key"@, key));
    assert(sent[5] == ("Sec-WebSocket-Protocol"@, version));
    assert(sent[6] == ("X-HL-Compress"@, decimal(level as nat)));
}

/// The view of headers tells each name and value in its place.
pub proof fn header_views_tell_all(headers: Seq<(String, String)>)
    ensures
        header_views(headers).len() == headers.len(),
        forall|i: int|
            0 <= i < headers.len() ==> (#[trigger] header_views(headers)[i]).0 == headers[i].0@
                && header_views(headers)[i].1 == headers[i].1@,
{
}

} // verus!
