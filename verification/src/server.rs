//! The server: its configuration and how it opens connections.
use vstd::prelude::*;
use vstd::utf8::{encode_utf8, is_ascii_chars};

use crate::connection::Connection;
use crate::event::EventEmitter;
use crate::handshake::{agreed_level, answer_handshake, optional_value, speaks, HandshakeReply};
use crate::switch::EventSwitch;
use crate::text::{occurrences_part_the_text, occurs};
use crate::version::{major_version, protocol_name, spelled_version, version_string, HL_VERSION};

verus! {

/// A certificate and its private key, both in DER.
pub struct Identity {
    pub certificate: Vec<u8>,
    pub private_key: Vec<u8>,
}

/// The bytes of a number, most significant first, without leading zeros.
pub open spec fn big_endian(n: nat) -> Seq<u8>
    decreases n,
{
    if n < 256 {
        seq![n as u8]
    } else {
        big_endian(n / 256).push((n % 256) as u8)
    }
}

/// A length in DER: one byte below 128, otherwise the bytes of the length after
/// a byte that counts them.
pub open spec fn der_length(n: nat) -> Seq<u8> {
    if n < 128 {
        seq![n as u8]
    } else {
        seq![(128 + big_endian(n).len()) as u8] + big_endian(n)
    }
}

/// A value in DER: its tag, its length and its content.
pub open spec fn der(tag: u8, content: Seq<u8>) -> Seq<u8> {
    seq![tag] + der_length(content.len()) + content
}

/// The extension of a certificate that gives one DNS name as what the
/// certificate is for: the object identifier 2.5.29.17 and a sequence with that
/// name alone.
pub open spec fn alternative_name(name: Seq<u8>) -> Seq<u8> {
    der(
        0x30,
        seq![0x06u8, 0x03u8, 0x55u8, 0x1du8, 0x11u8] + der(0x04, der(0x30, der(0x82, name))),
    )
}

/// Whether a certificate has the extension that gives a host, and it alone.
pub open spec fn is_for_host(certificate: Seq<u8>, host: Seq<char>) -> bool {
    occurs(alternative_name(encode_utf8(host)), certificate)
}

/// Whether a private key, a PKCS#8 document for the curve P-256, belongs to a
/// certificate: the document ends with the public key, an uncompressed point of
/// 65 bytes, and the certificate holds the bit string with that point.
pub open spec fn belongs_to(private_key: Seq<u8>, certificate: Seq<u8>) -> bool {
    let point = private_key.skip(73);
    &&& private_key.len() == 138
    &&& point[0] == 4
    &&& occurs(der(0x03, seq![0u8] + point), certificate)
}

/// `rcgen::generate_simple_self_signed` makes a certificate for a name with a
/// random key. The certificate has the extension that gives the name, and the
/// private key is the one whose public key the certificate holds; nothing more
/// is known of the bytes. It fails an assertion on a name that is not ASCII.
#[verifier::external_body]
fn self_signed_identity(host: &str) -> (identity: Identity)
    requires
        is_ascii_chars(host@),
    ensures
        is_for_host(identity.certificate@, host@),
        belongs_to(identity.private_key@, identity.certificate@),
{
    let cert = rcgen::generate_simple_self_signed(vec![host.into()]).unwrap();
    Identity {
        certificate: cert.serialize_der().unwrap(),
        private_key: cert.serialize_private_key_der(),
    }
}

/// How a server listens. `Tls` is what it terminates TLS with.
#[derive(Clone, Debug)]
pub struct ServerConfig<Tls> {
    pub address: String,
    pub version_major: u32,
    pub tls: Tls,
}

impl ServerConfig<Identity> {
    /// A configuration with a self-signed certificate for the address and the
    /// private key that belongs to it.
    pub fn new_self_signed(host: &str) -> (r: ServerConfig<Identity>)
        requires
            is_ascii_chars(host@),
        ensures
            r.address@ == host@,
            is_for_host(r.tls.certificate@, host@),
            belongs_to(r.tls.private_key@, r.tls.certificate@),
            spelled_version(HL_VERSION@) is Some,
            r.version_major == (spelled_version(HL_VERSION@)->0).0,
    {
        Self::new(host, self_signed_identity(host))
    }
}

impl<Tls> ServerConfig<Tls> {
    /// A configuration with the given TLS configuration.
    pub fn new(host: &str, tls: Tls) -> (r: ServerConfig<Tls>)
        ensures
            r.address@ == host@,
            r.tls == tls,
            spelled_version(HL_VERSION@) is Some,
            r.version_major == (spelled_version(HL_VERSION@)->0).0,
    {
        ServerConfig { address: host.to_owned(), version_major: major_version(), tls }
    }
}

/// A server. `Factory` makes a handler for each connection; `Notifier` is where
/// the application hears about topics that come and go. Events for the event
/// switch go through the channel with the number `event_tx`.
pub struct Server<Tls, Factory, Notifier> {
    pub config: ServerConfig<Tls>,
    pub factory: Factory,
    /// The name of the subprotocol that the server speaks.
    pub hl_version_string: String,
    /// The number of the channel to the event switch.
    pub event_tx: u64,
    /// The topic notifier, as long as it has not been taken.
    pub topic_notif_rx: Option<Notifier>,
}

impl<Tls, Factory, Notifier> Server<Tls, Factory, Notifier> {
    /// A server that speaks the subprotocol of the configured major version.
    pub fn new(
        config: ServerConfig<Tls>,
        factory: Factory,
        event_tx: u64,
        topic_notifier: Notifier,
    ) -> (r: Server<Tls, Factory, Notifier>)
        ensures
            r.config == config,
            r.factory == factory,
            r.hl_version_string@ == protocol_name(config.version_major),
            r.event_tx == event_tx,
            r.topic_notif_rx == Some(topic_notifier),
    {
        Server {
            hl_version_string: version_string(config.version_major),
            config,
            factory,
            event_tx,
            topic_notif_rx: Some(topic_notifier),
        }
    }

    /// An emitter with which the application sends events to clients, by way
    /// of the server's event switch. There can be any number of them.
    pub fn get_event_emitter(&self) -> (r: EventEmitter)
        ensures
            r.channel() == self.event_tx,
            r@.len() == 0,
    {
        EventEmitter::new(self.event_tx)
    }

    /// The server's event switch, which takes the events of its emitters and
    /// has no subscriptions yet.
    pub fn event_switch(&self) -> (r: EventSwitch)
        ensures
            r.source() == self.event_tx,
            (r@ == Map::<(Seq<u8>, bool), Map<Seq<u8>, u64>>::empty()),
    {
        EventSwitch::new(self.event_tx)
    }

    /// The topic notifier, or nothing when it has been taken already.
    pub fn get_topic_notifier(&mut self) -> (r: Option<Notifier>)
        ensures
            r == old(self).topic_notif_rx,
            final(self).topic_notif_rx is None,
            final(self).config == old(self).config,
            final(self).factory == old(self).factory,
            final(self).event_tx == old(self).event_tx,
            final(self).hl_version_string@ == old(self).hl_version_string@,
    {
        self.topic_notif_rx.take()
    }

    /// Opens a connection: how its handshake is answered, and the connection
    /// itself, which takes events on the channel `events_tx`.
    pub fn open_connection(
        &self,
        offered: Option<&[u8]>,
        asked: Option<&[u8]>,
        events_tx: u64,
    ) -> (r: (HandshakeReply, Connection))
        ensures
            r.0.bad_request <==> !(offered is Some && offered->0@ == encode_utf8(
                self.hl_version_string@,
            )),
            r.0.bad_request <==> !speaks(self.hl_version_string@, optional_value(offered)),
            r.0.protocol is Some <==> speaks(self.hl_version_string@, optional_value(offered)),
            r.0.protocol matches Some(p) ==> p@ == self.hl_version_string@,
            r.0.compression == agreed_level(optional_value(asked)),
            r.1.busy() == Set::<u8>::empty(),
            (r.1.topics() == Map::<(Seq<u8>, bool), Seq<u8>>::empty()),
            r.1.channel() == events_tx,
    {
        (
            answer_handshake(self.hl_version_string.as_str(), offered, asked),
            Connection::new(events_tx),
        )
    }
}

/// The bytes of a number go by their places, most significant first.
pub proof fn big_endian_goes_by_place(n: nat, byte: u8)
    ensures
        big_endian(byte as nat) == seq![byte],
        n > 0 ==> big_endian(256 * n + byte as nat) == big_endian(n).push(byte),
{
    if n > 0 {
        assert((256 * n + byte as nat) / 256 == n);
        assert((256 * n + byte as nat) % 256 == byte);
    }
}

/// A value in DER starts with its tag, ends with its content, and has between
/// them the length of the content: in one byte when it is below 128, otherwise in
/// the bytes of the length, after their number plus 128.
pub proof fn der_is_tag_length_content(tag: u8, content: Seq<u8>)
    ensures
        der(tag, content)[0] == tag,
        content.len() < 128 ==> der(tag, content).len() == content.len() + 2 && der(
            tag,
            content,
        )[1] == content.len() && der(tag, content).subrange(2, content.len() as int + 2) == content,
        content.len() >= 128 ==> {
            let k = big_endian(content.len()).len() as int;
            &&& der(tag, content).len() == content.len() + 2 + k
            &&& k < 128 ==> der(tag, content)[1] == 128 + k
            &&& der(tag, content).subrange(2, 2 + k) == big_endian(content.len())
            &&& der(tag, content).subrange(2 + k, 2 + k + content.len()) == content
        },
{
    let d = der(tag, content);
    if content.len() < 128 {
        assert(d.subrange(2, content.len() as int + 2) =~= content);
    } else {
        let b = big_endian(content.len());
        let k = b.len() as int;
        assert(d.subrange(2, 2 + k) =~= b);
        assert(d.subrange(2 + k, 2 + k + content.len()) =~= content);
    }
}

/// A certificate for a host holds the host's name, byte by byte, with the tags
/// and lengths of the extension before it; a certificate that holds these is for
/// the host. The lengths are those of names of up to 116 bytes.
pub proof fn certificates_name_their_host(certificate: Seq<u8>, host: Seq<char>)
    requires
        encode_utf8(host).len() <= 116,
    ensures
        ({
            let name = encode_utf8(host);
            let n = name.len();
            let extension = seq![
                0x30u8,
                (n + 11) as u8,
                0x06,
                0x03,
                0x55,
                0x1d,
                0x11,
                0x04,
                (n + 4) as u8,
                0x30,
                (n + 2) as u8,
                0x82,
                n as u8,
            ] + name;
            is_for_host(certificate, host) <==> exists|before: Seq<u8>, after: Seq<u8>|
                certificate == #[trigger] (before + extension + after)
        }),
{
    let name = encode_utf8(host);
    let n = name.len();
    let extension = seq![
        0x30u8,
        (n + 11) as u8,
        0x06,
        0x03,
        0x55,
        0x1d,
        0x11,
        0x04,
        (n + 4) as u8,
        0x30,
        (n + 2) as u8,
        0x82,
        n as u8,
    ] + name;
    let d1 = der(0x82, name);
    let d2 = der(0x30, d1);
    let d3 = der(0x04, d2);
    assert(d1.len() == n + 2);
    assert(d2.len() == n + 4);
    assert(d3.len() == n + 6);
    assert(alternative_name(name) =~= extension);
    occurrences_part_the_text(extension, certificate);
}

/// A private key belongs to a certificate exactly when it has 138 bytes, of which
/// the last 65 are a point that starts with a four, and the certificate holds
/// these, as a bit string, byte by byte.
pub proof fn keys_share_their_point(private_key: Seq<u8>, certificate: Seq<u8>)
    ensures
        ({
            let bits = seq![3u8, 66u8, 0u8] + private_key.subrange(73, 138);
            belongs_to(private_key, certificate) <==> private_key.len() == 138 && private_key[73]
                == 4 && exists|before: Seq<u8>, after: Seq<u8>|
                certificate == #[trigger] (before + bits + after)
        }),
{
    if private_key.len() == 138 {
        let point = private_key.skip(73);
        assert(point =~= private_key.subrange(73, 138));
        let bits = seq![3u8, 66u8, 0u8] + point;
        assert(der(0x03, seq![0u8] + point) =~= bits);
        occurrences_part_the_text(bits, certificate);
    }
}

} // verus!
