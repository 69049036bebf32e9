//! The client's side of a connection: how it is opened, which calls wait for
//! their results, and what to do about everything that arrives.
use vstd::prelude::*;
use vstd::utf8::encode_utf8;

use crate::compress::{deflated, inflated, levels_are_single_digits, pack};
use crate::event::Event;
use crate::handshake::{
    check_handshake, endpoint, header_views, optional_value, request_headers, speaks,
    upgrade_request, HandshakeIncomplete, UpgradeRequest,
};
use crate::version::{major_version, protocol_name, spelled_version, version_string, HL_VERSION};
use crate::wire::{ClientMessage, HandlerResult, RpcHandlerError, ServerMessage, StateUpdate};

verus! {

/// A client's copy of the connection state, which takes up the changes that
/// the server sends.
pub trait ClientState {
    fn apply_changes(&mut self, changes: Vec<StateUpdate>) -> HandlerResult<()>;
}

/// How a client checks the certificate of a server.
#[derive(Clone, Copy, Debug, PartialEq, Eq, Structural)]
pub enum CertificateCheck {
    /// Against the root certificates of the system.
    NativeRoots,
    /// Not at all, for servers with self-signed certificates.
    Unchecked,
}

/// How a client connects.
pub struct ClientConfig {
    pub tls: CertificateCheck,
    pub host: String,
    pub compression: u32,
}

/// A client and its copy of the connection state.
pub struct Client<T> {
    pub config: ClientConfig,
    pub state: T,
    pub hl_version_string: String,
}

/// Whether a client is as it is made: with the given configuration, a default
/// state, and the subprotocol of this library's major version.
pub open spec fn is_new_client<T: Default>(
    c: Client<T>,
    tls: CertificateCheck,
    host: Seq<char>,
    compression: u32,
) -> bool {
    &&& c.config.tls == tls
    &&& c.config.host@ == host
    &&& c.config.compression == compression
    &&& call_ensures(T::default, (), c.state)
    &&& spelled_version(HL_VERSION@) is Some
    &&& c.hl_version_string@ == protocol_name((spelled_version(HL_VERSION@)->0).0)
}

impl<T: Default> Client<T> {
    /// Makes a client that does not check the certificate of the server.
    pub fn new_self_signed(host: &str, compression: u32) -> (r: Client<T>)
        ensures
            is_new_client(r, CertificateCheck::Unchecked, host@, compression),
            r.config.tls == CertificateCheck::Unchecked,
            r.config.host@ == host@,
            r.config.compression == compression,
            call_ensures(T::default, (), r.state),
            r.hl_version_string@ == protocol_name((spelled_version(HL_VERSION@)->0).0),
    {
        Self::new_with_config(
            ClientConfig { tls: CertificateCheck::Unchecked, host: host.to_owned(), compression },
        )
    }

    /// Makes a client that checks the certificate of the server against the
    /// root certificates of the system.
    pub fn new(host: &str, compression: u32) -> (r: Client<T>)
        ensures
            is_new_client(r, CertificateCheck::NativeRoots, host@, compression),
            r.config.tls == CertificateCheck::NativeRoots,
            r.config.host@ == host@,
            r.config.compression == compression,
            call_ensures(T::default, (), r.state),
            r.hl_version_string@ == protocol_name((spelled_version(HL_VERSION@)->0).0),
    {
        Self::new_with_config(
            ClientConfig { tls: CertificateCheck::NativeRoots, host: host.to_owned(), compression },
        )
    }

    /// Makes a client with the given configuration.
    fn new_with_config(config: ClientConfig) -> (r: Client<T>)
        ensures
            r.config == config,
            is_new_client(r, config.tls, config.host@, config.compression),
    {
        Client { config, state: T::default(), hl_version_string: version_string(major_version()) }
    }
}

impl<T> Client<T> {
    /// The request with which the client opens a connection.
    pub fn request(&self, key: &str) -> (r: UpgradeRequest)
        ensures
            r.uri@ == endpoint(self.config.host@),
            header_views(r.headers@) == request_headers(
                self.config.host@,
                key@,
                self.hl_version_string@,
                self.config.compression,
            ),
    {
        upgrade_request(
            self.config.host.as_str(),
            key,
            self.hl_version_string.as_str(),
            self.config.compression,
        )
    }

    /// Checks the server's answer and says at which level the server
    /// compresses: the one that the answer names, or the client's own when it
    /// names none.
    pub fn accept(&self, protocol: Option<&[u8]>, named: Option<&[u8]>) -> (r: Result<
        u32,
        HandshakeIncomplete,
    >)
        ensures
            r is Ok <==> protocol is Some && protocol->0@ == encode_utf8(self.hl_version_string@),
            r is Ok <==> speaks(self.hl_version_string@, optional_value(protocol)),
            r matches Ok(level) ==> level == named_level(
                optional_value(named),
                self.config.compression,
            ),
    {
        match check_handshake(self.hl_version_string.as_str(), protocol, named) {
            Ok(Some(level)) => Ok(level),
            Ok(None) => Ok(self.config.compression),
            Err(e) => Err(e),
        }
    }

    /// Turns an encoded call into the frame that is sent. A call that could
    /// not be encoded fails as bad input.
    pub fn pack_call(&self, encoded: Option<Vec<u8>>) -> (r: HandlerResult<Vec<u8>>)
        requires
            self.config.compression <= 10,
        ensures
            match encoded {
                Some(msg) => {
                    &&& r is Ok
                    &&& r->Ok_0@ == deflated(msg@, self.config.compression)
                    &&& inflated(r->Ok_0@) == Some(msg@)
                },
                None => r == Err::<Vec<u8>, RpcHandlerError>(RpcHandlerError::BadInputBytes),
            },
    {
        match pack(encoded, self.config.compression) {
            Some(frame) => Ok(frame),
            None => Err(RpcHandlerError::BadInputBytes),
        }
    }
}

/// The level that a server's answer names, or `own` when it names none.
pub open spec fn named_level(named: Option<Seq<u8>>, own: u32) -> u32 {
    match named {
        Some(value) => match crate::compress::header_level(value) {
            Some(level) => level,
            None => own,
        },
        None => own,
    }
}

/// `array_init::array_init` calls its argument for every element.
#[verifier::external_body]
fn empty_slots<C>() -> (r: [Option<C>; 256])
    ensures
        forall|i: int| 0 <= i < 256 ==> (#[trigger] r@[i]) is None,
{
    array_init::array_init(|_| None)
}

/// The calls that wait for their results. What is kept of a call, `C`, is what
/// its result goes to.
///
/// The view is the calls by their ids.
pub struct ActiveCalls<C> {
    slots: [Option<C>; 256],
}

impl<C> View for ActiveCalls<C> {
    type V = Map<u8, C>;

    closed spec fn view(&self) -> Map<u8, C> {
        Map::new(|id: u8| self.slots@[id as int] is Some, |id: u8| self.slots@[id as int]->0)
    }
}

/// How a call begins.
pub enum CallStart<C> {
    /// The message is to be encoded and sent.
    Send { id: u8, message: ClientMessage, completion: C },
    /// The call fails at once.
    Fail { completion: C, error: RpcHandlerError },
}

/// What became of a call that was to be sent.
#[derive(Clone, Copy, Debug, PartialEq, Eq, Structural)]
pub enum CallOutcome {
    /// It is on its way.
    Sent,
    /// It could not be encoded or packed.
    Unencodable,
    /// It could not be sent.
    Unsent,
}

/// What there is to do about a message from the server.
pub enum ClientAction<C> {
    /// Nothing.
    Ignore,
    /// Hand a result to the call that waits for it.
    Complete { completion: C, output: HandlerResult<Vec<u8>> },
    /// Apply changes to the connection state.
    Apply(Vec<StateUpdate>),
    /// Hand an event to the application.
    Emit(Event),
}

/// Whether `id` is the lowest id that no call has.
pub open spec fn first_free<C>(calls: Map<u8, C>, id: u8) -> bool {
    &&& !calls.contains_key(id)
    &&& forall|lower: u8| lower < id ==> #[trigger] calls.contains_key(lower)
}

/// Whether every id is taken.
pub open spec fn all_taken<C>(calls: Map<u8, C>) -> bool {
    forall|id: u8| #[trigger] calls.contains_key(id)
}

impl<C> ActiveCalls<C> {
    /// No calls.
    pub fn new() -> (r: ActiveCalls<C>)
        ensures
            (r@ == Map::<u8, C>::empty()),
    {
        let r = ActiveCalls { slots: empty_slots() };
        assert(r@ =~= Map::<u8, C>::empty());
        r
    }

    /// The lowest id that no call has.
    pub fn free_id(&self) -> (r: Option<u8>)
        ensures
            r is None <==> all_taken(self@),
            r matches Some(id) ==> first_free(self@, id),
    {
        let mut i: usize = 0;
        while i < 256
            invariant
                i <= 256,
                forall|id: u8| id < i ==> #[trigger] self@.contains_key(id),
            decreases 256 - i,
        {
            if self.slots[i].is_none() {
                assert(!self@.contains_key(i as u8));
                return Some(i as u8);
            }
            assert(self@.contains_key(i as u8));
            i += 1;
        }
        None
    }

    /// Begins a call: it gets the lowest free id, or fails when there is none.
    pub fn begin(&self, internal: Vec<u8>, completion: C) -> (r: CallStart<C>)
        ensures
            match r {
                CallStart::Send { id, message, completion: c } => {
                    &&& first_free(self@, id)
                    &&& message == (ClientMessage::RPCRequest { id, internal })
                    &&& c == completion
                },
                CallStart::Fail { completion: c, error } => {
                    &&& all_taken(self@)
                    &&& c == completion
                    &&& error == RpcHandlerError::TooManyCallsInFlight
                },
            },
    {
        match self.free_id() {
            Some(id) => CallStart::Send {
                id,
                message: ClientMessage::RPCRequest { id, internal },
                completion,
            },
            None => CallStart::Fail { completion, error: RpcHandlerError::TooManyCallsInFlight },
        }
    }

    /// Ends the beginning of a call: one that is on its way waits under its
    /// id; any other fails, and its id stays free.
    pub fn settle(&mut self, id: u8, completion: C, outcome: CallOutcome) -> (r: Option<
        (C, RpcHandlerError),
    >)
        ensures
            match outcome {
                CallOutcome::Sent => r is None && final(self)@ == old(self)@.insert(id, completion),
                CallOutcome::Unencodable => r == Some((completion, RpcHandlerError::BadInputBytes))
                    && final(self)@ == old(self)@,
                CallOutcome::Unsent => r == Some((completion, RpcHandlerError::ClientNotConnected))
                    && final(self)@ == old(self)@,
            },
    {
        match outcome {
            CallOutcome::Sent => {
                self.slots[id as usize] = Some(completion);
                assert(self@ =~= old(self)@.insert(id, completion));
                None
            },
            CallOutcome::Unencodable => Some((completion, RpcHandlerError::BadInputBytes)),
            CallOutcome::Unsent => Some((completion, RpcHandlerError::ClientNotConnected)),
        }
    }

    /// Takes up a message from the server. A result goes to the call with its
    /// id, which waits no longer; a result that no call waits for is ignored,
    /// as is a message that did not decode.
    pub fn receive(&mut self, msg: Option<ServerMessage>) -> (r: ClientAction<C>)
        ensures
            match msg {
                Some(ServerMessage::RPCResponse { id, output }) => {
                    &&& final(self)@ == old(self)@.remove(id)
                    &&& if old(self)@.contains_key(id) {
                        r == (ClientAction::Complete { completion: old(self)@[id], output })
                    } else {
                        r is Ignore
                    }
                },
                Some(ServerMessage::StateChange(changes)) => {
                    &&& final(self)@ == old(self)@
                    &&& r == ClientAction::<C>::Apply(changes)
                },
                Some(ServerMessage::NewEvent { topic, payload }) => {
                    &&& final(self)@ == old(self)@
                    &&& r == ClientAction::<C>::Emit(Event { topic, payload })
                },
                None => final(self)@ == old(self)@ && r is Ignore,
            },
    {
        match msg {
            Some(ServerMessage::RPCResponse { id, output }) => {
                let waiting = self.slots[id as usize].take();
                assert(self@ =~= old(self)@.remove(id));
                match waiting {
                    Some(completion) => ClientAction::Complete { completion, output },
                    None => ClientAction::Ignore,
                }
            },
            Some(ServerMessage::StateChange(changes)) => ClientAction::Apply(changes),
            Some(ServerMessage::NewEvent { topic, payload }) => ClientAction::Emit(
                Event { topic, payload },
            ),
            None => ClientAction::Ignore,
        }
    }
}

/// The first free id is free, and every lower one is taken; and when some id is
/// free, there is a first free one, not above it.
pub proof fn first_free_is_the_lowest<C>(calls: Map<u8, C>, id: u8)
    ensures
        first_free(calls, id) ==> !calls.contains_key(id),
        first_free(calls, id) ==> forall|lower: u8|
            lower < id ==> #[trigger] calls.contains_key(lower),
        !calls.contains_key(id) ==> exists|f: u8| f <= id && #[trigger] first_free(calls, f),
    decreases id,
{
    if !calls.contains_key(id) {
        if exists|lower: u8| lower < id && !#[trigger] calls.contains_key(lower) {
            let lower = choose|lower: u8| lower < id && !#[trigger] calls.contains_key(lower);
            first_free_is_the_lowest(calls, lower);
            let f = choose|f: u8| f <= lower && #[trigger] first_free(calls, f);
            assert(f <= id && first_free(calls, f));
        } else {
            assert(first_free(calls, id));
        }
    }
}

/// The level that an answer names is the digit with which a usable header ends,
/// and the client's own when there is no header or no usable one.
pub proof fn named_level_is_what_is_named(value: Seq<u8>, own: u32)
    ensures
        named_level(None, own) == own,
        named_level(Some(value), own) == (if value.len() > 0 && 48 <= value[value.len() - 1] <= 57 && (forall|i: int|
            0 <= i < value.len() - 1 ==> #[trigger] value[i] == 48 || i == 0 && value[i] == 43) {
            (value[value.len() - 1] - 48) as u32
        } else {
            own
        }),
{
    levels_are_single_digits(value);
}

} // verus!
