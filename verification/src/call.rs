//! Calls as the code behind a service sees them: what decodes and what does
//! not, on the server and on the client.
use vstd::prelude::*;

use crate::client::{is_new_client, CertificateCheck, Client};
use crate::wire::{HandlerResult, RpcHandlerError};

verus! {

/// Hands on the encoded result of a handler's work.
pub fn handle(encoded: Vec<u8>) -> (r: HandlerResult<Vec<u8>>)
    ensures
        r == Ok::<Vec<u8>, RpcHandlerError>(encoded),
{
    Ok(encoded)
}

/// What a handler makes of bytes that may not have decoded.
pub fn deserialize<T>(decoded: Option<T>) -> (r: HandlerResult<T>)
    ensures
        r == (match decoded {
            Some(value) => Ok::<T, RpcHandlerError>(value),
            None => Err::<T, RpcHandlerError>(RpcHandlerError::ServerDecodeError),
        }),
{
    match decoded {
        Some(value) => Ok(value),
        None => Err(RpcHandlerError::ServerDecodeError),
    }
}

/// What a generated handler makes of a call that may not have decoded.
pub fn accept_call<T>(decoded: Option<T>) -> (r: HandlerResult<T>)
    ensures
        r == (match decoded {
            Some(call) => Ok::<T, RpcHandlerError>(call),
            None => Err::<T, RpcHandlerError>(RpcHandlerError::BadInputBytes),
        }),
{
    match decoded {
        Some(call) => Ok(call),
        None => Err(RpcHandlerError::BadInputBytes),
    }
}

/// What a generated client makes of the reply to a call: the bytes of a reply
/// may not have decoded.
pub fn accept_reply<T>(reply: HandlerResult<Option<T>>) -> (r: HandlerResult<T>)
    ensures
        r == (match reply {
            Ok(Some(value)) => Ok::<T, RpcHandlerError>(value),
            Ok(None) => Err::<T, RpcHandlerError>(RpcHandlerError::BadOutputBytes),
            Err(e) => Err::<T, RpcHandlerError>(e),
        }),
{
    match reply {
        Ok(Some(value)) => Ok(value),
        Ok(None) => Err(RpcHandlerError::BadOutputBytes),
        Err(e) => Err(e),
    }
}

/// What a connected client holds of its connection: where to ask for its end,
/// where calls go, where events come from, and the connection state.
pub struct Links<Shutdown, Rpc, Events, State> {
    pub shutdown: Shutdown,
    pub rpc_tx: Rpc,
    pub events_tx: Events,
    pub state: State,
}

/// The client that an application holds.
pub struct ServiceClient<Shutdown, Rpc, Events, State> {
    pub host: String,
    pub self_signed: bool,
    pub shutdown: Option<Shutdown>,
    pub rpc_tx: Option<Rpc>,
    pub events_tx: Option<Events>,
    pub state: Option<State>,
    pub compression: u32,
}

impl<Shutdown, Rpc, Events, State> ServiceClient<Shutdown, Rpc, Events, State> {
    /// Whether the client is as it is made: not connected.
    pub open spec fn is_fresh(&self, host: Seq<char>, self_signed: bool, compression: u32) -> bool {
        &&& self.host@ == host
        &&& self.self_signed == self_signed
        &&& self.compression == compression
        &&& self.shutdown is None
        &&& self.rpc_tx is None
        &&& self.events_tx is None
        &&& self.state is None
    }

    /// A client for a server with a self-signed certificate.
    pub fn new_self_signed(host: &str, compression: u32) -> (r: Self)
        ensures
            r.is_fresh(host@, true, compression),
            r.host@ == host@ && r.self_signed && r.compression == compression,
            r.shutdown is None && r.rpc_tx is None && r.events_tx is None && r.state is None,
    {
        ServiceClient {
            host: host.to_owned(),
            self_signed: true,
            shutdown: None,
            rpc_tx: None,
            events_tx: None,
            state: None,
            compression,
        }
    }

    /// A client for a server with a certificate that the system trusts.
    pub fn new(host: &str, compression: u32) -> (r: Self)
        ensures
            r.is_fresh(host@, false, compression),
            r.host@ == host@ && !r.self_signed && r.compression == compression,
            r.shutdown is None && r.rpc_tx is None && r.events_tx is None && r.state is None,
    {
        ServiceClient {
            host: host.to_owned(),
            self_signed: false,
            shutdown: None,
            rpc_tx: None,
            events_tx: None,
            state: None,
            compression,
        }
    }

    /// The client that is to make the connection.
    pub fn runtime_client<T: Default>(&self) -> (r: Client<T>)
        ensures
            is_new_client(
                r,
                if self.self_signed {
                    CertificateCheck::Unchecked
                } else {
                    CertificateCheck::NativeRoots
                },
                self.host@,
                self.compression,
            ),
            r.config.tls == (if self.self_signed {
                CertificateCheck::Unchecked
            } else {
                CertificateCheck::NativeRoots
            }),
            r.config.host@ == self.host@,
            r.config.compression == self.compression,
    {
        if self.self_signed {
            Client::new_self_signed(self.host.as_str(), self.compression)
        } else {
            Client::new(self.host.as_str(), self.compression)
        }
    }

    /// Takes up how an attempt to connect has ended.
    pub fn connect<E>(&mut self, attempt: Result<Links<Shutdown, Rpc, Events, State>, E>) -> (r:
        Result<(), E>)
        ensures
            final(self).host == old(self).host,
            final(self).self_signed == old(self).self_signed,
            final(self).compression == old(self).compression,
            match attempt {
                Ok(links) => {
                    &&& r is Ok
                    &&& final(self).shutdown == Some(links.shutdown)
                    &&& final(self).rpc_tx == Some(links.rpc_tx)
                    &&& final(self).events_tx == Some(links.events_tx)
                    &&& final(self).state == Some(links.state)
                },
                Err(e) => r == Err::<(), E>(e) && *final(self) == *old(self),
            },
    {
        match attempt {
            Ok(links) => {
                self.shutdown = Some(links.shutdown);
                self.rpc_tx = Some(links.rpc_tx);
                self.events_tx = Some(links.events_tx);
                self.state = Some(links.state);
                Ok(())
            },
            Err(e) => Err(e),
        }
    }

    /// The connection state.
    pub fn state(&self) -> (r: HandlerResult<&State>)
        ensures
            match self.state {
                Some(state) => r is Ok && *r->Ok_0 == state,
                None => r == Err::<&State, RpcHandlerError>(RpcHandlerError::ClientNotConnected),
            },
    {
        match &self.state {
            Some(state) => Ok(state),
            None => Err(RpcHandlerError::ClientNotConnected),
        }
    }

    /// Where events come from.
    pub fn subscribe(&self) -> (r: HandlerResult<&Events>)
        ensures
            match self.events_tx {
                Some(events) => r is Ok && *r->Ok_0 == events,
                None => r == Err::<&Events, RpcHandlerError>(RpcHandlerError::ClientNotConnected),
            },
    {
        match &self.events_tx {
            Some(events_tx) => Ok(events_tx),
            None => Err(RpcHandlerError::ClientNotConnected),
        }
    }

    /// Prepares a call that may not have encoded: where it goes, and its
    /// bytes.
    pub fn make_rpc_call(&self, encoded: Option<Vec<u8>>) -> (r: HandlerResult<(&Rpc, Vec<u8>)>)
        ensures
            match (self.rpc_tx, encoded) {
                (None, _) => r == Err::<(&Rpc, Vec<u8>), RpcHandlerError>(
                    RpcHandlerError::ClientNotConnected,
                ),
                (Some(_), None) => r == Err::<(&Rpc, Vec<u8>), RpcHandlerError>(
                    RpcHandlerError::BadInputBytes,
                ),
                (Some(rpc), Some(bytes)) => r is Ok && *(r->Ok_0).0 == rpc && (r->Ok_0).1 == bytes,
            },
    {
        match &self.rpc_tx {
            Some(rpc) => match encoded {
                Some(bytes) => Ok((rpc, bytes)),
                None => Err(RpcHandlerError::BadInputBytes),
            },
            None => Err(RpcHandlerError::ClientNotConnected),
        }
    }

    /// Ends the connection: where to ask for its end, unless that has been
    /// done already.
    pub fn disconnect(&mut self) -> (r: Option<Shutdown>)
        ensures
            r == old(self).shutdown,
            final(self).shutdown is None,
            final(self).host == old(self).host,
            final(self).self_signed == old(self).self_signed,
            final(self).compression == old(self).compression,
            final(self).rpc_tx == old(self).rpc_tx,
            final(self).events_tx == old(self).events_tx,
            final(self).state == old(self).state,
    {
        self.shutdown.take()
    }
}

} // verus!
