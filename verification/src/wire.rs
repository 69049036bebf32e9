//! What the two ends of a connection send each other.
use vstd::prelude::*;

use crate::topic::Topic;

verus! {

/// Why a call did not come to a result.
#[derive(Clone, Copy, Debug, PartialEq, Eq, Structural)]
pub enum RpcHandlerError {
    /// The call could not be encoded, or the server could not decode it.
    BadInputBytes,
    /// The result of the call could not be decoded.
    BadOutputBytes,
    /// There is no connection to make the call on.
    ClientNotConnected,
    /// Every call id of the connection is taken.
    TooManyCallsInFlight,
    /// A handler could not decode the call that it was given.
    ServerDecodeError,
}

/// The result of a call.
pub type HandlerResult<T> = Result<T, RpcHandlerError>;

/// An update that keeps the client's copy of the connection state in step: the
/// new encoding of one field.
///
/// The view is the pair of the field's index and its encoding.
#[derive(Debug)]
pub struct StateUpdate {
    pub index: usize,
    pub data: Vec<u8>,
}

impl View for StateUpdate {
    type V = (usize, Seq<u8>);

    open spec fn view(&self) -> (usize, Seq<u8>) {
        (self.index, self.data@)
    }
}

/// The views of a list of updates.
pub open spec fn update_views(updates: Seq<StateUpdate>) -> Seq<(usize, Seq<u8>)> {
    updates.map_values(|u: StateUpdate| u@)
}

/// What a client sends.
#[derive(Debug)]
pub enum ClientMessage {
    /// A call. The response bears the same id.
    RPCRequest { id: u8, internal: Vec<u8> },
}

/// What a server sends.
pub enum ServerMessage {
    /// The result of the call with this id.
    RPCResponse { id: u8, output: Result<Vec<u8>, RpcHandlerError> },
    /// Changes of the connection state.
    StateChange(Vec<StateUpdate>),
    /// An event under a topic that the connection is subscribed to.
    NewEvent { topic: Topic, payload: Vec<u8> },
}

/// The view of a list of updates tells of each update, in its place, the field
/// and the encoding.
pub proof fn update_views_tell_all(updates: Seq<StateUpdate>)
    ensures
        update_views(updates).len() == updates.len(),
        forall|i: int|
            0 <= i < updates.len() ==> (#[trigger] update_views(updates)[i]).0 == updates[i].index
                && update_views(updates)[i].1 == updates[i].data@,
{
}

} // verus!
