//! A binary WebSocket RPC subprotocol with server-sent events.
//!
//! Clients call functions on a server, up to 256 of them at a time on one
//! connection. The server keeps a state for each connection, whose changes the
//! client receives, and pushes events to the connections that are subscribed to
//! their topics. This crate decides what both ends do; moving bytes over the
//! network is left to its users.
pub mod call;
pub mod client;
pub mod compress;
pub mod connection;
pub mod counter;
pub mod event;
pub mod expand;
pub mod handshake;
pub mod maps;
pub mod names;
pub mod protocol;
pub mod server;
pub mod state;
pub mod stats;
pub mod switch;
pub mod text;
pub mod topic;
pub mod version;
pub mod wire;

pub use call::{deserialize, handle, Links, ServiceClient};
pub use client::{
    ActiveCalls, CallOutcome, CallStart, CertificateCheck, Client, ClientAction, ClientConfig,
    ClientState,
};
pub use connection::{Connection, ConnectionAction, ConnectionEvent};
pub use event::{
    Event, EventEmitter, HandlerSubscriptionManager, ProxiedSubscriptionNotification,
    SubscriptionID, SubscriptionNotification, TopicNotification,
};
pub use names::snake_to_pascal_case;
pub use server::{Identity, Server, ServerConfig};
pub use state::{ConnectionState, StateGuard};
pub use switch::EventSwitch;
pub use topic::Topic;
pub use version::HL_VERSION;
pub use wire::{ClientMessage, HandlerResult, RpcHandlerError, ServerMessage, StateUpdate};
