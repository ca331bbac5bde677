//! A minimal event-forwarding broker.
//!
//! Inbound lines are decoded into an [`message::EventMessage`] envelope and
//! routed through a [`pool::ProducerPool`]: a table of registered producers
//! together with a reverse index from event name to subscribed producer ids.
//! A line-oriented control protocol ([`registration`]) mutates the pool at
//! runtime.  The network listeners themselves live outside this crate; this
//! crate holds the registry, the routing rules, the message codec and the
//! control-protocol grammar, all verified.

pub mod client;
pub mod config;
pub mod errors;
pub mod message;
pub mod pool;
pub mod producer;
pub mod registration;
pub mod strutil;
pub mod subscriptions;
pub mod transport;

pub use client::{Client, ClientFactory, TcpClient};
pub use config::{ProtocolType, ServerConfig};
pub use errors::TransportError;
pub use message::EventMessage;
pub use pool::ProducerPool;
pub use producer::Producer;
pub use registration::process_registration_command;
pub use subscriptions::{EventSubscriptions, Observer};
pub use transport::{ProtocolFactory, Server, TcpTransport, TransportProtocol, TransportServer};
