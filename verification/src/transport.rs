//! The ingress-transport plumbing: the pluggable transport interface,
//! the stream-socket transport marker, the factory from protocol tag to
//! transport, and the server that holds a configured transport.
//!
//! Listening itself is network I/O and lives with the application that
//! embeds this crate; here stand the data and the wiring that the
//! listeners are built from.

use vstd::prelude::*;
use vstd::string::*;

use crate::config::{ProtocolType, ServerConfig};
use crate::errors::TransportError;

verus! {

/// A transport that can accept inbound connections on an address and
/// hand each decoded line to a consumer.  Implementations do network
/// I/O, so no contract is imposed on them; the registry's guarantees
/// never depend on how a transport behaves.
pub trait TransportProtocol {
    /// Listens on `address`, feeding every non-empty inbound line to
    /// `consumer`, until the listener fails or is shut down.
    fn listen<F: Fn(String)>(&self, address: &str, consumer: F) -> Result<(), TransportError>;

    /// The protocol tag of the transport.
    fn protocol_name(&self) -> &str;
}

/// Marker for the stream-socket transport.  The accept/read loop that
/// drives it lives with the embedding application.
pub struct TcpTransport;

impl TcpTransport {
    /// Creates the stream-socket transport; the address is supplied
    /// again when listening starts.
    pub fn new(_address: String) -> (r: TcpTransport)
        ensures
            true,
    {
        TcpTransport
    }

    /// The protocol tag, always `"TCP"`.
    pub fn protocol_name(&self) -> (r: &'static str)
        ensures
            r@ == "TCP"@,
    {
        "TCP"
    }
}

/// Maps a protocol tag to a transport instance.
pub struct ProtocolFactory;

impl ProtocolFactory {
    /// Creates the transport for `protocol_type`; never fails, as every
    /// variant of the closed set has a transport.
    pub fn create(protocol_type: ProtocolType, address: &str) -> (r: Result<
        TcpTransport,
        TransportError,
    >)
        ensures
            r is Ok,
    {
        match protocol_type {
            ProtocolType::Tcp => Ok(TcpTransport::new(address.to_owned())),
        }
    }

    /// The protocol tag for `protocol_type`.
    pub fn protocol_name(protocol_type: ProtocolType) -> (r: &'static str)
        ensures
            r@ == "TCP"@,
    {
        protocol_type.as_str()
    }
}

/// A configured transport bound to the address it will listen on.
pub struct TransportServer {
    protocol: TcpTransport,
    address: String,
}

impl TransportServer {
    /// The address the server will listen on.
    pub closed spec fn address_spec(&self) -> Seq<char> {
        self.address@
    }

    /// Creates a transport server from a transport and an address.
    pub fn new(protocol: TcpTransport, address: String) -> (r: TransportServer)
        ensures
            r.address_spec() == address@,
    {
        TransportServer { protocol, address }
    }

    /// The address the server will listen on.
    pub fn address(&self) -> (r: &str)
        ensures
            r@ == self.address_spec(),
    {
        self.address.as_str()
    }

    /// The protocol tag of the held transport.
    pub fn protocol_name(&self) -> (r: &'static str)
        ensures
            r@ == "TCP"@,
    {
        self.protocol.protocol_name()
    }
}

/// The ingress server: a configuration plus, once initialized, the
/// transport server built from it.
pub struct Server {
    config: ServerConfig,
    transport_server: Option<TransportServer>,
}

impl Server {
    /// The current configuration.
    pub closed spec fn config_spec(&self) -> ServerConfig {
        self.config
    }

    /// Whether [`Self::initialize`] has built the transport server.
    pub closed spec fn is_initialized_spec(&self) -> bool {
        self.transport_server is Some
    }

    /// A server with the default configuration, not yet initialized.
    pub fn new() -> (r: Server)
        ensures
            !r.is_initialized_spec(),
            r.config_spec().protocol == ProtocolType::Tcp,
            r.config_spec().address@ == "0.0.0.0:49152"@,
    {
        Server { config: ServerConfig::new(), transport_server: None }
    }

    /// A server with a custom configuration, not yet initialized.
    pub fn with_config(config: ServerConfig) -> (r: Server)
        ensures
            !r.is_initialized_spec(),
            r.config_spec() == config,
    {
        Server { config, transport_server: None }
    }

    /// Builds the transport server for the configured protocol; never
    /// fails, as every protocol of the closed set has a transport.
    pub fn initialize(&mut self) -> (r: Result<(), TransportError>)
        ensures
            r is Ok,
            final(self).is_initialized_spec(),
            final(self).config_spec() == old(self).config_spec(),
    {
        let created = ProtocolFactory::create(self.config.protocol, self.config.address.as_str());
        match created {
            Ok(protocol) => {
                let ts = TransportServer::new(protocol, self.config.address.clone());
                self.transport_server = Some(ts);
                Ok(())
            },
            Err(e) => Err(e),
        }
    }

    /// The current configuration.
    pub fn config(&self) -> (r: &ServerConfig)
        ensures
            *r == self.config_spec(),
    {
        &self.config
    }

    /// Replaces the configuration; the server must be initialized
    /// again before it can start.
    pub fn set_config(&mut self, config: ServerConfig)
        ensures
            final(self).config_spec() == config,
            !final(self).is_initialized_spec(),
    {
        self.config = config;
        self.transport_server = None;
    }

    /// Whether the server has been initialized.
    pub fn is_initialized(&self) -> (r: bool)
        ensures
            r == self.is_initialized_spec(),
    {
        self.transport_server.is_some()
    }

    /// The transport server, once initialized: what a listener loop is
    /// started from.
    pub fn transport_server(&self) -> (r: Option<&TransportServer>)
        ensures
            r is Some <==> self.is_initialized_spec(),
    {
        self.transport_server.as_ref()
    }
}

impl Default for Server {
    /// A server with the default configuration, not yet initialized.
    fn default() -> (r: Self)
        ensures
            !r.is_initialized_spec(),
            r.config_spec().protocol == ProtocolType::Tcp,
    {
        Server::new()
    }
}

} // verus!
