//! Server configuration: the closed set of supported transport
//! protocols and the address a listener binds.

use vstd::prelude::*;
use vstd::string::*;

use crate::strutil::{ascii_eq_ignore_case, eq_ignore_case};

verus! {

/// The supported transport protocols, as a closed set: adding one means
/// adding a variant here and an arm to the factories, not changing
/// callers.
#[derive(Debug, Clone, Copy, PartialEq, Eq, Structural)]
pub enum ProtocolType {
    /// Stream-socket transport.
    Tcp,
}

impl Default for ProtocolType {
    /// The default protocol.
    fn default() -> (r: Self)
        ensures
            r == ProtocolType::Tcp,
    {
        ProtocolType::Tcp
    }
}

impl ProtocolType {
    /// Reads a protocol tag, ignoring ASCII letter case.
    pub fn from_str(s: &str) -> (r: Option<Self>)
        ensures
            r == if ascii_eq_ignore_case(s@, "TCP"@) {
                Some(ProtocolType::Tcp)
            } else {
                Option::<ProtocolType>::None
            },
    {
        if eq_ignore_case(s, "TCP") {
            Some(ProtocolType::Tcp)
        } else {
            None
        }
    }

    /// The protocol tag as wire text.
    pub fn as_str(&self) -> (r: &'static str)
        ensures
            r@ == "TCP"@,
    {
        match self {
            ProtocolType::Tcp => "TCP",
        }
    }
}

/// What a listener needs to start: the protocol to speak and the
/// address to bind.
#[derive(Debug, Clone)]
pub struct ServerConfig {
    /// Transport protocol type to use.
    pub protocol: ProtocolType,
    /// Server address to bind to.
    pub address: String,
}

impl Default for ServerConfig {
    /// Stream sockets on all interfaces, on a high port clear of
    /// well-known services.
    fn default() -> (r: Self)
        ensures
            r.protocol == ProtocolType::Tcp,
            r.address@ == "0.0.0.0:49152"@,
    {
        ServerConfig { protocol: ProtocolType::Tcp, address: String::from_str("0.0.0.0:49152") }
    }
}

impl ServerConfig {
    /// The default configuration.
    pub fn new() -> (r: Self)
        ensures
            r.protocol == ProtocolType::Tcp,
            r.address@ == "0.0.0.0:49152"@,
    {
        Self::default()
    }

    /// A configuration with a custom address and the default protocol.
    pub fn with_address(address: String) -> (r: Self)
        ensures
            r.protocol == ProtocolType::Tcp,
            r.address@ == address@,
    {
        ServerConfig { protocol: ProtocolType::Tcp, address }
    }

    /// A configuration with a custom protocol and address.
    pub fn with_protocol(protocol: ProtocolType, address: String) -> (r: Self)
        ensures
            r.protocol == protocol,
            r.address@ == address@,
    {
        ServerConfig { protocol, address }
    }

    /// Sets the protocol type.
    pub fn set_protocol(&mut self, protocol: ProtocolType)
        ensures
            final(self).protocol == protocol,
            final(self).address@ == old(self).address@,
    {
        self.protocol = protocol;
    }

    /// Sets the bind address.
    pub fn set_address(&mut self, address: String)
        ensures
            final(self).protocol == old(self).protocol,
            final(self).address@ == address@,
    {
        self.address = address;
    }
}

} // verus!
