//! The outbound-delivery capability: the [`Client`] trait a producer
//! forwards through, the [`TcpClient`] endpoint description, and the
//! [`ClientFactory`] mapping a protocol tag to a concrete client.

use core::time::Duration;
use vstd::prelude::*;
use vstd::string::*;

use crate::errors::TransportError;

verus! {

/// What `core::time::Duration::from_secs` returns for a count of
/// seconds: a fixed value of its argument alone.
pub uninterp spec fn duration_of_secs(secs: u64) -> Duration;

/// Relies on `core::time::Duration::from_secs`: builds the duration
/// used as a connect/write timeout, a pure function of its argument.
#[verifier::external_body]
fn duration_from_secs(secs: u64) -> (r: Duration)
    ensures
        r == duration_of_secs(secs),
{
    Duration::from_secs(secs)
}

/// A capability that pushes one message to one downstream address.
/// Implementations decide what sending means; no contract is imposed on
/// them, so nothing proved here depends on how an implementation
/// behaves.
pub trait Client {
    /// Sends a single message to the client's address.
    fn send(&self, message: &str) -> Result<(), TransportError>;

    /// The wire-protocol tag of the client.
    fn protocol_name(&self) -> &str;

    /// The downstream address the client targets.
    fn address(&self) -> &str;
}

/// Description of a stream-socket endpoint: target address and the
/// timeout applied to connects and writes.  The network calls themselves
/// are made by the surrounding application; this type holds the data
/// they need.
pub struct TcpClient {
    address: String,
    timeout: Duration,
}

/// The default connect/write timeout, in seconds.
pub const DEFAULT_TIMEOUT_SECS: u64 = 5;

impl TcpClient {
    /// The target address.
    pub closed spec fn address_spec(&self) -> Seq<char> {
        self.address@
    }

    /// The connect/write timeout, as stored.
    pub closed spec fn timeout_spec(&self) -> Duration {
        self.timeout
    }

    /// Creates a client for `address` with the default timeout of
    /// [`DEFAULT_TIMEOUT_SECS`] seconds.
    pub fn new(address: String) -> (r: TcpClient)
        ensures
            r.address_spec() == address@,
            r.timeout_spec() == duration_of_secs(DEFAULT_TIMEOUT_SECS),
    {
        TcpClient { address, timeout: duration_from_secs(DEFAULT_TIMEOUT_SECS) }
    }

    /// Creates a client for `address` with the given timeout.
    pub fn with_timeout(address: String, timeout: Duration) -> (r: TcpClient)
        ensures
            r.address_spec() == address@,
            r.timeout_spec() == timeout,
    {
        TcpClient { address, timeout }
    }

    /// The wire-protocol tag, always `"TCP"`.
    pub fn protocol_name(&self) -> (r: &'static str)
        ensures
            r@ == "TCP"@,
    {
        "TCP"
    }

    /// The target address.
    pub fn address(&self) -> (r: &str)
        ensures
            r@ == self.address_spec(),
    {
        self.address.as_str()
    }

    /// The connect/write timeout.
    pub fn timeout(&self) -> (r: Duration)
        ensures
            r == self.timeout_spec(),
    {
        self.timeout
    }
}

/// The outbound wire form of a message: itself when it already ends in
/// a newline, otherwise with one appended.
pub open spec fn with_newline_spec(m: Seq<char>) -> Seq<char> {
    if m.len() > 0 && m[m.len() - 1] == '\n' {
        m
    } else {
        m + seq!['\n']
    }
}

/// Frames one outbound message: appends the terminating newline unless
/// the message already ends with one.
pub fn with_newline(message: &str) -> (r: String)
    ensures
        r@ == with_newline_spec(message@),
{
    let n = message.unicode_len();
    if n > 0 && message.get_char(n - 1) == '\n' {
        message.to_owned()
    } else {
        let mut out = message.to_owned();
        out.append("\n");
        proof {
            reveal_strlit("\n");
            assert(out@ =~= message@ + seq!['\n']);
        }
        out
    }
}

/// Maps a protocol tag to a concrete client value.  Adding a protocol
/// means adding a constructor here, not changing callers.
pub struct ClientFactory;

impl ClientFactory {
    /// Creates a stream-socket client with the default timeout.
    pub fn create_tcp_client(address: String) -> (r: TcpClient)
        ensures
            r.address_spec() == address@,
            r.timeout_spec() == duration_of_secs(DEFAULT_TIMEOUT_SECS),
    {
        TcpClient::new(address)
    }

    /// Creates a stream-socket client with a custom timeout.
    pub fn create_tcp_client_with_timeout(address: String, timeout: Duration) -> (r: TcpClient)
        ensures
            r.address_spec() == address@,
            r.timeout_spec() == timeout,
    {
        TcpClient::with_timeout(address, timeout)
    }
}

} // verus!
