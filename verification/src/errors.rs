use vstd::prelude::*;
use vstd::string::*;

verus! {

/// The description reported when an operation references an unknown
/// producer id.
pub open spec fn not_found_msg(id: Seq<char>) -> Seq<char> {
    "Producer not found: "@ + id
}

/// Builds the not-found error for producer id `id`.
pub(crate) fn make_not_found(id: &str) -> (e: TransportError)
    ensures
        e matches TransportError::NotFound(m) && m@ == not_found_msg(id@),
{
    let mut m = String::from_str("Producer not found: ");
    m.append(id);
    TransportError::NotFound(m)
}

/// Every failure this library reports, one variant per condition of the
/// error taxonomy: an unknown producer id, a malformed command or address,
/// a failed delivery to a subscriber, and a listener that could not bind.
/// Each variant carries a human-readable description.
#[derive(Debug)]
pub enum TransportError {
    /// An operation referenced a producer id that is not registered.
    NotFound(String),
    /// A malformed command, wrong argument count, malformed URI or
    /// unsupported protocol tag.
    InvalidInput(String),
    /// A subscriber send failed.
    Delivery(String),
    /// A listener could not bind its address.
    Bind(String),
    /// A structured envelope failed to decode.  The full decoder falls
    /// back to the simple text form instead of surfacing this.
    Decode(String),
}

impl TransportError {
    /// The description carried by any variant.
    pub open spec fn spec_message(&self) -> Seq<char> {
        match self {
            TransportError::NotFound(m) => m@,
            TransportError::InvalidInput(m) => m@,
            TransportError::Delivery(m) => m@,
            TransportError::Bind(m) => m@,
            TransportError::Decode(m) => m@,
        }
    }

    /// Returns the human-readable description of the error.
    pub fn message(&self) -> (r: String)
        ensures
            r@ == self.spec_message(),
    {
        match self {
            TransportError::NotFound(m) => m.clone(),
            TransportError::InvalidInput(m) => m.clone(),
            TransportError::Delivery(m) => m.clone(),
            TransportError::Bind(m) => m.clone(),
            TransportError::Decode(m) => m.clone(),
        }
    }
}

} // verus!
