//! Service discovery: data elements, protocol data units, and the client and
//! server that exchange them.

use vstd::prelude::*;

use crate::values::BluetoothUuid;

pub mod attribute;
pub mod client;
pub mod client_laws;
pub mod element;
pub mod element_laws;
pub mod error_code;
pub mod paging_laws;
pub mod pdu;
pub mod pdu_id;
pub mod server;
pub mod service;
pub mod service_laws;
pub mod wire_laws;

pub use pdu::{SdpPdu, SdpPduV};
pub use attribute::{ServiceAttribute, ServiceAttributeV};
pub use element::{DataElement, DataElementV};

verus! {

/// The L2CAP PSM that service discovery runs over.
pub const SDP_PSM: u16 = 0x0001;

/// The well-known Public Browse Root service class, the group under which a
/// device advertises browsable services.
pub fn public_browse_root() -> (uuid: BluetoothUuid)
    ensures
        uuid@ == crate::bytes::le16(0x1002),
{
    BluetoothUuid::from_u16(0x1002)
}

/// A data element or protocol data unit that service discovery refuses.
#[derive(Clone, Debug, PartialEq, Eq)]
pub enum Error {
    /// The bytes are malformed, truncated, or use an unsupported encoding.
    InvalidPacket(String),
    /// A value cannot be serialized under the requested size.
    InvalidArgument(String),
}

/// What a service discovery error says.
pub enum ErrorV {
    InvalidPacket(Seq<char>),
    InvalidArgument(Seq<char>),
}

impl View for Error {
    type V = ErrorV;

    open spec fn view(&self) -> ErrorV {
        match self {
            Error::InvalidPacket(message) => ErrorV::InvalidPacket(message@),
            Error::InvalidArgument(message) => ErrorV::InvalidArgument(message@),
        }
    }
}

impl ErrorV {
    /// The text shown for the error.
    pub open spec fn text(self) -> Seq<char> {
        match self {
            ErrorV::InvalidPacket(message) => "invalid packet: "@ + message,
            ErrorV::InvalidArgument(message) => "invalid argument: "@ + message,
        }
    }
}

impl Error {
    /// The error for malformed bytes, with the reason.
    pub fn packet(reason: &str) -> (error: Error)
        ensures
            error@ == ErrorV::InvalidPacket(reason@),
    {
        Error::InvalidPacket(reason.to_owned())
    }

    /// The text shown for the error.
    pub fn message(&self) -> (text: String)
        ensures
            text@ == self@.text(),
    {
        match self {
            Error::InvalidPacket(reason) => {
                let mut text = "invalid packet: ".to_owned();
                text.append(reason.as_str());
                text
            },
            Error::InvalidArgument(reason) => {
                let mut text = "invalid argument: ".to_owned();
                text.append(reason.as_str());
                text
            },
        }
    }
}

/// Whether an operation returned the expected value or the expected error.
pub open spec fn agrees<T: View>(actual: Result<T, Error>, expected: Result<T::V, ErrorV>) -> bool {
    match (actual, expected) {
        (Ok(value), Ok(model)) => value@ == model,
        (Err(error), Err(model)) => error@ == model,
        _ => false,
    }
}

/// The error for a field whose bytes are missing.
pub open spec fn truncated_fault(what: Seq<char>) -> ErrorV {
    ErrorV::InvalidPacket("truncated: expected more bytes for "@ + what)
}

/// The error for a field whose bytes are missing.
pub(crate) fn truncated(what: &str) -> (error: Error)
    ensures
        error@ == truncated_fault(what@),
{
    let mut reason = "truncated: expected more bytes for ".to_owned();
    reason.append(what);
    Error::InvalidPacket(reason)
}

/// How deeply data elements may be nested.
pub const MAX_NESTING: usize = 32;

} // verus!
