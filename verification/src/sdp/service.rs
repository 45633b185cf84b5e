//! Both ends of service discovery.

pub use super::client::{
    AttributeId, ClientError, SdpClient, SdpTransport, TransportError,
};
pub use super::server::{SdpRequestHandler, SdpServer};
