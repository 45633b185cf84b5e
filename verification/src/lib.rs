//! Bluetooth Classic HID backend: byte codecs, channel management, service
//! discovery, HID transactions and the session state machine, each stated by a
//! contract and proved.
//!
//! Nothing in this crate performs input or output. Every function takes what
//! was received and says what is to be sent; the surrounding program moves the
//! bytes.

pub mod acl_flow;
pub mod api;
pub mod bytes;
pub mod classic_host;
pub mod hci;
pub mod hid_laws;
pub mod hid_service;
pub mod hidp;
pub mod host_laws;
pub mod l2cap;
pub mod packet_laws;
pub mod sdp;
pub mod session;
pub mod text;
pub mod usb;
pub mod value_laws;
pub mod values;

use vstd::prelude::*;

pub use api::{
    ActivityNotifier, AdapterSelector, BondStore, BondStoreError, Capabilities, Channel,
    CommandFailure, ControllerVersion, Error, ErrorKind, ErrorSource, Event, HidSdpPolicy,
    HidServiceConfig, LocalIdentity, OpenOptions, PacketLengthError, SessionConfig,
    UsbAdapterMetadata,
};
pub use session::state::Session;
pub use values::{AddressKind, BluetoothAddress, BluetoothUuid, ClassicBond, ValueError};

verus! {

/// Revision identifier of the backend's protocol sources.
pub const EXTRACTION_SOURCE_REVISION: &'static str = "cb55e2d98dc7b7b0227c43772c9ae184034dd9a1";

} // verus!
