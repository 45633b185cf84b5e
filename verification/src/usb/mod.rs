//! The USB side: which adapter is meant, which of its endpoints carry HCI, and
//! how packets and transfers fit together.

pub mod device;
pub mod laws;
pub mod selector;
pub mod transport;

use vstd::prelude::*;

use crate::hci::CodecError;

pub use device::{
    device_is_bluetooth_hci, select_layout, DeviceInfo, DeviceSearch, Direction, TransferType,
    UsbEndpointInfo, UsbInterfaceInfo, UsbLayout, Verdict,
};
pub use selector::UsbSelector;
pub use transport::{frame_packets, PollStep, UsbTransport, WritePlan};

verus! {

/// Why a transfer failed.
pub enum UsbTransferErrorV {
    Timeout,
    Disconnected,
    Access,
    Other(Seq<char>),
}

/// Why a transfer failed.
#[derive(Clone, Debug, PartialEq, Eq)]
pub enum UsbTransferError {
    Timeout,
    Disconnected,
    Access,
    Other(String),
}

impl View for UsbTransferError {
    type V = UsbTransferErrorV;

    open spec fn view(&self) -> UsbTransferErrorV {
        match *self {
            UsbTransferError::Timeout => UsbTransferErrorV::Timeout,
            UsbTransferError::Disconnected => UsbTransferErrorV::Disconnected,
            UsbTransferError::Access => UsbTransferErrorV::Access,
            UsbTransferError::Other(text) => UsbTransferErrorV::Other(text@),
        }
    }
}

/// What a USB error says.
pub enum UsbErrorV {
    InvalidSelector,
    DeviceNotFound,
    NoHciInterface,
    Transfer(UsbTransferErrorV),
    Codec(CodecError),
    PartialWrite { expected: usize, actual: usize },
    PacketTooLarge { declared: usize, maximum: usize },
    Closed,
    Rusb(Seq<char>),
    ReaderPanicked,
}

/// Why an adapter cannot be used. What the USB library says is told by a text.
#[derive(Clone, Debug, PartialEq, Eq)]
pub enum UsbError {
    InvalidSelector,
    DeviceNotFound,
    NoHciInterface,
    Transfer(UsbTransferError),
    Codec(CodecError),
    PartialWrite { expected: usize, actual: usize },
    PacketTooLarge { declared: usize, maximum: usize },
    Closed,
    Rusb(String),
    ReaderPanicked,
}

impl View for UsbError {
    type V = UsbErrorV;

    open spec fn view(&self) -> UsbErrorV {
        match *self {
            UsbError::InvalidSelector => UsbErrorV::InvalidSelector,
            UsbError::DeviceNotFound => UsbErrorV::DeviceNotFound,
            UsbError::NoHciInterface => UsbErrorV::NoHciInterface,
            UsbError::Transfer(error) => UsbErrorV::Transfer(error@),
            UsbError::Codec(error) => UsbErrorV::Codec(error),
            UsbError::PartialWrite { expected, actual } => UsbErrorV::PartialWrite {
                expected,
                actual,
            },
            UsbError::PacketTooLarge { declared, maximum } => UsbErrorV::PacketTooLarge {
                declared,
                maximum,
            },
            UsbError::Closed => UsbErrorV::Closed,
            UsbError::Rusb(text) => UsbErrorV::Rusb(text@),
            UsbError::ReaderPanicked => UsbErrorV::ReaderPanicked,
        }
    }
}

} // verus!
