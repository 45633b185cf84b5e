//! The address that the controller is to have.

use vstd::prelude::*;

use super::events::{length_error, require_len, EVENT_COMMAND_STATUS, EVENT_VENDOR};
use super::startup::{command_reply, reply_to};
use crate::api::{kind_only, Error, ErrorKind, ErrorV};
use crate::bytes::{copy_bytes, optional_bytes};
use crate::hci::{Packet, PacketV};
use crate::values::{AddressKind, BluetoothAddress};

verus! {

/// How an adapter came to the address that it was asked to have.
#[derive(Clone, Copy, Debug, PartialEq, Eq, Structural)]
pub enum AdapterIdentityPreparation {
    /// It had the address already.
    AlreadyActive,
    /// The address was written to it.
    Rewritten,
}

/// Why an adapter could not be given an address.
#[derive(Clone, Copy, Debug, PartialEq, Eq, Structural)]
pub enum IdentityPreparationErrorKind {
    UnsupportedController,
    FailedBeforeWrite,
    RecoveryRequired,
}

/// What it means that the controller has another address than it was asked to
/// have. After a write nobody knows what the adapter holds.
pub fn identity_mismatch_kind(preparation: Option<AdapterIdentityPreparation>) -> (kind: ErrorKind)
    ensures
        kind == if preparation == Some(AdapterIdentityPreparation::Rewritten) {
            ErrorKind::AdapterIdentityRecoveryRequired
        } else {
            ErrorKind::IdentityMismatch
        },
{
    match preparation {
        Some(AdapterIdentityPreparation::Rewritten) => ErrorKind::AdapterIdentityRecoveryRequired,
        _ => ErrorKind::IdentityMismatch,
    }
}

/// What a failed preparation is to the application.
pub fn map_identity_error(kind: IdentityPreparationErrorKind) -> (mapped: ErrorKind)
    ensures
        mapped == match kind {
            IdentityPreparationErrorKind::UnsupportedController => ErrorKind::UnsupportedController,
            IdentityPreparationErrorKind::FailedBeforeWrite => ErrorKind::OpenFailed,
            IdentityPreparationErrorKind::RecoveryRequired =>
            ErrorKind::AdapterIdentityRecoveryRequired,
        },
{
    match kind {
        IdentityPreparationErrorKind::UnsupportedController => ErrorKind::UnsupportedController,
        IdentityPreparationErrorKind::FailedBeforeWrite => ErrorKind::OpenFailed,
        IdentityPreparationErrorKind::RecoveryRequired => {
            ErrorKind::AdapterIdentityRecoveryRequired
        },
    }
}

fn reversed(bytes: &[u8]) -> (octets: [u8; 6])
    requires
        bytes@.len() == 6,
    ensures
        octets@ == bytes@.reverse(),
{
    let octets: [u8; 6] = [bytes[5], bytes[4], bytes[3], bytes[2], bytes[1], bytes[0]];
    assert(octets@ =~= bytes@.reverse());
    octets
}

/// The address that an adapter is to have, most significant byte first. Only a
/// public address can be written to an adapter.
pub fn target_display_order(target: BluetoothAddress) -> (result: Result<[u8; 6], Error>)
    ensures
        match result {
            Ok(octets) => target@.kind == AddressKind::Public && octets@
                == target@.bytes_le.reverse(),
            Err(error) => target@.kind != AddressKind::Public && error@ == kind_only(
                ErrorKind::InvalidConfiguration,
            ),
        },
{
    match target.kind() {
        AddressKind::Public => Ok(reversed(target.as_le_bytes())),
        _ => Err(Error::new(ErrorKind::InvalidConfiguration)),
    }
}

/// The address in a response of the controller, most significant byte first.
pub fn read_address(response: &[u8]) -> (result: Result<[u8; 6], Error>)
    ensures
        match result {
            Ok(octets) => response@.len() == 6 && octets@ == response@.reverse(),
            Err(error) => response@.len() != 6 && error@ == length_error(
                "local address",
                6,
                response@.len() as int,
            ),
        },
{
    match require_len(response, 6, "local address") {
        Err(error) => Err(error),
        Ok(()) => Ok(reversed(response)),
    }
}

/// What the controller answered to a vendor command, if a packet is that answer.
/// Whether a vendor event answers the command is for the vendor to say.
pub open spec fn vendor_reply_to(opcode: u16, packet: PacketV, matched: bool) -> Result<
    Option<Seq<u8>>,
    ErrorV,
> {
    match packet {
        PacketV::Event(event) => {
            let parameters = event.parameters;
            if event.event_code == EVENT_VENDOR && matched {
                Ok(Some(parameters))
            } else if event.event_code == EVENT_COMMAND_STATUS {
                reply_to(opcode, packet)
            } else {
                Ok(None)
            }
        },
        _ => Ok(None),
    }
}

/// Reads what the controller answered to a vendor command, if a packet is that
/// answer. A vendor event is, where it is `matched`.
pub fn vendor_reply(opcode: u16, packet: &Packet, matched: bool) -> (result: Result<
    Option<Vec<u8>>,
    Error,
>)
    ensures
        match (result, vendor_reply_to(opcode, packet@, matched)) {
            (Ok(reply), Ok(model)) => optional_bytes(reply) == model,
            (Err(error), Err(model)) => error@ == model,
            _ => false,
        },
{
    match packet {
        Packet::Event(event) => {
            if event.event_code == EVENT_VENDOR && matched {
                return Ok(Some(copy_bytes(&event.parameters)));
            }
            if event.event_code == EVENT_COMMAND_STATUS {
                return command_reply(opcode, packet);
            }
            Ok(None)
        },
        _ => Ok(None),
    }
}

} // verus!
