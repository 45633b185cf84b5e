//! What the controller's events say.

use vstd::prelude::*;

use crate::api::{
    caused, ControllerVersion, Error, ErrorKind, ErrorSource, ErrorSourceV, ErrorV,
    PacketLengthError,
};
use crate::bytes::{le16_at, read_le16};
use crate::classic_host::ClassicEvent;
use crate::hci::{EventPacket, EventPacketV};
use crate::values::{
    address_is_of_its_bytes, address_of, AddressKind, BluetoothAddress,
};

verus! {

pub const EVENT_CONNECTION_COMPLETE: u8 = 0x03;

pub const EVENT_CONNECTION_REQUEST: u8 = 0x04;

pub const EVENT_DISCONNECTION_COMPLETE: u8 = 0x05;

pub const EVENT_AUTHENTICATION_COMPLETE: u8 = 0x06;

pub const EVENT_ENCRYPTION_CHANGE: u8 = 0x08;

pub const EVENT_COMMAND_COMPLETE: u8 = 0x0E;

pub const EVENT_COMMAND_STATUS: u8 = 0x0F;

pub const EVENT_NUMBER_OF_COMPLETED_PACKETS: u8 = 0x13;

pub const EVENT_LINK_KEY_REQUEST: u8 = 0x17;

pub const EVENT_LINK_KEY_NOTIFICATION: u8 = 0x18;

pub const EVENT_IO_CAPABILITY_REQUEST: u8 = 0x31;

pub const EVENT_USER_CONFIRMATION_REQUEST: u8 = 0x33;

pub const EVENT_VENDOR: u8 = 0xFF;

/// The error for a field that is not as long as it must be.
pub open spec fn length_error(field: &'static str, expected: int, actual: int) -> ErrorV {
    caused(
        ErrorKind::ProtocolViolation,
        ErrorSourceV::PacketLength(
            PacketLengthError { field, expected: expected as usize, actual: actual as usize },
        ),
    )
}

/// The peer that an event names from a byte on.
pub open spec fn peer_at(parameters: Seq<u8>, offset: int) -> BluetoothAddress {
    address_of(parameters.subrange(offset, offset + 6), AddressKind::Public)
}

/// The link key with these bytes.
pub open spec fn key_of(bytes: Seq<u8>) -> [u8; 16] {
    choose|key: [u8; 16]| key@ == bytes
}

/// The completed packets that an event reports, in four bytes for each
/// connection.
pub open spec fn completed_entries(entries: Seq<u8>, count: nat) -> Seq<ClassicEvent> {
    Seq::new(
        count,
        |i: int|
            ClassicEvent::NumberOfCompletedPackets {
                connection_handle: le16_at(entries, 4 * i),
                completed: le16_at(entries, 4 * i + 2),
            },
    )
}

pub open spec fn completed_packets(parameters: Seq<u8>) -> Result<Seq<ClassicEvent>, ErrorV> {
    if parameters.len() == 0 {
        Err(length_error("completed packets", 1, 0))
    } else if parameters.len() - 1 != 4 * parameters[0] {
        Err(length_error("completed packets", 4 * parameters[0], parameters.len() - 1))
    } else {
        Ok(completed_entries(parameters.skip(1), parameters[0] as nat))
    }
}

/// The length that the parameters of an event must have, and the event's name.
pub open spec fn event_shape(event_code: u8) -> Option<(int, &'static str)> {
    if event_code == EVENT_CONNECTION_REQUEST {
        Some((10, "connection request"))
    } else if event_code == EVENT_CONNECTION_COMPLETE {
        Some((11, "connection complete"))
    } else if event_code == EVENT_LINK_KEY_REQUEST {
        Some((6, "link key request"))
    } else if event_code == EVENT_LINK_KEY_NOTIFICATION {
        Some((23, "link key notification"))
    } else if event_code == EVENT_IO_CAPABILITY_REQUEST {
        Some((6, "IO capability request"))
    } else if event_code == EVENT_USER_CONFIRMATION_REQUEST {
        Some((10, "user confirmation request"))
    } else if event_code == EVENT_AUTHENTICATION_COMPLETE {
        Some((3, "authentication complete"))
    } else if event_code == EVENT_ENCRYPTION_CHANGE {
        Some((4, "encryption change"))
    } else if event_code == EVENT_DISCONNECTION_COMPLETE {
        Some((4, "disconnection complete"))
    } else {
        None
    }
}

/// What an event of the right length says about the link.
pub open spec fn shaped_events(event_code: u8, parameters: Seq<u8>) -> Seq<ClassicEvent> {
    if event_code == EVENT_CONNECTION_REQUEST {
        seq![ClassicEvent::ConnectionRequest { peer: peer_at(parameters, 0) }]
    } else if event_code == EVENT_CONNECTION_COMPLETE {
        seq![
            ClassicEvent::ConnectionComplete {
                status: parameters[0],
                connection_handle: le16_at(parameters, 1),
                peer: peer_at(parameters, 3),
            },
        ]
    } else if event_code == EVENT_LINK_KEY_REQUEST {
        seq![ClassicEvent::LinkKeyRequest { peer: peer_at(parameters, 0) }]
    } else if event_code == EVENT_LINK_KEY_NOTIFICATION {
        seq![
            ClassicEvent::LinkKeyNotification {
                peer: peer_at(parameters, 0),
                link_key: key_of(parameters.subrange(6, 22)),
                link_key_type: parameters[22],
            },
        ]
    } else if event_code == EVENT_IO_CAPABILITY_REQUEST {
        seq![ClassicEvent::IoCapabilityRequest { peer: peer_at(parameters, 0) }]
    } else if event_code == EVENT_USER_CONFIRMATION_REQUEST {
        seq![ClassicEvent::UserConfirmationRequest { peer: peer_at(parameters, 0) }]
    } else if event_code == EVENT_AUTHENTICATION_COMPLETE {
        seq![
            ClassicEvent::AuthenticationComplete {
                status: parameters[0],
                connection_handle: le16_at(parameters, 1),
            },
        ]
    } else if event_code == EVENT_ENCRYPTION_CHANGE {
        seq![
            ClassicEvent::EncryptionChange {
                status: parameters[0],
                connection_handle: le16_at(parameters, 1),
                enabled: parameters[3] != 0,
            },
        ]
    } else if event_code == EVENT_DISCONNECTION_COMPLETE && parameters[0] == 0 {
        seq![
            ClassicEvent::DisconnectionComplete {
                connection_handle: le16_at(parameters, 1),
                reason: parameters[3],
            },
        ]
    } else {
        seq![]
    }
}

/// What an event of the controller says about the link. Events that say nothing
/// about it are passed over.
pub open spec fn classic_events(event: EventPacketV) -> Result<Seq<ClassicEvent>, ErrorV> {
    if event.event_code == EVENT_NUMBER_OF_COMPLETED_PACKETS {
        completed_packets(event.parameters)
    } else {
        match event_shape(event.event_code) {
            None => Ok(seq![]),
            Some((expected, field)) => if event.parameters.len() == expected {
                Ok(shaped_events(event.event_code, event.parameters))
            } else {
                Err(length_error(field, expected, event.parameters.len() as int))
            },
        }
    }
}

/// A list of events and the one its model gives.
pub open spec fn events_agree(
    result: Result<Vec<ClassicEvent>, Error>,
    expected: Result<Seq<ClassicEvent>, ErrorV>,
) -> bool {
    match (result, expected) {
        (Ok(events), Ok(models)) => events@ == models,
        (Err(error), Err(model)) => error@ == model,
        _ => false,
    }
}

/// Refuses parameters that are not as long as they must be.
pub fn require_len(parameters: &[u8], expected: usize, field: &'static str) -> (result: Result<
    (),
    Error,
>)
    ensures
        match result {
            Ok(_) => parameters@.len() == expected,
            Err(error) => parameters@.len() != expected && error@ == length_error(
                field,
                expected as int,
                parameters@.len() as int,
            ),
        },
{
    if parameters.len() == expected {
        Ok(())
    } else {
        Err(packet_length_error(field, expected, parameters.len()))
    }
}

/// Refuses parameters that are shorter than they must be.
pub fn require_min_len(parameters: &[u8], minimum: usize, field: &'static str) -> (result: Result<
    (),
    Error,
>)
    ensures
        match result {
            Ok(_) => parameters@.len() >= minimum,
            Err(error) => parameters@.len() < minimum && error@ == length_error(
                field,
                minimum as int,
                parameters@.len() as int,
            ),
        },
{
    if parameters.len() >= minimum {
        Ok(())
    } else {
        Err(packet_length_error(field, minimum, parameters.len()))
    }
}

fn packet_length_error(field: &'static str, expected: usize, actual: usize) -> (error: Error)
    ensures
        error@ == length_error(field, expected as int, actual as int),
{
    Error::with_source(
        ErrorKind::ProtocolViolation,
        ErrorSource::PacketLength(PacketLengthError { field, expected, actual }),
    )
}

/// The peer that an event names from a byte on.
pub fn address_at(parameters: &[u8], offset: usize) -> (address: BluetoothAddress)
    requires
        offset + 6 <= parameters@.len(),
    ensures
        address == peer_at(parameters@, offset as int),
{
    let address = BluetoothAddress::from_le_bytes(
        [
            parameters[offset],
            parameters[offset + 1],
            parameters[offset + 2],
            parameters[offset + 3],
            parameters[offset + 4],
            parameters[offset + 5],
        ],
        AddressKind::Public,
    );
    proof {
        assert(address@.bytes_le =~= parameters@.subrange(offset as int, offset + 6));
        address_is_of_its_bytes(address);
    }
    address
}

fn link_key_at(parameters: &[u8], offset: usize) -> (key: [u8; 16])
    requires
        offset + 16 <= parameters@.len(),
    ensures
        key == key_of(parameters@.subrange(offset as int, offset + 16)),
{
    let mut key: [u8; 16] = [0; 16];
    let mut index: usize = 0;
    while index < 16
        invariant
            index <= 16,
            key@.len() == 16,
            offset + 16 <= parameters.len(),
            forall|i: int| 0 <= i < index ==> key@[i] == parameters@[offset + i],
        decreases 16 - index,
    {
        key[index] = parameters[offset + index];
        index = index + 1;
    }
    proof {
        assert(key@ =~= parameters@.subrange(offset as int, offset + 16));
        assert(key =~= key_of(parameters@.subrange(offset as int, offset + 16)));
    }
    key
}

/// The completed packets that an event reports.
pub fn completed_packet_events(parameters: &[u8]) -> (result: Result<Vec<ClassicEvent>, Error>)
    ensures
        events_agree(result, completed_packets(parameters@)),
{
    if parameters.len() == 0 {
        return Err(packet_length_error("completed packets", 1, 0));
    }
    let count: usize = parameters[0] as usize;
    if parameters.len() - 1 != count * 4 {
        return Err(
            packet_length_error("completed packets", count * 4, parameters.len() - 1),
        );
    }
    let ghost entries = parameters@.skip(1);
    let mut events: Vec<ClassicEvent> = Vec::new();
    let mut index: usize = 0;
    while index < count
        invariant
            index <= count <= 255,
            parameters@.len() == 1 + 4 * count,
            entries == parameters@.skip(1),
            events@ == completed_entries(entries, index as nat),
        decreases count - index,
    {
        let at: usize = 1 + 4 * index;
        events.push(
            ClassicEvent::NumberOfCompletedPackets {
                connection_handle: read_le16(parameters, at),
                completed: read_le16(parameters, at + 2),
            },
        );
        index = index + 1;
        assert(events@ =~= completed_entries(entries, index as nat));
    }
    Ok(events)
}

/// Reads what an event of the controller says about the link.
#[verifier::spinoff_prover]
pub fn decode_classic_event(event: &EventPacket) -> (result: Result<Vec<ClassicEvent>, Error>)
    ensures
        events_agree(result, classic_events(event@)),
{
    let code: u8 = event.event_code;
    let parameters = event.parameters.as_slice();
    if code == EVENT_NUMBER_OF_COMPLETED_PACKETS {
        return completed_packet_events(parameters);
    }
    let (expected, field) = if code == EVENT_CONNECTION_REQUEST {
        (10usize, "connection request")
    } else if code == EVENT_CONNECTION_COMPLETE {
        (11usize, "connection complete")
    } else if code == EVENT_LINK_KEY_REQUEST {
        (6usize, "link key request")
    } else if code == EVENT_LINK_KEY_NOTIFICATION {
        (23usize, "link key notification")
    } else if code == EVENT_IO_CAPABILITY_REQUEST {
        (6usize, "IO capability request")
    } else if code == EVENT_USER_CONFIRMATION_REQUEST {
        (10usize, "user confirmation request")
    } else if code == EVENT_AUTHENTICATION_COMPLETE {
        (3usize, "authentication complete")
    } else if code == EVENT_ENCRYPTION_CHANGE {
        (4usize, "encryption change")
    } else if code == EVENT_DISCONNECTION_COMPLETE {
        (4usize, "disconnection complete")
    } else {
        let events: Vec<ClassicEvent> = Vec::new();
        assert(events@ =~= seq![]);
        return Ok(events);
    };
    match require_len(parameters, expected, field) {
        Err(error) => {
            return Err(error);
        },
        Ok(()) => {},
    }
    let mut events: Vec<ClassicEvent> = Vec::new();
    if code == EVENT_CONNECTION_REQUEST {
        events.push(ClassicEvent::ConnectionRequest { peer: address_at(parameters, 0) });
    } else if code == EVENT_CONNECTION_COMPLETE {
        events.push(
            ClassicEvent::ConnectionComplete {
                status: parameters[0],
                connection_handle: read_le16(parameters, 1),
                peer: address_at(parameters, 3),
            },
        );
    } else if code == EVENT_LINK_KEY_REQUEST {
        events.push(ClassicEvent::LinkKeyRequest { peer: address_at(parameters, 0) });
    } else if code == EVENT_LINK_KEY_NOTIFICATION {
        events.push(
            ClassicEvent::LinkKeyNotification {
                peer: address_at(parameters, 0),
                link_key: link_key_at(parameters, 6),
                link_key_type: parameters[22],
            },
        );
    } else if code == EVENT_IO_CAPABILITY_REQUEST {
        events.push(ClassicEvent::IoCapabilityRequest { peer: address_at(parameters, 0) });
    } else if code == EVENT_USER_CONFIRMATION_REQUEST {
        events.push(ClassicEvent::UserConfirmationRequest { peer: address_at(parameters, 0) });
    } else if code == EVENT_AUTHENTICATION_COMPLETE {
        events.push(
            ClassicEvent::AuthenticationComplete {
                status: parameters[0],
                connection_handle: read_le16(parameters, 1),
            },
        );
    } else if code == EVENT_ENCRYPTION_CHANGE {
        events.push(
            ClassicEvent::EncryptionChange {
                status: parameters[0],
                connection_handle: read_le16(parameters, 1),
                enabled: parameters[3] != 0,
            },
        );
    } else if parameters[0] == 0 {
        events.push(
            ClassicEvent::DisconnectionComplete {
                connection_handle: read_le16(parameters, 1),
                reason: parameters[3],
            },
        );
    }
    assert(events@ =~= shaped_events(code, parameters@));
    Ok(events)
}

/// The controller version in a response.
pub open spec fn version_of(parameters: Seq<u8>) -> Result<ControllerVersion, ErrorV> {
    if parameters.len() != 8 {
        Err(length_error("local version", 8, parameters.len() as int))
    } else {
        Ok(
            ControllerVersion {
                hci_version: parameters[0],
                hci_subversion: le16_at(parameters, 1),
                lmp_version: parameters[3],
                company_identifier: le16_at(parameters, 4),
                lmp_subversion: le16_at(parameters, 6),
            },
        )
    }
}

/// Reads the controller version in a response.
pub fn parse_version(parameters: &[u8]) -> (result: Result<ControllerVersion, Error>)
    ensures
        crate::api::session_agrees(result, version_of(parameters@)),
{
    match require_len(parameters, 8, "local version") {
        Err(error) => Err(error),
        Ok(()) => Ok(
            ControllerVersion {
                hci_version: parameters[0],
                hci_subversion: read_le16(parameters, 1),
                lmp_version: parameters[3],
                company_identifier: read_le16(parameters, 4),
                lmp_subversion: read_le16(parameters, 6),
            },
        ),
    }
}

} // verus!
