//! Host controller interface packets: commands, events and asynchronous
//! connection-oriented (ACL) data, and the reassembly of L2CAP units from ACL
//! fragments.

use std::collections::BTreeMap;
use vstd::prelude::*;

use crate::bytes::{
    append_bytes, copy_bytes, copy_range, le16, le16_at, push_le16, read_le16, same_optional_bytes,
    same_outcome,
};

verus! {

pub const COMMAND_PACKET_TYPE: u8 = 0x01;

pub const ACL_PACKET_TYPE: u8 = 0x02;

pub const EVENT_PACKET_TYPE: u8 = 0x04;

pub const ACL_HANDLE_MASK: u16 = 0x0FFF;

pub const ACL_BOUNDARY_MASK: u16 = 0x0003;

pub const ACL_BROADCAST_MASK: u16 = 0x0003;

pub const ACL_FIRST_NON_FLUSHABLE: u8 = 0;

pub const ACL_CONTINUATION: u8 = 1;

pub const ACL_FIRST_FLUSHABLE: u8 = 2;

#[derive(Clone, Copy, Debug, PartialEq, Eq)]
pub enum CodecError {
    EmptyPacket,
    UnsupportedPacketType(u8),
    Truncated { field: &'static str },
    TrailingBytes { expected: usize, actual: usize },
    ParameterTooLong { actual: usize, maximum: usize },
    InvalidConnectionHandle(u16),
    InvalidPacketBoundary(u8),
    InvalidBroadcastFlag(u8),
    InvalidL2capPdu,
    UnexpectedContinuation { connection_handle: u16 },
    ContinuationOverflow { expected: usize, actual: usize },
}

/// The contents of a command packet.
pub struct CommandPacketV {
    pub opcode: u16,
    pub parameters: Seq<u8>,
}

/// The contents of an event packet.
pub struct EventPacketV {
    pub event_code: u8,
    pub parameters: Seq<u8>,
}

/// The contents of an ACL data packet.
pub struct AclPacketV {
    pub connection_handle: u16,
    pub packet_boundary: u8,
    pub broadcast_flag: u8,
    pub data: Seq<u8>,
}

/// The contents of a packet of any of the three families.
pub enum PacketV {
    Command(CommandPacketV),
    Event(EventPacketV),
    Acl(AclPacketV),
}

/// The error for a packet of `actual` bytes whose header declares `expected`.
pub open spec fn length_fault(actual: int, expected: int) -> Option<CodecError> {
    if actual < expected {
        Some(CodecError::Truncated { field: "payload" })
    } else if actual > expected {
        Some(CodecError::TrailingBytes { expected: expected as usize, actual: actual as usize })
    } else {
        None
    }
}

/// The error for parameters that do not fit a one-byte length.
pub open spec fn parameter_fault(actual: int) -> Option<CodecError> {
    if actual <= 255 {
        None
    } else {
        Some(CodecError::ParameterTooLong { actual: actual as usize, maximum: 255 })
    }
}

/// The first byte of a packet is absent or not `expected`.
pub open spec fn type_fault(packet: Seq<u8>, expected: u8) -> Option<CodecError> {
    if packet.len() == 0 {
        Some(CodecError::EmptyPacket)
    } else if packet[0] != expected {
        Some(CodecError::UnsupportedPacketType(packet[0]))
    } else {
        None
    }
}

/// The 16-bit ACL header: handle, packet boundary and broadcast flag.
pub open spec fn acl_header(connection_handle: u16, packet_boundary: u8, broadcast_flag: u8) -> u16 {
    connection_handle | ((packet_boundary as u16) << 12) | ((broadcast_flag as u16) << 14)
}

impl CommandPacketV {
    pub open spec fn valid(self) -> bool {
        self.parameters.len() <= 255
    }

    pub open spec fn encode(self) -> Seq<u8> {
        seq![COMMAND_PACKET_TYPE] + le16(self.opcode) + seq![(self.parameters.len() % 256) as u8]
            + self.parameters
    }

    pub open spec fn decode(packet: Seq<u8>) -> Result<CommandPacketV, CodecError> {
        if type_fault(packet, COMMAND_PACKET_TYPE) is Some {
            Err(type_fault(packet, COMMAND_PACKET_TYPE)->0)
        } else if packet.len() < 4 {
            Err(CodecError::Truncated { field: "command" })
        } else if length_fault(packet.len() as int, 4 + packet[3]) is Some {
            Err(length_fault(packet.len() as int, 4 + packet[3])->0)
        } else {
            Ok(
                CommandPacketV {
                    opcode: le16_at(packet, 1),
                    parameters: packet.subrange(4, packet.len() as int),
                },
            )
        }
    }
}

impl EventPacketV {
    pub open spec fn valid(self) -> bool {
        self.parameters.len() <= 255
    }

    pub open spec fn encode(self) -> Seq<u8> {
        seq![EVENT_PACKET_TYPE, self.event_code, (self.parameters.len() % 256) as u8]
            + self.parameters
    }

    pub open spec fn decode(packet: Seq<u8>) -> Result<EventPacketV, CodecError> {
        if type_fault(packet, EVENT_PACKET_TYPE) is Some {
            Err(type_fault(packet, EVENT_PACKET_TYPE)->0)
        } else if packet.len() < 3 {
            Err(CodecError::Truncated { field: "event" })
        } else if length_fault(packet.len() as int, 3 + packet[2]) is Some {
            Err(length_fault(packet.len() as int, 3 + packet[2])->0)
        } else {
            Ok(
                EventPacketV {
                    event_code: packet[1],
                    parameters: packet.subrange(3, packet.len() as int),
                },
            )
        }
    }
}

impl AclPacketV {
    /// The error for field values that an ACL packet cannot carry.
    pub open spec fn fault(self) -> Option<CodecError> {
        if self.connection_handle > ACL_HANDLE_MASK {
            Some(CodecError::InvalidConnectionHandle(self.connection_handle))
        } else if self.packet_boundary > ACL_BOUNDARY_MASK {
            Some(CodecError::InvalidPacketBoundary(self.packet_boundary))
        } else if self.broadcast_flag > ACL_BROADCAST_MASK {
            Some(CodecError::InvalidBroadcastFlag(self.broadcast_flag))
        } else if self.data.len() > 65535 {
            Some(CodecError::ParameterTooLong { actual: self.data.len() as usize, maximum: 65535 })
        } else {
            None
        }
    }

    pub open spec fn valid(self) -> bool {
        self.fault() is None
    }

    pub open spec fn encode(self) -> Seq<u8> {
        seq![ACL_PACKET_TYPE] + le16(
            acl_header(self.connection_handle, self.packet_boundary, self.broadcast_flag),
        ) + le16((self.data.len() % 65536) as u16) + self.data
    }

    pub open spec fn decode(packet: Seq<u8>) -> Result<AclPacketV, CodecError> {
        if type_fault(packet, ACL_PACKET_TYPE) is Some {
            Err(type_fault(packet, ACL_PACKET_TYPE)->0)
        } else if packet.len() < 5 {
            Err(CodecError::Truncated { field: "ACL packet" })
        } else if length_fault(packet.len() as int, 5 + le16_at(packet, 3)) is Some {
            Err(length_fault(packet.len() as int, 5 + le16_at(packet, 3))->0)
        } else {
            let header = le16_at(packet, 1);
            Ok(
                AclPacketV {
                    connection_handle: header & ACL_HANDLE_MASK,
                    packet_boundary: ((header >> 12) & ACL_BOUNDARY_MASK) as u8,
                    broadcast_flag: ((header >> 14) & ACL_BROADCAST_MASK) as u8,
                    data: packet.subrange(5, packet.len() as int),
                },
            )
        }
    }
}

/// An ACL packet, or the error for field values that it cannot carry.
pub open spec fn checked_acl(packet: AclPacketV) -> Result<AclPacketV, CodecError> {
    match packet.fault() {
        Some(error) => Err(error),
        None => Ok(packet),
    }
}

impl PacketV {
    pub open spec fn valid(self) -> bool {
        match self {
            PacketV::Command(packet) => packet.valid(),
            PacketV::Event(packet) => packet.valid(),
            PacketV::Acl(packet) => packet.valid(),
        }
    }

    pub open spec fn encode(self) -> Seq<u8> {
        match self {
            PacketV::Command(packet) => packet.encode(),
            PacketV::Event(packet) => packet.encode(),
            PacketV::Acl(packet) => packet.encode(),
        }
    }

    pub open spec fn decode(packet: Seq<u8>) -> Result<PacketV, CodecError> {
        if packet.len() == 0 {
            Err(CodecError::EmptyPacket)
        } else if packet[0] == COMMAND_PACKET_TYPE {
            match CommandPacketV::decode(packet) {
                Ok(command) => Ok(PacketV::Command(command)),
                Err(error) => Err(error),
            }
        } else if packet[0] == EVENT_PACKET_TYPE {
            match EventPacketV::decode(packet) {
                Ok(event) => Ok(PacketV::Event(event)),
                Err(error) => Err(error),
            }
        } else if packet[0] == ACL_PACKET_TYPE {
            match AclPacketV::decode(packet) {
                Ok(acl) => Ok(PacketV::Acl(acl)),
                Err(error) => Err(error),
            }
        } else {
            Err(CodecError::UnsupportedPacketType(packet[0]))
        }
    }
}

#[derive(Clone, Debug, PartialEq, Eq)]
pub struct CommandPacket {
    pub opcode: u16,
    pub parameters: Vec<u8>,
}

impl View for CommandPacket {
    type V = CommandPacketV;

    open spec fn view(&self) -> CommandPacketV {
        CommandPacketV { opcode: self.opcode, parameters: self.parameters@ }
    }
}

impl CommandPacket {
    /// A command with the given parameters, which fit a one-byte length.
    pub fn new(opcode: u16, parameters: Vec<u8>) -> (result: Result<Self, CodecError>)
        ensures
            same_outcome(
                result,
                match parameter_fault(parameters@.len() as int) {
                    Some(error) => Err(error),
                    None => Ok(CommandPacketV { opcode, parameters: parameters@ }),
                },
            ),
    {
        match validate_u8_length(parameters.len()) {
            Err(error) => Err(error),
            Ok(()) => Ok(CommandPacket { opcode, parameters }),
        }
    }

    pub fn from_bytes(packet: &[u8]) -> (result: Result<Self, CodecError>)
        ensures
            same_outcome(result, CommandPacketV::decode(packet@)),
    {
        match require_packet_type(packet, COMMAND_PACKET_TYPE) {
            Err(error) => {
                return Err(error);
            },
            Ok(()) => {},
        }
        if packet.len() < 4 {
            return Err(CodecError::Truncated { field: "command" });
        }
        let parameter_length: usize = packet[3] as usize;
        match validate_exact_length(packet.len(), 4 + parameter_length) {
            Err(error) => {
                return Err(error);
            },
            Ok(()) => {},
        }
        CommandPacket::new(read_le16(packet, 1), copy_range(packet, 4, packet.len()))
    }

    pub fn to_bytes(&self) -> (packet: Vec<u8>)
        ensures
            packet@ == self@.encode(),
    {
        let mut packet: Vec<u8> = Vec::new();
        packet.push(COMMAND_PACKET_TYPE);
        push_le16(&mut packet, self.opcode);
        packet.push((self.parameters.len() % 256) as u8);
        append_bytes(&mut packet, &self.parameters);
        assert(packet@ =~= self@.encode());
        packet
    }
}

#[derive(Clone, Debug, PartialEq, Eq)]
pub struct EventPacket {
    pub event_code: u8,
    pub parameters: Vec<u8>,
}

impl View for EventPacket {
    type V = EventPacketV;

    open spec fn view(&self) -> EventPacketV {
        EventPacketV { event_code: self.event_code, parameters: self.parameters@ }
    }
}

impl EventPacket {
    /// An event with the given parameters, which fit a one-byte length.
    pub fn new(event_code: u8, parameters: Vec<u8>) -> (result: Result<Self, CodecError>)
        ensures
            same_outcome(
                result,
                match parameter_fault(parameters@.len() as int) {
                    Some(error) => Err(error),
                    None => Ok(EventPacketV { event_code, parameters: parameters@ }),
                },
            ),
    {
        match validate_u8_length(parameters.len()) {
            Err(error) => Err(error),
            Ok(()) => Ok(EventPacket { event_code, parameters }),
        }
    }

    pub fn from_bytes(packet: &[u8]) -> (result: Result<Self, CodecError>)
        ensures
            same_outcome(result, EventPacketV::decode(packet@)),
    {
        match require_packet_type(packet, EVENT_PACKET_TYPE) {
            Err(error) => {
                return Err(error);
            },
            Ok(()) => {},
        }
        if packet.len() < 3 {
            return Err(CodecError::Truncated { field: "event" });
        }
        let parameter_length: usize = packet[2] as usize;
        match validate_exact_length(packet.len(), 3 + parameter_length) {
            Err(error) => {
                return Err(error);
            },
            Ok(()) => {},
        }
        EventPacket::new(packet[1], copy_range(packet, 3, packet.len()))
    }

    pub fn to_bytes(&self) -> (packet: Vec<u8>)
        ensures
            packet@ == self@.encode(),
    {
        let mut packet: Vec<u8> = Vec::new();
        packet.push(EVENT_PACKET_TYPE);
        packet.push(self.event_code);
        packet.push((self.parameters.len() % 256) as u8);
        append_bytes(&mut packet, &self.parameters);
        assert(packet@ =~= self@.encode());
        packet
    }
}

#[derive(Clone, Debug, PartialEq, Eq)]
pub struct AclPacket {
    pub connection_handle: u16,
    pub packet_boundary: u8,
    pub broadcast_flag: u8,
    pub data: Vec<u8>,
}

impl View for AclPacket {
    type V = AclPacketV;

    open spec fn view(&self) -> AclPacketV {
        AclPacketV {
            connection_handle: self.connection_handle,
            packet_boundary: self.packet_boundary,
            broadcast_flag: self.broadcast_flag,
            data: self.data@,
        }
    }
}

impl AclPacket {
    /// An ACL packet, if every field fits its place in the header.
    pub fn new(connection_handle: u16, packet_boundary: u8, broadcast_flag: u8, data: Vec<u8>) -> (result:
        Result<Self, CodecError>)
        ensures
            same_outcome(
                result,
                checked_acl(
                    (AclPacketV { connection_handle, packet_boundary, broadcast_flag, data: data@ }),
                ),
            ),
    {
        if connection_handle > ACL_HANDLE_MASK {
            return Err(CodecError::InvalidConnectionHandle(connection_handle));
        }
        if (packet_boundary as u16) > ACL_BOUNDARY_MASK {
            return Err(CodecError::InvalidPacketBoundary(packet_boundary));
        }
        if (broadcast_flag as u16) > ACL_BROADCAST_MASK {
            return Err(CodecError::InvalidBroadcastFlag(broadcast_flag));
        }
        if data.len() > 65535 {
            return Err(CodecError::ParameterTooLong { actual: data.len(), maximum: 65535 });
        }
        Ok(AclPacket { connection_handle, packet_boundary, broadcast_flag, data })
    }

    pub fn from_bytes(packet: &[u8]) -> (result: Result<Self, CodecError>)
        ensures
            same_outcome(result, AclPacketV::decode(packet@)),
    {
        match require_packet_type(packet, ACL_PACKET_TYPE) {
            Err(error) => {
                return Err(error);
            },
            Ok(()) => {},
        }
        if packet.len() < 5 {
            return Err(CodecError::Truncated { field: "ACL packet" });
        }
        let header: u16 = read_le16(packet, 1);
        let data_length: usize = read_le16(packet, 3) as usize;
        match validate_exact_length(packet.len(), 5 + data_length) {
            Err(error) => {
                return Err(error);
            },
            Ok(()) => {},
        }
        proof {
            lemma_header_fields_fit(header);
        }
        AclPacket::new(
            header & ACL_HANDLE_MASK,
            ((header >> 12) & ACL_BOUNDARY_MASK) as u8,
            ((header >> 14) & ACL_BROADCAST_MASK) as u8,
            copy_range(packet, 5, packet.len()),
        )
    }

    pub fn to_bytes(&self) -> (packet: Vec<u8>)
        ensures
            packet@ == self@.encode(),
    {
        let boundary: u16 = self.packet_boundary as u16;
        let broadcast: u16 = self.broadcast_flag as u16;
        let header: u16 = self.connection_handle | (boundary << 12) | (broadcast << 14);
        let mut packet: Vec<u8> = Vec::new();
        packet.push(ACL_PACKET_TYPE);
        push_le16(&mut packet, header);
        push_le16(&mut packet, (self.data.len() % 65536) as u16);
        append_bytes(&mut packet, &self.data);
        assert(packet@ =~= self@.encode());
        packet
    }

    /// A packet with the same contents.
    pub fn copy(&self) -> (packet: AclPacket)
        ensures
            packet@ == self@,
    {
        AclPacket {
            connection_handle: self.connection_handle,
            packet_boundary: self.packet_boundary,
            broadcast_flag: self.broadcast_flag,
            data: copy_bytes(&self.data),
        }
    }
}

#[derive(Clone, Debug, PartialEq, Eq)]
pub enum Packet {
    Command(CommandPacket),
    Event(EventPacket),
    Acl(AclPacket),
}

impl View for Packet {
    type V = PacketV;

    open spec fn view(&self) -> PacketV {
        match self {
            Packet::Command(packet) => PacketV::Command(packet@),
            Packet::Event(packet) => PacketV::Event(packet@),
            Packet::Acl(packet) => PacketV::Acl(packet@),
        }
    }
}

impl Packet {
    /// Reads one packet, which must fill `packet` exactly.
    pub fn from_bytes(packet: &[u8]) -> (result: Result<Self, CodecError>)
        ensures
            same_outcome(result, PacketV::decode(packet@)),
    {
        if packet.len() == 0 {
            return Err(CodecError::EmptyPacket);
        }
        let packet_type: u8 = packet[0];
        if packet_type == COMMAND_PACKET_TYPE {
            match CommandPacket::from_bytes(packet) {
                Ok(command) => Ok(Packet::Command(command)),
                Err(error) => Err(error),
            }
        } else if packet_type == EVENT_PACKET_TYPE {
            match EventPacket::from_bytes(packet) {
                Ok(event) => Ok(Packet::Event(event)),
                Err(error) => Err(error),
            }
        } else if packet_type == ACL_PACKET_TYPE {
            match AclPacket::from_bytes(packet) {
                Ok(acl) => Ok(Packet::Acl(acl)),
                Err(error) => Err(error),
            }
        } else {
            Err(CodecError::UnsupportedPacketType(packet_type))
        }
    }

    pub fn to_bytes(&self) -> (packet: Vec<u8>)
        ensures
            packet@ == self@.encode(),
    {
        match self {
            Packet::Command(packet) => packet.to_bytes(),
            Packet::Event(packet) => packet.to_bytes(),
            Packet::Acl(packet) => packet.to_bytes(),
        }
    }
}

fn require_packet_type(packet: &[u8], expected: u8) -> (result: Result<(), CodecError>)
    ensures
        result == (match type_fault(packet@, expected) {
            Some(error) => Err::<(), CodecError>(error),
            None => Ok(()),
        }),
{
    if packet.len() == 0 {
        Err(CodecError::EmptyPacket)
    } else if packet[0] != expected {
        Err(CodecError::UnsupportedPacketType(packet[0]))
    } else {
        Ok(())
    }
}

fn validate_u8_length(actual: usize) -> (result: Result<(), CodecError>)
    ensures
        result == (match parameter_fault(actual as int) {
            Some(error) => Err::<(), CodecError>(error),
            None => Ok(()),
        }),
{
    if actual <= 255 {
        Ok(())
    } else {
        Err(CodecError::ParameterTooLong { actual, maximum: 255 })
    }
}

fn validate_exact_length(actual: usize, expected: usize) -> (result: Result<(), CodecError>)
    ensures
        result == (match length_fault(actual as int, expected as int) {
            Some(error) => Err::<(), CodecError>(error),
            None => Ok(()),
        }),
{
    if actual < expected {
        Err(CodecError::Truncated { field: "payload" })
    } else if actual > expected {
        Err(CodecError::TrailingBytes { expected, actual })
    } else {
        Ok(())
    }
}

/// The three fields of any ACL header are in range, and together they are the header.
proof fn lemma_header_fields_fit(header: u16)
    ensures
        header & 0x0FFF <= 0x0FFF,
        (header >> 12) & 3 <= 3,
        (header >> 14) & 3 <= 3,
        (header & 0x0FFF) | (((header >> 12) & 3) << 12) | (((header >> 14) & 3) << 14) == header,
{
    assert(header & 0x0FFF <= 0x0FFF && (header >> 12) & 3 <= 3 && (header >> 14) & 3 <= 3 && (
    header & 0x0FFF) | (((header >> 12) & 3) << 12) | (((header >> 14) & 3) << 14) == header)
        by (bit_vector);
}

/// A header built from fields in range gives each field back.
proof fn lemma_header_reads_back(connection_handle: u16, packet_boundary: u16, broadcast_flag: u16)
    requires
        connection_handle <= 0x0FFF,
        packet_boundary <= 3,
        broadcast_flag <= 3,
    ensures
        ({
            let header = connection_handle | (packet_boundary << 12) | (broadcast_flag << 14);
            &&& header & 0x0FFF == connection_handle
            &&& (header >> 12) & 3 == packet_boundary
            &&& (header >> 14) & 3 == broadcast_flag
        }),
{
    let header = connection_handle | (packet_boundary << 12) | (broadcast_flag << 14);
    assert(header & 0x0FFF == connection_handle && (header >> 12) & 3 == packet_boundary && (header
        >> 14) & 3 == broadcast_flag) by (bit_vector)
        requires
            connection_handle <= 0x0FFF,
            packet_boundary <= 3,
            broadcast_flag <= 3,
            header == connection_handle | (packet_boundary << 12) | (broadcast_flag << 14),
    ;
}

/// Every valid packet is read back from its own bytes.
pub proof fn packet_reads_back(packet: PacketV)
    requires
        packet.valid(),
    ensures
        PacketV::decode(packet.encode()) == Ok::<PacketV, CodecError>(packet),
{
    let bytes = packet.encode();
    match packet {
        PacketV::Command(command) => {
            assert(bytes.subrange(4, bytes.len() as int) =~= command.parameters);
        },
        PacketV::Event(event) => {
            assert(bytes.subrange(3, bytes.len() as int) =~= event.parameters);
        },
        PacketV::Acl(acl) => {
            lemma_header_reads_back(
                acl.connection_handle,
                acl.packet_boundary as u16,
                acl.broadcast_flag as u16,
            );
            assert(bytes.subrange(5, bytes.len() as int) =~= acl.data);
        },
    }
}

/// Bytes that are accepted as a packet are exactly the bytes of that packet,
/// and the packet is valid.
pub proof fn packet_writes_back(bytes: Seq<u8>)
    requires
        PacketV::decode(bytes) is Ok,
    ensures
        PacketV::decode(bytes)->Ok_0.valid(),
        PacketV::decode(bytes)->Ok_0.encode() == bytes,
{
    match PacketV::decode(bytes)->Ok_0 {
        PacketV::Command(command) => {
            assert(command.encode() =~= bytes);
        },
        PacketV::Event(event) => {
            assert(event.encode() =~= bytes);
        },
        PacketV::Acl(acl) => {
            lemma_header_fields_fit(le16_at(bytes, 1));
            assert(acl.encode() =~= bytes);
        },
    }
}

/// The ACL packets that carry `data` in pieces of at most `size` bytes, the
/// first one with the given boundary and the others as continuations.
pub open spec fn acl_pieces(
    connection_handle: u16,
    packet_boundary: u8,
    broadcast_flag: u8,
    size: int,
    data: Seq<u8>,
) -> Seq<AclPacketV>
    decreases data.len(),
{
    if size <= 0 || data.len() <= size {
        seq![AclPacketV { connection_handle, packet_boundary, broadcast_flag, data }]
    } else {
        seq![
            AclPacketV { connection_handle, packet_boundary, broadcast_flag, data: data.take(size) },
        ] + acl_pieces(connection_handle, ACL_CONTINUATION, broadcast_flag, size, data.skip(size))
    }
}

/// Whether `pdu` is one L2CAP unit: its header declares the length it has.
pub open spec fn complete_l2cap_pdu(pdu: Seq<u8>) -> bool {
    pdu.len() >= 4 && le16_at(pdu, 0) + 4 == pdu.len()
}

/// The boundary flag of the first fragment.
pub open spec fn first_boundary(flushable: bool) -> u8 {
    if flushable {
        ACL_FIRST_FLUSHABLE
    } else {
        ACL_FIRST_NON_FLUSHABLE
    }
}

/// The fragments of one L2CAP unit, or the first error met while making them.
pub open spec fn l2cap_fragments(
    connection_handle: u16,
    broadcast_flag: u8,
    size: int,
    pdu: Seq<u8>,
    flushable: bool,
) -> Result<Seq<AclPacketV>, CodecError> {
    let first = AclPacketV {
        connection_handle,
        packet_boundary: first_boundary(flushable),
        broadcast_flag,
        data: pdu.take(if size < pdu.len() { size } else { pdu.len() as int }),
    };
    if size <= 0 || !complete_l2cap_pdu(pdu) {
        Err(CodecError::InvalidL2capPdu)
    } else if first.fault() is Some {
        Err(first.fault()->0)
    } else {
        Ok(
            acl_pieces(
                connection_handle,
                first_boundary(flushable),
                broadcast_flag,
                size,
                pdu,
            ),
        )
    }
}

/// The contents of a list of ACL packets.
pub open spec fn acl_views(packets: Seq<AclPacket>) -> Seq<AclPacketV> {
    packets.map_values(|packet: AclPacket| packet@)
}

/// Splits one L2CAP unit into ACL packets of at most `acl_payload_size` bytes.
#[verifier::spinoff_prover]
pub fn fragment_l2cap_pdu(
    connection_handle: u16,
    broadcast_flag: u8,
    acl_payload_size: usize,
    pdu: &[u8],
    flushable: bool,
) -> (result: Result<Vec<AclPacket>, CodecError>)
    ensures
        match (
            result,
            l2cap_fragments(connection_handle, broadcast_flag, acl_payload_size as int, pdu@, flushable),
        ) {
            (Ok(packets), Ok(expected)) => acl_views(packets@) == expected,
            (Err(error), Err(expected)) => error == expected,
            _ => false,
        },
{
    if acl_payload_size == 0 || pdu.len() < 4 {
        return Err(CodecError::InvalidL2capPdu);
    }
    let payload_length: usize = read_le16(pdu, 0) as usize;
    if payload_length + 4 != pdu.len() {
        return Err(CodecError::InvalidL2capPdu);
    }
    let mut packets: Vec<AclPacket> = Vec::new();
    let mut start: usize = 0;
    let mut boundary: u8 = if flushable {
        ACL_FIRST_FLUSHABLE
    } else {
        ACL_FIRST_NON_FLUSHABLE
    };
    let ghost whole = acl_pieces(
        connection_handle,
        boundary,
        broadcast_flag,
        acl_payload_size as int,
        pdu@,
    );
    assert(pdu@.skip(0) =~= pdu@);
    assert(acl_views(packets@) + whole =~= whole);
    while start < pdu.len()
        invariant
            acl_payload_size > 0,
            complete_l2cap_pdu(pdu@),
            start <= pdu@.len(),
            boundary <= 2,
            start == 0 ==> packets@.len() == 0 && boundary == first_boundary(flushable),
            start > 0 ==> boundary == ACL_CONTINUATION && connection_handle <= ACL_HANDLE_MASK
                && broadcast_flag <= ACL_BROADCAST_MASK && (start < pdu@.len() ==> acl_payload_size
                <= 65535),
            start < pdu@.len() ==> whole == acl_views(packets@) + acl_pieces(
                connection_handle,
                boundary,
                broadcast_flag,
                acl_payload_size as int,
                pdu@.skip(start as int),
            ),
            start == pdu@.len() ==> whole == acl_views(packets@) && l2cap_fragments(
                connection_handle,
                broadcast_flag,
                acl_payload_size as int,
                pdu@,
                flushable,
            ) == Ok::<Seq<AclPacketV>, CodecError>(whole),
            whole == acl_pieces(
                connection_handle,
                first_boundary(flushable),
                broadcast_flag,
                acl_payload_size as int,
                pdu@,
            ),
        decreases pdu@.len() - start,
    {
        let end: usize = if pdu.len() - start <= acl_payload_size {
            pdu.len()
        } else {
            start + acl_payload_size
        };
        let data = copy_range(pdu, start, end);
        let ghost rest = pdu@.skip(start as int);
        let ghost piece = AclPacketV {
            connection_handle,
            packet_boundary: boundary,
            broadcast_flag,
            data: data@,
        };
        assert(data@ =~= rest.take(end - start));
        assert(end == pdu@.len() ==> rest =~= data@);
        assert(pdu@.skip(end as int) =~= rest.skip(end - start));
        assert(start == 0 ==> data@ =~= pdu@.take(end as int));
        match AclPacket::new(connection_handle, boundary, broadcast_flag, data) {
            Err(error) => {
                return Err(error);
            },
            Ok(packet) => {
                let ghost before = acl_views(packets@);
                packets.push(packet);
                assert(acl_views(packets@) =~= before.push(piece));
                assert(before.push(piece) =~= before + seq![piece]);
                if end < pdu.len() {
                    assert(whole =~= acl_views(packets@) + acl_pieces(
                        connection_handle,
                        ACL_CONTINUATION,
                        broadcast_flag,
                        acl_payload_size as int,
                        pdu@.skip(end as int),
                    ));
                }
            },
        }
        start = end;
        boundary = ACL_CONTINUATION;
    }
    Ok(packets)
}

/// An L2CAP unit of which the first bytes have come.
pub struct PendingAclV {
    pub expected: int,
    pub data: Seq<u8>,
}

pub struct PendingAcl {
    expected: usize,
    data: Vec<u8>,
}

impl View for PendingAcl {
    type V = PendingAclV;

    closed spec fn view(&self) -> PendingAclV {
        PendingAclV { expected: self.expected as int, data: self.data@ }
    }
}

/// Collects ACL fragments into L2CAP units, one at a time per connection.
pub struct AclAssembler {
    pending: BTreeMap<u16, PendingAcl>,
}

impl View for AclAssembler {
    type V = Map<u16, PendingAclV>;

    closed spec fn view(&self) -> Map<u16, PendingAclV> {
        self.pending@.map_values(|pending: PendingAcl| pending@)
    }
}

/// What feeding one packet does: the units still incomplete, and the result.
pub open spec fn fed(pending: Map<u16, PendingAclV>, packet: AclPacketV) -> (
    Map<u16, PendingAclV>,
    Result<Option<Seq<u8>>, CodecError>,
) {
    let handle = packet.connection_handle;
    if packet.packet_boundary == ACL_CONTINUATION {
        if !pending.contains_key(handle) {
            (pending, Err(CodecError::UnexpectedContinuation { connection_handle: handle }))
        } else {
            let expected = pending[handle].expected;
            let data = pending[handle].data + packet.data;
            if data.len() > expected {
                (
                    pending.remove(handle),
                    Err(
                        CodecError::ContinuationOverflow {
                            expected: expected as usize,
                            actual: data.len() as usize,
                        },
                    ),
                )
            } else if data.len() == expected {
                (pending.remove(handle), Ok(Some(data)))
            } else {
                (pending.insert(handle, PendingAclV { expected, data }), Ok(None))
            }
        }
    } else if packet.data.len() < 4 {
        (pending, Err(CodecError::InvalidL2capPdu))
    } else {
        let expected = le16_at(packet.data, 0) + 4;
        if packet.data.len() > expected {
            (
                pending,
                Err(
                    CodecError::ContinuationOverflow {
                        expected: expected as usize,
                        actual: packet.data.len() as usize,
                    },
                ),
            )
        } else if packet.data.len() == expected {
            (pending.remove(handle), Ok(Some(packet.data)))
        } else {
            (pending.insert(handle, PendingAclV { expected, data: packet.data }), Ok(None))
        }
    }
}

impl AclAssembler {
    /// An assembler with nothing pending.
    pub fn new() -> (assembler: Self)
        ensures
            assembler@ == Map::<u16, PendingAclV>::empty(),
    {
        let assembler = AclAssembler { pending: BTreeMap::new() };
        assert(assembler@ =~= Map::<u16, PendingAclV>::empty());
        assembler
    }

    /// Takes one fragment, and returns the L2CAP unit that it completes.
    pub fn feed(&mut self, packet: &AclPacket) -> (result: Result<Option<Vec<u8>>, CodecError>)
        ensures
            final(self)@ == fed(old(self)@, packet@).0,
            same_optional_bytes(result, fed(old(self)@, packet@).1),
    {
        broadcast use vstd::std_specs::btree::group_btree_axioms;

        let handle: u16 = packet.connection_handle;
        if packet.packet_boundary == ACL_CONTINUATION {
            match self.pending.remove(&handle) {
                None => {
                    assert(self@ =~= old(self)@);
                    Err(CodecError::UnexpectedContinuation { connection_handle: handle })
                },
                Some(pending) => {
                    let expected: usize = pending.expected;
                    let mut data = pending.data;
                    append_bytes(&mut data, &packet.data);
                    assert(self@ =~= old(self)@.remove(handle));
                    if data.len() > expected {
                        Err(CodecError::ContinuationOverflow { expected, actual: data.len() })
                    } else if data.len() == expected {
                        Ok(Some(data))
                    } else {
                        let pending = PendingAcl { expected, data };
                        let ghost model = pending@;
                        self.pending.insert(handle, pending);
                        assert(self@ =~= old(self)@.insert(handle, model));
                        Ok(None)
                    }
                },
            }
        } else {
            if packet.data.len() < 4 {
                return Err(CodecError::InvalidL2capPdu);
            }
            let expected: usize = read_le16(&packet.data, 0) as usize + 4;
            if packet.data.len() > expected {
                return Err(
                    CodecError::ContinuationOverflow { expected, actual: packet.data.len() },
                );
            }
            if packet.data.len() == expected {
                self.pending.remove(&handle);
                assert(self@ =~= old(self)@.remove(handle));
                return Ok(Some(copy_bytes(&packet.data)));
            }
            let pending = PendingAcl { expected, data: copy_bytes(&packet.data) };
            let ghost model = pending@;
            self.pending.insert(handle, pending);
            assert(self@ =~= old(self)@.insert(handle, model));
            Ok(None)
        }
    }

    /// Drops what has come of an incomplete unit on one connection.
    pub fn clear_handle(&mut self, connection_handle: u16)
        ensures
            final(self)@ == old(self)@.remove(connection_handle),
    {
        broadcast use vstd::std_specs::btree::group_btree_axioms;

        self.pending.remove(&connection_handle);
        assert(self@ =~= old(self)@.remove(connection_handle));
    }
}

impl Default for AclAssembler {
    fn default() -> (assembler: Self)
        ensures
            assembler@ == Map::<u16, PendingAclV>::empty(),
    {
        AclAssembler::new()
    }
}

/// The units still incomplete after a list of packets, and the result of each.
pub open spec fn fed_all(pending: Map<u16, PendingAclV>, packets: Seq<AclPacketV>) -> (
    Map<u16, PendingAclV>,
    Seq<Result<Option<Seq<u8>>, CodecError>>,
)
    decreases packets.len(),
{
    if packets.len() == 0 {
        (pending, seq![])
    } else {
        let (before, results) = fed_all(pending, packets.drop_last());
        let (after, result) = fed(before, packets.last());
        (after, results.push(result))
    }
}

proof fn lemma_fed_all_prepend(
    pending: Map<u16, PendingAclV>,
    first: AclPacketV,
    rest: Seq<AclPacketV>,
)
    ensures
        ({
            let (after, result) = fed(pending, first);
            let (end, results) = fed_all(after, rest);
            fed_all(pending, seq![first] + rest) == (end, seq![result] + results)
        }),
    decreases rest.len(),
{
    let (after, result) = fed(pending, first);
    let all = seq![first] + rest;
    if rest.len() == 0 {
        assert(all.drop_last() =~= Seq::<AclPacketV>::empty());
        assert(seq![result] + Seq::<Result<Option<Seq<u8>>, CodecError>>::empty() =~= Seq::<
            Result<Option<Seq<u8>>, CodecError>,
        >::empty().push(result));
        assert(fed_all(pending, all.drop_last()) == (pending, Seq::<Result<Option<Seq<u8>>, CodecError>>::empty()));
    } else {
        lemma_fed_all_prepend(pending, first, rest.drop_last());
        assert(all.drop_last() =~= seq![first] + rest.drop_last());
        let (end, results) = fed_all(after, rest);
        assert((seq![result] + fed_all(after, rest.drop_last()).1).push(results.last()) =~= seq![result] + results);
    }
}

proof fn lemma_pieces_complete(
    pending: Map<u16, PendingAclV>,
    handle: u16,
    broadcast_flag: u8,
    size: int,
    pdu: Seq<u8>,
    start: int,
)
    requires
        size > 0,
        0 < start < pdu.len(),
        pending.contains_key(handle),
        pending[handle] == (PendingAclV { expected: pdu.len() as int, data: pdu.take(start) }),
    ensures
        ({
            let pieces = acl_pieces(handle, ACL_CONTINUATION, broadcast_flag, size, pdu.skip(start));
            let (end, results) = fed_all(pending, pieces);
            &&& end == pending.remove(handle)
            &&& results.len() == pieces.len() > 0
            &&& results.last() == Ok::<Option<Seq<u8>>, CodecError>(Some(pdu))
            &&& forall|i: int|
                0 <= i < results.len() - 1 ==> results[i] == Ok::<Option<Seq<u8>>, CodecError>(None)
        }),
    decreases pdu.len() - start,
{
    let rest = pdu.skip(start);
    let pieces = acl_pieces(handle, ACL_CONTINUATION, broadcast_flag, size, rest);
    if rest.len() <= size {
        assert(pdu.take(start) + rest =~= pdu);
        let empty = Seq::<AclPacketV>::empty();
        assert(pieces =~= seq![pieces[0]] + empty);
        lemma_fed_all_prepend(pending, pieces[0], empty);
    } else {
        let next = start + size;
        let after = pending.insert(
            handle,
            PendingAclV { expected: pdu.len() as int, data: pdu.take(next) },
        );
        assert(pdu.take(start) + rest.take(size) =~= pdu.take(next));
        assert(rest.skip(size) =~= pdu.skip(next));
        lemma_pieces_complete(after, handle, broadcast_flag, size, pdu, next);
        assert(after.remove(handle) =~= pending.remove(handle));
        lemma_fed_all_prepend(
            pending,
            pieces[0],
            acl_pieces(handle, ACL_CONTINUATION, broadcast_flag, size, pdu.skip(next)),
        );
    }
}

/// Fragmentation loses nothing: the fragments of an L2CAP unit, fed in order,
/// complete exactly that unit, with the last fragment and no earlier one,
/// whatever was pending before. A fragment size below four splits the unit's
/// header, which no assembler accepts.
pub proof fn fragments_reassemble(
    pending: Map<u16, PendingAclV>,
    connection_handle: u16,
    broadcast_flag: u8,
    size: int,
    pdu: Seq<u8>,
    flushable: bool,
)
    requires
        size >= 4,
        l2cap_fragments(connection_handle, broadcast_flag, size, pdu, flushable) is Ok,
    ensures
        ({
            let packets = l2cap_fragments(connection_handle, broadcast_flag, size, pdu, flushable)->Ok_0;
            let (end, results) = fed_all(pending, packets);
            &&& end == pending.remove(connection_handle)
            &&& results.len() == packets.len() > 0
            &&& results.last() == Ok::<Option<Seq<u8>>, CodecError>(Some(pdu))
            &&& forall|i: int|
                0 <= i < results.len() - 1 ==> results[i] == Ok::<Option<Seq<u8>>, CodecError>(None)
        }),
{
    let boundary = first_boundary(flushable);
    let packets = acl_pieces(connection_handle, boundary, broadcast_flag, size, pdu);
    if pdu.len() <= size {
        let empty = Seq::<AclPacketV>::empty();
        assert(packets =~= seq![packets[0]] + empty);
        lemma_fed_all_prepend(pending, packets[0], empty);
    } else {
        let after = pending.insert(
            connection_handle,
            PendingAclV { expected: pdu.len() as int, data: pdu.take(size) },
        );
        assert(le16_at(pdu.take(size), 0) == le16_at(pdu, 0));
        lemma_pieces_complete(after, connection_handle, broadcast_flag, size, pdu, size);
        assert(after.remove(connection_handle) =~= pending.remove(connection_handle));
        lemma_fed_all_prepend(
            pending,
            packets[0],
            acl_pieces(connection_handle, ACL_CONTINUATION, broadcast_flag, size, pdu.skip(size)),
        );
    }
}

/// The packets of one connection, in order.
pub open spec fn on_handle(packets: Seq<AclPacketV>, connection_handle: u16) -> Seq<AclPacketV>
    decreases packets.len(),
{
    if packets.len() == 0 {
        seq![]
    } else {
        let before = on_handle(packets.drop_last(), connection_handle);
        if packets.last().connection_handle == connection_handle {
            before.push(packets.last())
        } else {
            before
        }
    }
}

/// The results that the packets of one connection gave, in order.
pub open spec fn results_on_handle(
    pending: Map<u16, PendingAclV>,
    packets: Seq<AclPacketV>,
    connection_handle: u16,
) -> Seq<Result<Option<Seq<u8>>, CodecError>>
    decreases packets.len(),
{
    if packets.len() == 0 {
        seq![]
    } else {
        let before = results_on_handle(pending, packets.drop_last(), connection_handle);
        if packets.last().connection_handle == connection_handle {
            before.push(fed(fed_all(pending, packets.drop_last()).0, packets.last()).1)
        } else {
            before
        }
    }
}

/// Whether the same is pending on a connection.
pub open spec fn same_on_handle(
    left: Map<u16, PendingAclV>,
    right: Map<u16, PendingAclV>,
    connection_handle: u16,
) -> bool {
    left.contains_key(connection_handle) == right.contains_key(connection_handle) && (
    left.contains_key(connection_handle) ==> left[connection_handle] == right[connection_handle])
}

/// Connections do not get in each other's way: whatever comes on other
/// connections in between, the packets of one connection give the results that
/// they give alone, and leave the same pending.
pub proof fn connections_are_independent(
    pending: Map<u16, PendingAclV>,
    packets: Seq<AclPacketV>,
    connection_handle: u16,
)
    ensures
        ({
            let (alone, results) = fed_all(pending, on_handle(packets, connection_handle));
            &&& results_on_handle(pending, packets, connection_handle) == results
            &&& same_on_handle(fed_all(pending, packets).0, alone, connection_handle)
        }),
    decreases packets.len(),
{
    if packets.len() > 0 {
        let before = packets.drop_last();
        connections_are_independent(pending, before, connection_handle);
        let own = on_handle(before, connection_handle);
        if packets.last().connection_handle == connection_handle {
            assert(own.push(packets.last()).drop_last() =~= own);
        }
    }
}

/// Fragmentation loses nothing on a shared link either: where the packets of a
/// connection are the fragments of an L2CAP unit, they complete exactly that
/// unit, with the last fragment and no earlier one, whatever packets of other
/// connections come in between.
pub proof fn interleaved_fragments_reassemble(
    pending: Map<u16, PendingAclV>,
    packets: Seq<AclPacketV>,
    connection_handle: u16,
    broadcast_flag: u8,
    size: int,
    pdu: Seq<u8>,
    flushable: bool,
)
    requires
        size >= 4,
        l2cap_fragments(connection_handle, broadcast_flag, size, pdu, flushable) == Ok::<
            Seq<AclPacketV>,
            CodecError,
        >(on_handle(packets, connection_handle)),
    ensures
        ({
            let results = results_on_handle(pending, packets, connection_handle);
            &&& results.len() == on_handle(packets, connection_handle).len() > 0
            &&& results.last() == Ok::<Option<Seq<u8>>, CodecError>(Some(pdu))
            &&& forall|i: int|
                0 <= i < results.len() - 1 ==> results[i] == Ok::<Option<Seq<u8>>, CodecError>(None)
            &&& !fed_all(pending, packets).0.contains_key(connection_handle)
        }),
{
    connections_are_independent(pending, packets, connection_handle);
    fragments_reassemble(pending, connection_handle, broadcast_flag, size, pdu, flushable);
}

/// After a connection's pending unit is dropped, a continuation on it is refused.
pub proof fn cleared_handle_refuses_continuation(
    pending: Map<u16, PendingAclV>,
    packet: AclPacketV,
)
    requires
        packet.packet_boundary == ACL_CONTINUATION,
    ensures
        fed(pending.remove(packet.connection_handle), packet).1 == Err::<
            Option<Seq<u8>>,
            CodecError,
        >(
            CodecError::UnexpectedContinuation { connection_handle: packet.connection_handle },
        ),
{
}

} // verus!
