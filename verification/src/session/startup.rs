//! The commands that make a controller ready, one after the other, and what its
//! responses tell.

use vstd::prelude::*;
use vstd::string::*;

use super::events::{
    length_error, parse_version, require_len, require_min_len, version_of,
    EVENT_COMMAND_COMPLETE, EVENT_COMMAND_STATUS,
};
use crate::api::{
    caused, kind_only, name_field, zero_padded, CommandFailure, ControllerVersion, Error,
    ErrorKind, ErrorSource, ErrorSourceV, ErrorV, SessionConfig,
};
use crate::bytes::{append_bytes, copy_range, le16, le16_at, push_le16, read_le16};
use crate::hci::{CommandPacket, CommandPacketV, Packet, PacketV};
use crate::values::{
    address_has_its_bytes, address_is_of_its_bytes, address_of, AddressKind, BluetoothAddress,
};

verus! {

pub const HCI_RESET: u16 = 0x0C03;

pub const HCI_SET_EVENT_MASK: u16 = 0x0C01;

pub const HCI_WRITE_LOCAL_NAME: u16 = 0x0C13;

pub const HCI_WRITE_SCAN_ENABLE: u16 = 0x0C1A;

pub const HCI_WRITE_CLASS_OF_DEVICE: u16 = 0x0C24;

pub const HCI_WRITE_EXTENDED_INQUIRY_RESPONSE: u16 = 0x0C52;

pub const HCI_WRITE_SIMPLE_PAIRING_MODE: u16 = 0x0C56;

pub const HCI_WRITE_DEFAULT_LINK_POLICY_SETTINGS: u16 = 0x080F;

pub const HCI_READ_LOCAL_VERSION_INFORMATION: u16 = 0x1001;

pub const HCI_READ_LOCAL_SUPPORTED_COMMANDS: u16 = 0x1002;

pub const HCI_READ_LOCAL_EXTENDED_FEATURES: u16 = 0x1004;

pub const HCI_READ_BUFFER_SIZE: u16 = 0x1005;

pub const HCI_READ_BD_ADDR: u16 = 0x1009;

pub const HCI_LE_SET_EVENT_MASK: u16 = 0x2001;

pub const DEFAULT_LINK_POLICY_SETTINGS: u16 = 0x0005;

/// The bit of the fifth feature byte that says Classic is not supported.
pub const BR_EDR_NOT_SUPPORTED_MASK: u8 = 0x20;

/// The last HCI version whose controllers get the legacy LE event mask.
pub const LAST_LEGACY_HCI_VERSION: u8 = 6;

pub open spec fn event_mask() -> Seq<u8> {
    seq![0xFFu8, 0x9Fu8, 0xFFu8, 0xBFu8, 0x07u8, 0xF8u8, 0xBFu8, 0x3Du8]
}

/// The LE events that a controller is to report. Controllers up to HCI version 6
/// refuse bits that they do not know.
pub open spec fn le_event_mask(hci_version: u8) -> Seq<u8> {
    if hci_version <= LAST_LEGACY_HCI_VERSION {
        seq![0x1Fu8, 0u8, 0u8, 0u8, 0u8, 0u8, 0u8, 0u8]
    } else {
        seq![0xFFu8, 0xFFu8, 0xF7u8, 0xFFu8, 0x0Fu8, 0xEDu8, 0x7Bu8, 0x00u8]
    }
}

/// What a session configuration says to the controller.
pub struct IdentityV {
    pub name: Seq<u8>,
    pub class: u32,
}

pub open spec fn identity_of(config: SessionConfig) -> IdentityV {
    IdentityV { name: config.name_bytes(), class: config.class() }
}

/// The parameters of the command that writes the inquiry response.
pub open spec fn inquiry_parameters(name: Seq<u8>) -> Seq<u8> {
    seq![0u8] + zero_padded(name_field(name), 240)
}

pub open spec fn class_bytes(class: u32) -> Seq<u8> {
    seq![(class % 256) as u8, (class / 256 % 256) as u8, (class / 65536 % 256) as u8]
}

/// The commands that give the controller its identity.
pub open spec fn identity_command(identity: IdentityV, index: int) -> CommandPacketV {
    if index == 0 {
        CommandPacketV {
            opcode: HCI_WRITE_LOCAL_NAME,
            parameters: zero_padded(identity.name, 248),
        }
    } else if index == 1 {
        CommandPacketV {
            opcode: HCI_WRITE_CLASS_OF_DEVICE,
            parameters: class_bytes(identity.class),
        }
    } else if index == 2 {
        CommandPacketV { opcode: HCI_WRITE_SIMPLE_PAIRING_MODE, parameters: seq![1u8] }
    } else if index == 3 {
        CommandPacketV {
            opcode: HCI_WRITE_EXTENDED_INQUIRY_RESPONSE,
            parameters: inquiry_parameters(identity.name),
        }
    } else if index == 4 {
        CommandPacketV {
            opcode: HCI_WRITE_DEFAULT_LINK_POLICY_SETTINGS,
            parameters: le16(DEFAULT_LINK_POLICY_SETTINGS),
        }
    } else {
        CommandPacketV { opcode: HCI_WRITE_SCAN_ENABLE, parameters: seq![0u8] }
    }
}

/// How many commands make a controller ready.
pub const STARTUP_COMMANDS: u8 = 14;

/// The command of a stage.
pub open spec fn startup_command(identity: IdentityV, stage: int, hci_version: u8) -> CommandPacketV {
    if stage == 0 {
        CommandPacketV { opcode: HCI_RESET, parameters: seq![] }
    } else if stage == 1 {
        CommandPacketV { opcode: HCI_READ_LOCAL_SUPPORTED_COMMANDS, parameters: seq![] }
    } else if stage == 2 {
        CommandPacketV { opcode: HCI_READ_LOCAL_VERSION_INFORMATION, parameters: seq![] }
    } else if stage == 3 {
        CommandPacketV { opcode: HCI_READ_LOCAL_EXTENDED_FEATURES, parameters: seq![0u8] }
    } else if stage == 4 {
        CommandPacketV { opcode: HCI_SET_EVENT_MASK, parameters: event_mask() }
    } else if stage == 5 {
        CommandPacketV { opcode: HCI_LE_SET_EVENT_MASK, parameters: le_event_mask(hci_version) }
    } else if stage == 6 {
        CommandPacketV { opcode: HCI_READ_BUFFER_SIZE, parameters: seq![] }
    } else if stage == 7 {
        CommandPacketV { opcode: HCI_READ_BD_ADDR, parameters: seq![] }
    } else {
        identity_command(identity, stage - 8)
    }
}

/// What the controller answered to a command, if a packet is that answer.
pub open spec fn reply_to(opcode: u16, packet: PacketV) -> Result<Option<Seq<u8>>, ErrorV> {
    match packet {
        PacketV::Event(event) => {
            let parameters = event.parameters;
            if event.event_code == EVENT_COMMAND_COMPLETE {
                if parameters.len() < 4 {
                    Err(length_error("command complete", 4, parameters.len() as int))
                } else if le16_at(parameters, 1) != opcode {
                    Ok(None)
                } else if parameters[3] != 0 {
                    Err(command_refused(opcode, parameters[3]))
                } else {
                    Ok(Some(parameters.skip(4)))
                }
            } else if event.event_code == EVENT_COMMAND_STATUS {
                if parameters.len() != 4 {
                    Err(length_error("command status", 4, parameters.len() as int))
                } else if le16_at(parameters, 2) == opcode && parameters[0] != 0 {
                    Err(command_refused(opcode, parameters[0]))
                } else {
                    Ok(None)
                }
            } else {
                Ok(None)
            }
        },
        _ => Ok(None),
    }
}

pub open spec fn command_refused(opcode: u16, status: u8) -> ErrorV {
    caused(ErrorKind::OpenFailed, ErrorSourceV::Command(CommandFailure { opcode, status }))
}

/// What is known of the controller.
#[derive(Clone, Copy, Debug, PartialEq, Eq)]
pub struct InitializedController {
    pub local_address: BluetoothAddress,
    pub version: ControllerVersion,
    pub acl_packet_length: u16,
    pub acl_packet_count: u16,
}

/// How far the controller has come.
pub struct StartupV {
    pub stage: u8,
    pub known: InitializedController,
}

impl StartupV {
    /// Nothing is known of the controller yet.
    pub open spec fn initial() -> StartupV {
        StartupV {
            stage: 0,
            known: InitializedController {
                local_address: address_of(
                    seq![0u8, 0u8, 0u8, 0u8, 0u8, 0u8],
                    AddressKind::Public,
                ),
                version: ControllerVersion {
                    hci_version: 0,
                    hci_subversion: 0,
                    lmp_version: 0,
                    company_identifier: 0,
                    lmp_subversion: 0,
                },
                acl_packet_length: 0,
                acl_packet_count: 0,
            },
        }
    }

    pub open spec fn next(self) -> StartupV {
        StartupV { stage: (self.stage + 1) as u8, ..self }
    }

    /// The controller answered the command of the present stage.
    pub open spec fn answered(self, reply: Seq<u8>) -> Result<StartupV, ErrorV> {
        let length = reply.len() as int;
        if self.stage == 1 {
            if length != 64 {
                Err(length_error("supported commands", 64, length))
            } else {
                Ok(self.next())
            }
        } else if self.stage == 2 {
            match version_of(reply) {
                Err(error) => Err(error),
                Ok(version) => Ok(
                    StartupV {
                        known: InitializedController { version, ..self.known },
                        ..self
                    }.next(),
                ),
            }
        } else if self.stage == 3 {
            if length != 10 {
                Err(length_error("extended features", 10, length))
            } else if reply[0] != 0 || reply[6] & BR_EDR_NOT_SUPPORTED_MASK != 0 {
                Err(kind_only(ErrorKind::UnsupportedController))
            } else {
                Ok(self.next())
            }
        } else if self.stage == 6 {
            if length != 7 {
                Err(length_error("buffer size", 7, length))
            } else if le16_at(reply, 0) == 0 || le16_at(reply, 3) == 0 {
                Err(kind_only(ErrorKind::UnsupportedController))
            } else {
                Ok(
                    StartupV {
                        known: InitializedController {
                            acl_packet_length: le16_at(reply, 0),
                            acl_packet_count: le16_at(reply, 3),
                            ..self.known
                        },
                        ..self
                    }.next(),
                )
            }
        } else if self.stage == 7 {
            if length != 6 {
                Err(length_error("local address", 6, length))
            } else if reply == seq![0u8, 0u8, 0u8, 0u8, 0u8, 0u8] {
                Err(kind_only(ErrorKind::InvalidControllerIdentity))
            } else {
                Ok(
                    StartupV {
                        known: InitializedController {
                            local_address: address_of(reply, AddressKind::Public),
                            ..self.known
                        },
                        ..self
                    }.next(),
                )
            }
        } else {
            Ok(self.next())
        }
    }

    /// The command of the present stage.
    pub open spec fn command(self, identity: IdentityV) -> CommandPacketV {
        startup_command(identity, self.stage as int, self.known.version.hci_version)
    }

    /// A packet came while the controller is being made ready.
    pub open spec fn packet_taken(self, identity: IdentityV, packet: PacketV) -> (
        StartupV,
        Result<ProgressV, ErrorV>,
    ) {
        if self.stage >= STARTUP_COMMANDS {
            (self, Ok(ProgressV::Ready(self.known)))
        } else {
            match reply_to(self.command(identity).opcode, packet) {
                Err(error) => (self, Err(error)),
                Ok(None) => (self, Ok(ProgressV::Waiting)),
                Ok(Some(reply)) => match self.answered(reply) {
                    Err(error) => (self, Err(error)),
                    Ok(next) => (
                        next,
                        Ok(
                            if next.stage == STARTUP_COMMANDS {
                                ProgressV::Ready(next.known)
                            } else {
                                ProgressV::Send(next.command(identity))
                            },
                        ),
                    ),
                },
            }
        }
    }
}

/// What is to be done next to make the controller ready.
pub enum ProgressV {
    Waiting,
    Send(CommandPacketV),
    Ready(InitializedController),
}

/// What is to be done next to make the controller ready: wait for another
/// packet, send a command, or nothing more.
#[derive(Clone, Debug, PartialEq, Eq)]
pub enum Progress {
    Waiting,
    Send(CommandPacket),
    Ready(InitializedController),
}

impl View for Progress {
    type V = ProgressV;

    open spec fn view(&self) -> ProgressV {
        match *self {
            Progress::Waiting => ProgressV::Waiting,
            Progress::Send(command) => ProgressV::Send(command@),
            Progress::Ready(controller) => ProgressV::Ready(controller),
        }
    }
}

/// A result and the one its model gives.
pub open spec fn progress_agrees(
    result: Result<Progress, Error>,
    expected: Result<ProgressV, ErrorV>,
) -> bool {
    match (result, expected) {
        (Ok(progress), Ok(model)) => progress@ == model,
        (Err(error), Err(model)) => error@ == model,
        _ => false,
    }
}

fn command_failure(opcode: u16, status: u8) -> (error: Error)
    ensures
        error@ == command_refused(opcode, status),
{
    Error::with_source(
        ErrorKind::OpenFailed,
        ErrorSource::Command(CommandFailure { opcode, status }),
    )
}

/// Reads what the controller answered to a command, if a packet is that answer.
pub fn command_reply(opcode: u16, packet: &Packet) -> (result: Result<Option<Vec<u8>>, Error>)
    ensures
        match (result, reply_to(opcode, packet@)) {
            (Ok(reply), Ok(model)) => crate::bytes::optional_bytes(reply) == model,
            (Err(error), Err(model)) => error@ == model,
            _ => false,
        },
{
    let event = match packet {
        Packet::Event(event) => event,
        _ => {
            return Ok(None);
        },
    };
    let parameters = event.parameters.as_slice();
    if event.event_code == EVENT_COMMAND_COMPLETE {
        match require_min_len(parameters, 4, "command complete") {
            Err(error) => {
                return Err(error);
            },
            Ok(()) => {},
        }
        if read_le16(parameters, 1) != opcode {
            return Ok(None);
        }
        if parameters[3] != 0 {
            return Err(command_failure(opcode, parameters[3]));
        }
        let reply = copy_range(parameters, 4, parameters.len());
        assert(reply@ =~= parameters@.skip(4));
        return Ok(Some(reply));
    }
    if event.event_code == EVENT_COMMAND_STATUS {
        match require_len(parameters, 4, "command status") {
            Err(error) => {
                return Err(error);
            },
            Ok(()) => {},
        }
        if read_le16(parameters, 2) == opcode && parameters[0] != 0 {
            return Err(command_failure(opcode, parameters[0]));
        }
    }
    Ok(None)
}

/// Bytes filled up with zeros.
fn padded(bytes: &[u8], length: usize) -> (field: Vec<u8>)
    requires
        bytes@.len() <= length,
    ensures
        field@ == zero_padded(bytes@, length as int),
{
    let mut field: Vec<u8> = Vec::new();
    append_bytes(&mut field, bytes);
    assert(field@ =~= bytes@);
    while field.len() < length
        invariant
            bytes@.len() <= field@.len() <= length,
            field@ == zero_padded(bytes@, field@.len() as int),
        decreases length - field@.len(),
    {
        field.push(0);
        assert(field@ =~= zero_padded(bytes@, field@.len() as int));
    }
    field
}

/// The parameters of the command that writes the inquiry response.
pub fn inquiry_response_parameters(config: &SessionConfig) -> (parameters: Vec<u8>)
    ensures
        parameters@ == inquiry_parameters(config.name_bytes()),
        parameters@.len() == 241,
{
    let mut parameters: Vec<u8> = Vec::new();
    parameters.push(0);
    append_bytes(&mut parameters, config.extended_inquiry_response());
    assert(parameters@ =~= inquiry_parameters(config.name_bytes()));
    parameters
}

/// How far a controller has come that is being made ready.
#[derive(Debug)]
pub struct Startup {
    stage: u8,
    known: InitializedController,
}

impl View for Startup {
    type V = StartupV;

    closed spec fn view(&self) -> StartupV {
        StartupV { stage: self.stage, known: self.known }
    }
}

impl Startup {
    /// Nothing is known of the controller yet.
    pub fn new() -> (startup: Self)
        ensures
            startup@ == StartupV::initial(),
    {
        let local_address = BluetoothAddress::from_le_bytes(
            [0, 0, 0, 0, 0, 0],
            AddressKind::Public,
        );
        proof {
            assert(local_address@.bytes_le =~= seq![0u8, 0u8, 0u8, 0u8, 0u8, 0u8]);
            address_is_of_its_bytes(local_address);
        }
        Startup {
            stage: 0,
            known: InitializedController {
                local_address,
                version: ControllerVersion {
                    hci_version: 0,
                    hci_subversion: 0,
                    lmp_version: 0,
                    company_identifier: 0,
                    lmp_subversion: 0,
                },
                acl_packet_length: 0,
                acl_packet_count: 0,
            },
        }
    }

    /// The command of the present stage.
    pub fn command(&self, config: &SessionConfig) -> (command: CommandPacket)
        ensures
            command@ == self@.command(identity_of(*config)),
            command@.valid(),
    {
        let mut parameters: Vec<u8> = Vec::new();
        let opcode: u16 = if self.stage == 0 {
            HCI_RESET
        } else if self.stage == 1 {
            HCI_READ_LOCAL_SUPPORTED_COMMANDS
        } else if self.stage == 2 {
            HCI_READ_LOCAL_VERSION_INFORMATION
        } else if self.stage == 3 {
            parameters.push(0);
            HCI_READ_LOCAL_EXTENDED_FEATURES
        } else if self.stage == 4 {
            append_bytes(
                &mut parameters,
                &[0xFFu8, 0x9Fu8, 0xFFu8, 0xBFu8, 0x07u8, 0xF8u8, 0xBFu8, 0x3Du8],
            );
            HCI_SET_EVENT_MASK
        } else if self.stage == 5 {
            if self.known.version.hci_version <= LAST_LEGACY_HCI_VERSION {
                append_bytes(&mut parameters, &[0x1Fu8, 0u8, 0u8, 0u8, 0u8, 0u8, 0u8, 0u8]);
            } else {
                append_bytes(
                    &mut parameters,
                    &[0xFFu8, 0xFFu8, 0xF7u8, 0xFFu8, 0x0Fu8, 0xEDu8, 0x7Bu8, 0x00u8],
                );
            }
            HCI_LE_SET_EVENT_MASK
        } else if self.stage == 6 {
            HCI_READ_BUFFER_SIZE
        } else if self.stage == 7 {
            HCI_READ_BD_ADDR
        } else if self.stage == 8 {
            parameters = padded(config.local_name().as_bytes(), 248);
            HCI_WRITE_LOCAL_NAME
        } else if self.stage == 9 {
            let class: u32 = config.class_of_device();
            parameters.push((class % 256) as u8);
            parameters.push((class / 256 % 256) as u8);
            parameters.push((class / 65536 % 256) as u8);
            HCI_WRITE_CLASS_OF_DEVICE
        } else if self.stage == 10 {
            parameters.push(1);
            HCI_WRITE_SIMPLE_PAIRING_MODE
        } else if self.stage == 11 {
            parameters = inquiry_response_parameters(config);
            HCI_WRITE_EXTENDED_INQUIRY_RESPONSE
        } else if self.stage == 12 {
            push_le16(&mut parameters, DEFAULT_LINK_POLICY_SETTINGS);
            HCI_WRITE_DEFAULT_LINK_POLICY_SETTINGS
        } else {
            parameters.push(0);
            HCI_WRITE_SCAN_ENABLE
        };
        assert(parameters@ =~= self@.command(identity_of(*config)).parameters);
        CommandPacket { opcode, parameters }
    }

    fn answer(&mut self, reply: &[u8]) -> (result: Result<(), Error>)
        requires
            old(self)@.stage < STARTUP_COMMANDS,
        ensures
            match (result, old(self)@.answered(reply@)) {
                (Ok(_), Ok(next)) => final(self)@ == next,
                (Err(error), Err(model)) => error@ == model && final(self)@ == old(self)@,
                _ => false,
            },
    {
        if self.stage == 1 {
            match require_len(reply, 64, "supported commands") {
                Err(error) => {
                    return Err(error);
                },
                Ok(()) => {},
            }
        } else if self.stage == 2 {
            match parse_version(reply) {
                Err(error) => {
                    return Err(error);
                },
                Ok(version) => {
                    self.known.version = version;
                },
            }
        } else if self.stage == 3 {
            match require_len(reply, 10, "extended features") {
                Err(error) => {
                    return Err(error);
                },
                Ok(()) => {},
            }
            if reply[0] != 0 || reply[6] & BR_EDR_NOT_SUPPORTED_MASK != 0 {
                return Err(Error::new(ErrorKind::UnsupportedController));
            }
        } else if self.stage == 6 {
            match require_len(reply, 7, "buffer size") {
                Err(error) => {
                    return Err(error);
                },
                Ok(()) => {},
            }
            let length: u16 = read_le16(reply, 0);
            let count: u16 = read_le16(reply, 3);
            if length == 0 || count == 0 {
                return Err(Error::new(ErrorKind::UnsupportedController));
            }
            self.known.acl_packet_length = length;
            self.known.acl_packet_count = count;
        } else if self.stage == 7 {
            match require_len(reply, 6, "local address") {
                Err(error) => {
                    return Err(error);
                },
                Ok(()) => {},
            }
            if reply[0] == 0 && reply[1] == 0 && reply[2] == 0 && reply[3] == 0 && reply[4] == 0
                && reply[5] == 0 {
                assert(reply@ =~= seq![0u8, 0u8, 0u8, 0u8, 0u8, 0u8]);
                return Err(Error::new(ErrorKind::InvalidControllerIdentity));
            }
            let address = BluetoothAddress::from_le_bytes(
                [reply[0], reply[1], reply[2], reply[3], reply[4], reply[5]],
                AddressKind::Public,
            );
            proof {
                assert(address@.bytes_le =~= reply@);
                address_is_of_its_bytes(address);
            }
            self.known.local_address = address;
        }
        self.stage = self.stage + 1;
        Ok(())
    }

    /// Takes one packet, and says what is to be done next.
    pub fn take(&mut self, config: &SessionConfig, packet: &Packet) -> (result: Result<
        Progress,
        Error,
    >)
        ensures
            final(self)@ == old(self)@.packet_taken(identity_of(*config), packet@).0,
            progress_agrees(
                result,
                old(self)@.packet_taken(identity_of(*config), packet@).1,
            ),
    {
        if self.stage >= STARTUP_COMMANDS {
            return Ok(Progress::Ready(self.known));
        }
        let opcode: u16 = self.command(config).opcode;
        match command_reply(opcode, packet) {
            Err(error) => Err(error),
            Ok(None) => Ok(Progress::Waiting),
            Ok(Some(reply)) => match self.answer(&reply) {
                Err(error) => Err(error),
                Ok(()) => Ok(
                    if self.stage == STARTUP_COMMANDS {
                        Progress::Ready(self.known)
                    } else {
                        Progress::Send(self.command(config))
                    },
                ),
            },
        }
    }
}

/// The state after a number of packets, if none of them was refused.
pub open spec fn after_packets(start: StartupV, identity: IdentityV, packets: Seq<PacketV>) -> StartupV
    decreases packets.len(),
{
    if packets.len() == 0 {
        start
    } else {
        after_packets(start, identity, packets.drop_last()).packet_taken(
            identity,
            packets.last(),
        ).0
    }
}

/// No packet skips a command: with each packet the controller stays at its
/// command or goes on to the next one.
pub proof fn startup_goes_step_by_step(state: StartupV, identity: IdentityV, packet: PacketV)
    requires
        state.stage <= STARTUP_COMMANDS,
    ensures
        ({
            let next = state.packet_taken(identity, packet).0;
            next.stage == state.stage || next.stage == state.stage + 1
        }),
        state.packet_taken(identity, packet).0.stage <= STARTUP_COMMANDS,
        state.packet_taken(identity, packet).1 matches Ok(ProgressV::Ready(_)) ==>
            state.packet_taken(identity, packet).0.stage == STARTUP_COMMANDS,
{
}

/// A controller is ready only with a usable address and with room for data.
pub proof fn ready_controller_is_usable(
    start: StartupV,
    identity: IdentityV,
    packets: Seq<PacketV>,
)
    requires
        start.stage == 0,
    ensures
        ({
            let end = after_packets(start, identity, packets);
            &&& end.stage <= STARTUP_COMMANDS
            &&& end.stage > 6 ==> end.known.acl_packet_length > 0 && end.known.acl_packet_count > 0
            &&& end.stage > 7 ==> end.known.local_address@.bytes_le != seq![
                0u8,
                0u8,
                0u8,
                0u8,
                0u8,
                0u8,
            ]
        }),
    decreases packets.len(),
{
    if packets.len() > 0 {
        ready_controller_is_usable(start, identity, packets.drop_last());
        let before = after_packets(start, identity, packets.drop_last());
        let opcode = before.command(identity).opcode;
        if before.stage == 7 {
            if let Ok(Some(reply)) = reply_to(opcode, packets.last()) {
                if before.answered(reply) is Ok {
                    address_has_its_bytes(reply, AddressKind::Public);
                }
            }
        }
    }
}

} // verus!
