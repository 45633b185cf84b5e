//! What a session does, as functions from one state to the next.

use vstd::prelude::*;

use super::events::{classic_events, length_error, peer_at};
use super::events::{
    EVENT_CONNECTION_COMPLETE, EVENT_CONNECTION_REQUEST, EVENT_DISCONNECTION_COMPLETE,
};
use super::startup::{
    inquiry_parameters, HCI_WRITE_EXTENDED_INQUIRY_RESPONSE, HCI_WRITE_SCAN_ENABLE,
};
use crate::acl_flow::{acl_outputs, HostOutputV, SessionEvent};
use crate::api::{
    caused, kind_only, BondStoreError, Channel, ErrorKind, ErrorSourceV, ErrorV, EventV,
    HidSdpPolicy,
};
use crate::bytes::{le16, le16_at};
use crate::classic_host::{
    opened_events, units_queued, ClassicEvent, HostErrorV, HostV, StoreReply,
};
use crate::hci::{AclPacketV, CommandPacketV, EventPacketV, PacketV};
use crate::hid_service::{
    hid_server, input_report, message_handled, sdu_answered, written, HidpBridgeError,
    HidpBridgeEventV, HidpBridgeV, HID_CONTROL_PSM, HID_INTERRUPT_PSM, SDP_PSM,
};
use crate::hidp::{Handshake, MessageV};
use crate::l2cap::classic::{ClassicChannelSpec, ClassicChannelState};
use crate::l2cap::manager::ChannelManagerV;
use crate::sdp::server::SdpServerV;
use crate::values::BluetoothAddress;

verus! {

pub const HCI_CREATE_CONNECTION: u16 = 0x0405;

pub const HCI_DISCONNECT: u16 = 0x0406;

pub const HCI_REJECT_CONNECTION_REQUEST: u16 = 0x040A;

pub const CONNECTION_REJECTED_UNACCEPTABLE_ADDRESS: u8 = 0x0F;

pub const REMOTE_USER_TERMINATED_CONNECTION: u8 = 0x13;

pub const AUTHENTICATION_FAILURE: u8 = 0x05;

pub const CLASSIC_SERVER_MTU: u16 = 672;

pub const EVENT_QUEUE_CAPACITY: usize = 64;

/// Who may connect.
#[derive(Clone, Copy, Debug, PartialEq, Eq)]
pub enum ConnectionWindow {
    /// Nobody.
    Idle,
    /// The first peer that asks, and from then on that peer alone.
    Pairing { peer: Option<BluetoothAddress> },
    /// The peer that this end connects to.
    Reconnecting { peer: BluetoothAddress },
    /// Nobody else: a peer is connected.
    Connected,
}

/// A channel of the HID service.
#[derive(Clone, Copy, Debug, PartialEq, Eq, Structural)]
pub struct ProtocolChannel {
    pub cid: u16,
    pub open: bool,
}

/// The state of the protocols above the channels.
pub struct ProtocolsV {
    pub sdp: Map<u16, SdpServerV>,
    pub control: Option<ProtocolChannel>,
    pub interrupt: Option<ProtocolChannel>,
    pub hidp: HidpBridgeV,
}

impl ProtocolsV {
    pub open spec fn initial() -> ProtocolsV {
        ProtocolsV {
            sdp: Map::empty(),
            control: None,
            interrupt: None,
            hidp: HidpBridgeV { control_peer_mtu: 0, interrupt_peer_mtu: 0 },
        }
    }
}

/// What the session offers.
pub struct ServiceV {
    pub name: Seq<u8>,
    pub descriptor: Seq<u8>,
    pub policy: HidSdpPolicy,
}

/// The state of a session.
pub struct SessionV {
    pub service: ServiceV,
    pub host: HostV,
    pub window: ConnectionWindow,
    pub connection: Option<(BluetoothAddress, u16)>,
    pub rejected: Set<u16>,
    pub protocols: ProtocolsV,
    pub active_reconnect: bool,
    pub terminal: Option<ErrorV>,
    pub closed: bool,
    pub pending_events: Seq<EventV>,
    pub outgoing: Seq<PacketV>,
}

/// What came in.
pub enum ReceivedV {
    Packet(PacketV),
    Nothing,
    Failed(ErrorV),
}

/// A state and what the operation that led to it returned.
pub type SessionOutcome = (SessionV, Result<(), ErrorV>);

/// What an error of the host is to the application.
pub open spec fn host_refused(error: HostErrorV) -> ErrorV {
    caused(
        if error is BondStore {
            ErrorKind::InvalidBondStore
        } else {
            ErrorKind::ProtocolViolation
        },
        ErrorSourceV::Host(error),
    )
}

/// The channels that the session offers and asks for.
pub open spec fn server_spec() -> ClassicChannelSpec {
    ClassicChannelSpec { mtu: CLASSIC_SERVER_MTU }
}

pub open spec fn scan_bits(discoverable: bool, connectable: bool) -> u8 {
    ((if discoverable {
        1int
    } else {
        0
    }) + (if connectable {
        2int
    } else {
        0
    })) as u8
}

pub open spec fn scan_command(discoverable: bool, connectable: bool) -> CommandPacketV {
    CommandPacketV {
        opcode: HCI_WRITE_SCAN_ENABLE,
        parameters: seq![scan_bits(discoverable, connectable)],
    }
}

pub open spec fn inquiry_command(service: ServiceV) -> CommandPacketV {
    CommandPacketV {
        opcode: HCI_WRITE_EXTENDED_INQUIRY_RESPONSE,
        parameters: inquiry_parameters(service.name),
    }
}

/// The commands after which nobody finds or reaches the controller.
pub open spec fn hiding_commands(service: ServiceV) -> Seq<CommandPacketV> {
    seq![inquiry_command(service), scan_command(false, true), scan_command(false, false)]
}

/// The commands after which peers find and reach the controller.
pub open spec fn showing_commands(service: ServiceV) -> Seq<CommandPacketV> {
    seq![scan_command(false, true), inquiry_command(service), scan_command(true, true)]
}

pub open spec fn disconnect_command(handle: u16, reason: u8) -> CommandPacketV {
    CommandPacketV { opcode: HCI_DISCONNECT, parameters: le16(handle) + seq![reason] }
}

/// The commands that connect to a peer.
pub open spec fn connecting_commands(service: ServiceV, peer: BluetoothAddress) -> Seq<
    CommandPacketV,
> {
    seq![
        scan_command(false, true),
        inquiry_command(service),
        scan_command(false, true),
        CommandPacketV {
            opcode: HCI_CREATE_CONNECTION,
            parameters: peer@.bytes_le + seq![0u8, 0u8, 0u8, 0u8, 0u8, 0u8, 1u8],
        },
    ]
}

pub open spec fn command_packets(commands: Seq<CommandPacketV>) -> Seq<PacketV> {
    commands.map_values(|command: CommandPacketV| PacketV::Command(command))
}

/// Whether an output starts or ends a connection.
pub open spec fn is_reset(output: HostOutputV) -> bool {
    match output {
        HostOutputV::Event(SessionEvent::Connected { .. }) => true,
        HostOutputV::Event(SessionEvent::Disconnected { .. }) => true,
        _ => false,
    }
}

/// How many outputs start or end a connection.
pub open spec fn resets(outputs: Seq<HostOutputV>) -> nat
    decreases outputs.len(),
{
    if outputs.len() == 0 {
        0
    } else {
        resets(outputs.skip(1)) + if is_reset(outputs[0]) {
            1nat
        } else {
            0nat
        }
    }
}

impl HostV {
    /// How many SDUs of a channel wait to be taken.
    pub open spec fn backlog(self, cid: u16) -> nat {
        if !self.has_channel(cid) {
            0
        } else {
            self.channel(cid).received.len() + match self.channel(cid).ertm {
                Some(engine) => engine.received.len(),
                None => 0,
            }
        }
    }

    /// The host takes events one after the other, up to the first that fails.
    pub open spec fn events_handled(self, events: Seq<ClassicEvent>, reply: StoreReply) -> (
        HostV,
        Result<(), HostErrorV>,
    )
        decreases events.len(),
    {
        if events.len() == 0 {
            (self, Ok(()))
        } else {
            let (before, result) = self.events_handled(events.drop_last(), reply);
            if result is Err {
                (before, result)
            } else {
                before.event_handled(events.last(), reply)
            }
        }
    }
}

impl SessionV {
    pub open spec fn commanded(self, commands: Seq<CommandPacketV>) -> SessionV {
        SessionV { outgoing: self.outgoing + command_packets(commands), ..self }
    }

    /// Why the session takes no more requests.
    pub open spec fn inactive(self) -> Option<ErrorV> {
        if self.closed {
            Some(kind_only(ErrorKind::Closed))
        } else {
            self.terminal
        }
    }

    /// Nobody may connect any more.
    pub open spec fn window_ended(self) -> SessionV {
        if self.window == ConnectionWindow::Idle {
            self
        } else {
            SessionV { window: ConnectionWindow::Idle, ..self }.commanded(
                hiding_commands(self.service),
            )
        }
    }

    /// An event waits for the application. One too many ends the session.
    pub open spec fn event_queued(self, event: EventV) -> SessionV {
        if self.terminal is Some {
            self
        } else if self.pending_events.len() == EVENT_QUEUE_CAPACITY {
            SessionV { terminal: Some(kind_only(ErrorKind::EventQueueOverflow)), ..self }
        } else {
            SessionV { pending_events: self.pending_events.push(event), ..self }
        }
    }

    /// A session that connects to its peer asks for the control channel once the
    /// link is encrypted.
    pub open spec fn control_requested(self) -> SessionOutcome {
        if !self.active_reconnect || self.protocols.control is Some {
            (self, Ok(()))
        } else {
            let (host, result) = self.host.channel_requested(HID_CONTROL_PSM, server_spec());
            match result {
                Err(error) => (SessionV { host, ..self }, Err(host_refused(error))),
                Ok(cid) => (
                    SessionV {
                        host,
                        protocols: ProtocolsV {
                            control: Some(ProtocolChannel { cid, open: false }),
                            ..self.protocols
                        },
                        ..self
                    },
                    Ok(()),
                ),
            }
        }
    }

    /// A session that connects to its peer asks for the interrupt channel once
    /// the control channel is open.
    pub open spec fn interrupt_requested(self) -> SessionOutcome {
        if !self.active_reconnect || self.protocols.interrupt is Some {
            (self, Ok(()))
        } else {
            let (host, result) = self.host.channel_requested(HID_INTERRUPT_PSM, server_spec());
            match result {
                Err(error) => (SessionV { host, ..self }, Err(host_refused(error))),
                Ok(cid) => (
                    SessionV {
                        host,
                        protocols: ProtocolsV {
                            interrupt: Some(ProtocolChannel { cid, open: false }),
                            ..self.protocols
                        },
                        ..self
                    },
                    Ok(()),
                ),
            }
        }
    }

    /// A discovery channel gets a server of its own.
    pub open spec fn sdp_opened(self, cid: u16, peer_mtu: u16) -> SessionV {
        if self.protocols.sdp.contains_key(cid) {
            self
        } else {
            SessionV {
                protocols: ProtocolsV {
                    sdp: self.protocols.sdp.insert(
                        cid,
                        hid_server(self.service.descriptor, self.service.policy, peer_mtu),
                    ),
                    ..self.protocols
                },
                ..self
            }
        }
    }

    /// Whether an open channel is new to the session.
    pub open spec fn first_open(known: Option<ProtocolChannel>, cid: u16) -> bool {
        known is None || known->0.cid == cid && !known->0.open
    }

    pub open spec fn control_opened(self, cid: u16, peer_mtu: u16) -> SessionV {
        if Self::first_open(self.protocols.control, cid) {
            SessionV {
                protocols: ProtocolsV {
                    control: Some(ProtocolChannel { cid, open: true }),
                    hidp: HidpBridgeV {
                        control_peer_mtu: peer_mtu as usize,
                        ..self.protocols.hidp
                    },
                    ..self.protocols
                },
                ..self
            }.event_queued(EventV::ChannelOpened { channel: Channel::Control })
        } else {
            self
        }
    }

    pub open spec fn interrupt_opened(self, cid: u16, peer_mtu: u16) -> SessionV {
        if Self::first_open(self.protocols.interrupt, cid) {
            SessionV {
                protocols: ProtocolsV {
                    interrupt: Some(ProtocolChannel { cid, open: true }),
                    hidp: HidpBridgeV {
                        interrupt_peer_mtu: peer_mtu as usize,
                        ..self.protocols.hidp
                    },
                    ..self.protocols
                },
                ..self
            }.event_queued(EventV::ChannelOpened { channel: Channel::Interrupt })
        } else {
            self
        }
    }

    /// A channel is open.
    #[verifier::opaque]
    pub open spec fn channel_opened(self, psm: u32, cid: u16) -> SessionOutcome {
        let channel = self.host.channel(cid);
        if !self.host.has_channel(cid) || channel.state != ClassicChannelState::Open || channel.psm
            != psm {
            (self, Err(kind_only(ErrorKind::ProtocolViolation)))
        } else if psm == SDP_PSM {
            (self.sdp_opened(cid, channel.peer_mtu), Ok(()))
        } else if psm == HID_CONTROL_PSM {
            self.control_opened(cid, channel.peer_mtu).interrupt_requested()
        } else if psm == HID_INTERRUPT_PSM {
            (self.interrupt_opened(cid, channel.peer_mtu), Ok(()))
        } else {
            (self, Err(kind_only(ErrorKind::ProtocolViolation)))
        }
    }

    /// A connection stands: nobody else may connect, and the protocols start anew.
    pub open spec fn connected(self, peer: BluetoothAddress, handle: u16) -> SessionV {
        SessionV {
            connection: Some((peer, handle)),
            window: ConnectionWindow::Connected,
            protocols: ProtocolsV::initial(),
            ..self
        }.commanded(hiding_commands(self.service)).event_queued(EventV::Connected { peer })
    }

    /// The connection is gone.
    pub open spec fn disconnected(self, reason: u8) -> SessionV {
        SessionV {
            connection: None,
            window: ConnectionWindow::Idle,
            protocols: ProtocolsV::initial(),
            active_reconnect: false,
            ..self
        }.event_queued(EventV::Disconnected { reason: Some(reason) })
    }

    /// One thing that the host wants done is done.
    #[verifier::opaque]
    pub open spec fn output_applied(self, output: HostOutputV) -> SessionOutcome {
        match output {
            HostOutputV::Command(command) => (
                SessionV { outgoing: self.outgoing.push(PacketV::Command(command)), ..self },
                Ok(()),
            ),
            HostOutputV::Acl(packet) => (
                SessionV { outgoing: self.outgoing.push(PacketV::Acl(packet)), ..self },
                Ok(()),
            ),
            HostOutputV::Event(SessionEvent::Connected { peer, connection_handle }) => (
                self.connected(peer, connection_handle),
                Ok(()),
            ),
            HostOutputV::Event(SessionEvent::Disconnected { reason, .. }) => (
                self.disconnected(reason),
                Ok(()),
            ),
            HostOutputV::Event(SessionEvent::Encrypted { .. }) => self.control_requested(),
            HostOutputV::Event(SessionEvent::ChannelOpened { psm, source_cid }) =>
            self.channel_opened(psm, source_cid),
            HostOutputV::Event(SessionEvent::BondStored { .. }) => (self, Ok(())),
        }
    }

    /// The first output of the host leaves it.
    pub open spec fn output_popped(self) -> SessionV {
        SessionV { host: HostV { output: self.host.output.skip(1), ..self.host }, ..self }
    }

    /// How many of the two HID channels the session knows nothing of.
    pub open spec fn unknown_channels(self) -> nat {
        (if self.protocols.control is None {
            1nat
        } else {
            0nat
        }) + (if self.protocols.interrupt is None {
            1nat
        } else {
            0nat
        })
    }

    /// All that the host wants done is done, in order, up to the first that fails.
    pub open spec fn output_drained(self) -> SessionOutcome
        decreases resets(self.host.output), self.unknown_channels(), self.host.output.len(),
    {
        if self.host.output.len() == 0 {
            (self, Ok(()))
        } else {
            let (next, result) = self.output_popped().output_applied(self.host.output[0]);
            match result {
                Err(error) => (next, Err(error)),
                Ok(_) => {
                    proof {
                        lemma_output_applied(self);
                    }
                    next.output_drained()
                },
            }
        }
    }

    /// A channel that this end asked for may have opened.
    pub open spec fn channel_refreshed(self, psm: u32, known: Option<ProtocolChannel>) -> SessionOutcome {
        match known {
            Some(channel) => if !channel.open && self.host.has_channel(channel.cid)
                && self.host.channel(channel.cid).state == ClassicChannelState::Open {
                self.channel_opened(psm, channel.cid)
            } else {
                (self, Ok(()))
            },
            None => (self, Ok(())),
        }
    }

    /// The channels that this end asked for may have opened.
    pub open spec fn channels_refreshed(self) -> SessionOutcome {
        let (next, result) = self.channel_refreshed(HID_CONTROL_PSM, self.protocols.control);
        match result {
            Err(error) => (next, Err(error)),
            Ok(_) => next.channel_refreshed(HID_INTERRUPT_PSM, next.protocols.interrupt),
        }
    }

    /// An SDU goes out on a channel.
    pub open spec fn sdu_sent(self, cid: u16, sdu: Seq<u8>) -> SessionOutcome {
        let (host, result) = self.host.sdu_sent(cid, sdu);
        (
            SessionV { host, ..self },
            match result {
                Ok(_) => Ok(()),
                Err(error) => Err(host_refused(error)),
            },
        )
    }

    /// One request on a discovery channel is answered.
    pub open spec fn request_answered(self, cid: u16, request: Seq<u8>) -> SessionOutcome {
        let (server, answer) = sdu_answered(self.protocols.sdp[cid], request);
        let next = SessionV {
            protocols: ProtocolsV { sdp: self.protocols.sdp.insert(cid, server), ..self.protocols },
            ..self
        };
        match answer {
            None => (next, Ok(())),
            Some(response) => next.sdu_sent(cid, response),
        }
    }

    /// The requests that wait on a discovery channel, at most `count`, are answered.
    pub open spec fn sdp_served(self, cid: u16, count: nat) -> SessionOutcome
        decreases count,
    {
        let (host, request) = self.host.sdu_taken(cid);
        let taken = SessionV { host, ..self };
        if count == 0 || request is None {
            (self, Ok(()))
        } else {
            let (next, result) = taken.request_answered(cid, request->0);
            match result {
                Err(error) => (next, Err(error)),
                Ok(_) => next.sdp_served(cid, (count - 1) as nat),
            }
        }
    }

    /// All requests that wait on discovery channels from `from` on are answered.
    pub open spec fn sdp_served_from(self, from: int) -> SessionOutcome
        decreases 65536 - from,
    {
        if from > 65535 {
            (self, Ok(()))
        } else if !self.protocols.sdp.contains_key(from as u16) {
            self.sdp_served_from(from + 1)
        } else {
            let (next, result) = self.sdp_served(from as u16, self.host.backlog(from as u16));
            match result {
                Err(error) => (next, Err(error)),
                Ok(_) => next.sdp_served_from(from + 1),
            }
        }
    }

    /// One thing that a message asks for is done.
    pub open spec fn bridge_event_applied(self, event: HidpBridgeEventV) -> SessionOutcome {
        match event {
            HidpBridgeEventV::Output { channel, payload } => (
                self.event_queued(EventV::HidOutput { channel, payload }),
                Ok(()),
            ),
            HidpBridgeEventV::ControlResponse(response) => match self.protocols.control {
                Some(control) => if control.open {
                    self.sdu_sent(control.cid, response)
                } else {
                    (self, Ok(()))
                },
                None => (self, Ok(())),
            },
            _ => (self, Ok(())),
        }
    }

    /// What a message asks for is done, in order, up to the first that fails.
    pub open spec fn bridge_events_applied(self, events: Seq<HidpBridgeEventV>) -> SessionOutcome
        decreases events.len(),
    {
        if events.len() == 0 {
            (self, Ok(()))
        } else {
            let (before, result) = self.bridge_events_applied(events.drop_last());
            if result is Err {
                (before, result)
            } else {
                before.bridge_event_applied(events.last())
            }
        }
    }

    /// One message on a HID channel is taken. Only a message on the control
    /// channel that cannot be read is answered by a refusal.
    pub open spec fn message_taken(self, channel: Channel, cid: u16, message: Seq<u8>) -> SessionOutcome {
        let mtu = self.protocols.hidp.control_peer_mtu;
        match message_handled(channel, message, mtu) {
            Ok(events) => self.bridge_events_applied(events),
            Err(error) => if error == (HidpBridgeError::Malformed { channel: Channel::Control }) {
                match written(
                    Channel::Control,
                    MessageV::Handshake(Handshake(Handshake::ERR_INVALID_PARAMETER)),
                    mtu,
                ) {
                    Ok(response) => self.sdu_sent(cid, response),
                    Err(_) => (self, Ok(())),
                }
            } else {
                (self, Ok(()))
            },
        }
    }

    /// The messages that wait on a HID channel, at most `count`, are taken.
    pub open spec fn hid_served(self, channel: Channel, cid: u16, count: nat) -> SessionOutcome
        decreases count,
    {
        let (host, message) = self.host.sdu_taken(cid);
        let taken = SessionV { host, ..self };
        if count == 0 || message is None {
            (self, Ok(()))
        } else {
            let (next, result) = taken.message_taken(channel, cid, message->0);
            match result {
                Err(error) => (next, Err(error)),
                Ok(_) => next.hid_served(channel, cid, (count - 1) as nat),
            }
        }
    }

    /// All messages that wait on a HID channel are taken, once it is open.
    pub open spec fn hid_channel_served(
        self,
        channel: Channel,
        known: Option<ProtocolChannel>,
    ) -> SessionOutcome {
        match known {
            Some(protocol) => if protocol.open {
                self.hid_served(channel, protocol.cid, self.host.backlog(protocol.cid))
            } else {
                (self, Ok(()))
            },
            None => (self, Ok(())),
        }
    }

    /// All that came in on the channels is taken: discovery first, then control,
    /// then interrupt.
    #[verifier::opaque]
    pub open spec fn input_processed(self) -> SessionOutcome {
        let (first, result) = self.sdp_served_from(0);
        match result {
            Err(error) => (first, Err(error)),
            Ok(_) => {
                let (second, result) = first.hid_channel_served(
                    Channel::Control,
                    first.protocols.control,
                );
                match result {
                    Err(error) => (second, Err(error)),
                    Ok(_) => second.hid_channel_served(
                        Channel::Interrupt,
                        first.protocols.interrupt,
                    ),
                }
            },
        }
    }

    /// What follows once the host took data of the peer.
    pub open spec fn data_followed(self) -> SessionOutcome {
        let (drained, result) = self.output_drained();
        match result {
            Err(error) => (drained, Err(error)),
            Ok(_) => {
                let (refreshed, result) = drained.channels_refreshed();
                match result {
                    Err(error) => (refreshed, Err(error)),
                    Ok(_) => {
                        let (processed, result) = refreshed.input_processed();
                        match result {
                            Err(error) => (processed, Err(error)),
                            Ok(_) => processed.output_drained(),
                        }
                    },
                }
            },
        }
    }

    /// Data of the peer came in.
    pub open spec fn data_taken(self, packet: AclPacketV) -> SessionOutcome {
        let (host, result) = self.host.acl_received(packet);
        let next = SessionV { host, ..self };
        match result {
            Err(error) => (next, Err(host_refused(error))),
            Ok(_) => next.data_followed(),
        }
    }

    /// Whether a peer that asks for a Classic connection may have it.
    pub open spec fn admits(self, peer: BluetoothAddress) -> bool {
        match self.window {
            ConnectionWindow::Pairing { peer: latched } => latched is None || latched->0 == peer,
            ConnectionWindow::Reconnecting { peer: expected } => expected == peer,
            _ => false,
        }
    }

    /// The peer that a new connection must be to.
    pub open spec fn expected_peer(self) -> Option<BluetoothAddress> {
        match self.window {
            ConnectionWindow::Pairing { peer } => peer,
            ConnectionWindow::Reconnecting { peer } => Some(peer),
            _ => None,
        }
    }

    /// A pairing session stays with the first peer that asks.
    pub open spec fn latched(self, peer: BluetoothAddress) -> SessionV {
        if self.window == (ConnectionWindow::Pairing { peer: None }) {
            SessionV { window: ConnectionWindow::Pairing { peer: Some(peer) }, ..self }
        } else {
            self
        }
    }

    /// A peer asks for a connection: the session refuses it here, or lets the
    /// host go on.
    pub open spec fn request_screened(self, parameters: Seq<u8>) -> (
        SessionV,
        Option<Result<(), ErrorV>>,
    ) {
        let peer = peer_at(parameters, 0);
        if parameters.len() != 10 {
            (self, Some(Err(length_error("connection request", 10, parameters.len() as int))))
        } else if parameters[9] == 1 && self.admits(peer) {
            (self.latched(peer), None)
        } else {
            (
                self.commanded(
                    seq![
                        CommandPacketV {
                            opcode: HCI_REJECT_CONNECTION_REQUEST,
                            parameters: peer@.bytes_le + seq![
                                CONNECTION_REJECTED_UNACCEPTABLE_ADDRESS,
                            ],
                        },
                    ],
                ),
                Some(Ok(())),
            )
        }
    }

    /// A connection was made or failed: the session drops one that it did not
    /// ask for, and lets the host go on with any other.
    pub open spec fn completion_screened(self, parameters: Seq<u8>) -> (
        SessionV,
        Option<Result<(), ErrorV>>,
    ) {
        let status = parameters[0];
        let handle = le16_at(parameters, 1);
        let peer = peer_at(parameters, 3);
        if parameters.len() != 11 {
            (self, Some(Err(length_error("connection complete", 11, parameters.len() as int))))
        } else if status != 0 {
            (
                SessionV { active_reconnect: false, ..self.window_ended() }.event_queued(
                    EventV::Disconnected { reason: Some(status) },
                ),
                None,
            )
        } else if self.expected_peer() != Some(peer) || parameters[9] != 1 {
            (
                SessionV {
                    rejected: self.rejected.insert(handle),
                    ..self.commanded(seq![disconnect_command(handle, AUTHENTICATION_FAILURE)])
                },
                Some(Ok(())),
            )
        } else {
            (self, None)
        }
    }

    /// A connection ended: the end of one that the session had dropped concerns
    /// nobody else.
    pub open spec fn end_screened(self, parameters: Seq<u8>) -> (
        SessionV,
        Option<Result<(), ErrorV>>,
    ) {
        let handle = le16_at(parameters, 1);
        if parameters.len() != 4 {
            (self, Some(Err(length_error("disconnection complete", 4, parameters.len() as int))))
        } else if parameters[0] == 0 && self.rejected.contains(handle) {
            (SessionV { rejected: self.rejected.remove(handle), ..self }, Some(Ok(())))
        } else {
            (self, None)
        }
    }

    /// What the session does about an event before the host sees it.
    pub open spec fn screened(self, event: EventPacketV) -> (SessionV, Option<Result<(), ErrorV>>) {
        if event.event_code == EVENT_CONNECTION_REQUEST {
            self.request_screened(event.parameters)
        } else if event.event_code == EVENT_CONNECTION_COMPLETE {
            self.completion_screened(event.parameters)
        } else if event.event_code == EVENT_DISCONNECTION_COMPLETE {
            self.end_screened(event.parameters)
        } else {
            (self, None)
        }
    }

    /// What an event says about the link goes to the host.
    pub open spec fn link_events_taken(self, event: EventPacketV, reply: StoreReply) -> SessionOutcome {
        match classic_events(event) {
            Err(error) => (self, Err(error)),
            Ok(events) => {
                let (host, result) = self.host.events_handled(events, reply);
                let next = SessionV { host, ..self };
                match result {
                    Err(error) => (next, Err(host_refused(error))),
                    Ok(_) => next.output_drained(),
                }
            },
        }
    }

    /// An event of the controller came in.
    pub open spec fn event_taken(self, event: EventPacketV, reply: StoreReply) -> SessionOutcome {
        let (next, verdict) = self.screened(event);
        match verdict {
            Some(result) => (next, result),
            None => next.link_events_taken(event, reply),
        }
    }

    /// A packet of the controller came in.
    pub open spec fn packet_taken(self, packet: PacketV, reply: StoreReply) -> SessionOutcome {
        match packet {
            PacketV::Event(event) => self.event_taken(event, reply),
            PacketV::Acl(packet) => self.data_taken(packet),
            PacketV::Command(_) => (self, Err(kind_only(ErrorKind::ProtocolViolation))),
        }
    }

    /// A packet came in while the application waits: an error ends the session.
    pub open spec fn packet_polled(self, packet: PacketV, reply: StoreReply) -> SessionOutcome {
        let (next, result) = self.packet_taken(packet, reply);
        match result {
            Err(error) => (SessionV { terminal: Some(error), ..next }, Err(error)),
            Ok(_) => match next.terminal {
                Some(error) => (next, Err(error)),
                None => (next, Ok(())),
            },
        }
    }

    /// Whether a report would go to the controller at once.
    pub open spec fn can_send_at_once(self) -> bool {
        &&& self.inactive() is None
        &&& self.protocols.interrupt matches Some(channel) && channel.open
        &&& self.host.flow.has_room()
    }

    /// The application sends a report.
    pub open spec fn report_sent(self, payload: Seq<u8>) -> SessionOutcome {
        match self.inactive() {
            Some(error) => (self, Err(error)),
            None => match self.protocols.interrupt {
                Some(channel) => if channel.open {
                    match written(
                        Channel::Interrupt,
                        input_report(payload),
                        self.protocols.hidp.interrupt_peer_mtu,
                    ) {
                        Err(error) => (
                            self,
                            Err(caused(ErrorKind::SendRejected, ErrorSourceV::Hidp(error))),
                        ),
                        Ok(encoded) => {
                            let (host, result) = self.host.sdu_sent(channel.cid, encoded);
                            let next = SessionV { host, ..self };
                            match result {
                                Err(error) => (
                                    next,
                                    Err(
                                        caused(
                                            ErrorKind::SendRejected,
                                            ErrorSourceV::Host(error),
                                        ),
                                    ),
                                ),
                                Ok(_) => next.output_drained(),
                            }
                        },
                    }
                } else {
                    (self, Err(kind_only(ErrorKind::SendRejected)))
                },
                None => (self, Err(kind_only(ErrorKind::SendRejected))),
            },
        }
    }

    /// What the application gets when nothing more came in.
    pub open spec fn events_taken(self) -> (SessionV, Seq<EventV>) {
        (SessionV { pending_events: seq![], ..self }, self.pending_events)
    }

    /// The application polls, and something came in or nothing did.
    pub open spec fn polled(self, received: ReceivedV, reply: StoreReply) -> (
        SessionV,
        Result<Option<Seq<EventV>>, ErrorV>,
    ) {
        match self.inactive() {
            Some(error) => (self, Err(error)),
            None => match received {
                ReceivedV::Packet(packet) => {
                    let (next, result) = self.packet_polled(packet, reply);
                    match result {
                        Err(error) => (next, Err(error)),
                        Ok(_) => (next, Ok(None)),
                    }
                },
                ReceivedV::Nothing => (self.events_taken().0, Ok(Some(self.events_taken().1))),
                ReceivedV::Failed(error) => (
                    SessionV { terminal: Some(error), ..self },
                    Err(error),
                ),
            },
        }
    }

    /// The application waits until the reports are out, and something came in or
    /// nothing did in time.
    pub open spec fn draining(self, received: ReceivedV, reply: StoreReply) -> (
        SessionV,
        Result<bool, ErrorV>,
    ) {
        match self.inactive() {
            Some(error) => (self, Err(error)),
            None => match received {
                ReceivedV::Packet(packet) => {
                    let (next, result) = self.packet_polled(packet, reply);
                    match result {
                        Err(error) => (next, Err(error)),
                        Ok(_) => (next, Ok(next.host.flow.queued.len() == 0)),
                    }
                },
                ReceivedV::Nothing => (self, Err(kind_only(ErrorKind::DrainTimedOut))),
                ReceivedV::Failed(error) => (
                    SessionV { terminal: Some(error), ..self },
                    Err(error),
                ),
            },
        }
    }

    /// The commands that let peers find and reach the controller, if they are to
    /// be sent now.
    pub open spec fn pairing_plan(self) -> Result<Option<Seq<CommandPacketV>>, ErrorV> {
        match self.inactive() {
            Some(error) => Err(error),
            None => match self.window {
                ConnectionWindow::Pairing { .. } => Ok(None),
                ConnectionWindow::Idle => Ok(Some(showing_commands(self.service))),
                _ => Err(kind_only(ErrorKind::SendRejected)),
            },
        }
    }

    /// The peer to connect to and the commands that do so, if they are to be
    /// sent now. There must be exactly one bond.
    pub open spec fn reconnect_plan(
        self,
        bonds: Result<Seq<BluetoothAddress>, BondStoreError>,
    ) -> Result<Option<(BluetoothAddress, Seq<CommandPacketV>)>, ErrorV> {
        match self.inactive() {
            Some(error) => Err(error),
            None => match self.window {
                ConnectionWindow::Reconnecting { .. } => Ok(None),
                ConnectionWindow::Idle => match bonds {
                    Err(error) => Err(
                        caused(ErrorKind::InvalidBondStore, ErrorSourceV::BondStore(error)),
                    ),
                    Ok(peers) => if peers.len() == 1 {
                        Ok(Some((peers[0], connecting_commands(self.service, peers[0]))))
                    } else {
                        Err(kind_only(ErrorKind::NoBond))
                    },
                },
                _ => Err(kind_only(ErrorKind::SendRejected)),
            },
        }
    }

    /// The application asks to end the connection.
    pub open spec fn disconnect_requested(self) -> (SessionV, Result<Seq<CommandPacketV>, ErrorV>) {
        match self.inactive() {
            Some(error) => (self, Err(error)),
            None => (self.leaving().0, Ok(self.leaving().1)),
        }
    }

    /// The application ends the connection: the commands to send, and the state
    /// while they are sent.
    pub open spec fn leaving(self) -> (SessionV, Seq<CommandPacketV>) {
        (
            SessionV {
                protocols: ProtocolsV::initial(),
                active_reconnect: false,
                connection: None,
                ..self
            },
            (match self.connection {
                Some((_, handle)) => seq![
                    disconnect_command(handle, REMOTE_USER_TERMINATED_CONNECTION),
                ],
                None => seq![],
            }) + if self.window == ConnectionWindow::Idle {
                seq![]
            } else {
                hiding_commands(self.service)
            },
        )
    }

    /// A session with its servers, before anything happened.
    pub open spec fn initial(service: ServiceV, payload_size: u16, total_packets: u16) -> SessionV {
        SessionV {
            service,
            host: HostV {
                servers: Map::empty().insert(SDP_PSM, server_spec()).insert(
                    HID_CONTROL_PSM,
                    server_spec(),
                ).insert(HID_INTERRUPT_PSM, server_spec()),
                ..HostV::initial(payload_size as usize, total_packets)
            },
            window: ConnectionWindow::Idle,
            connection: None,
            rejected: Set::empty(),
            protocols: ProtocolsV::initial(),
            active_reconnect: false,
            terminal: None,
            closed: false,
            pending_events: seq![],
            outgoing: seq![],
        }
    }

    /// The session is over.
    pub open spec fn shut(self) -> SessionV {
        if self.closed {
            self
        } else {
            SessionV {
                closed: true,
                connection: None,
                rejected: Set::empty(),
                window: ConnectionWindow::Idle,
                protocols: ProtocolsV::initial(),
                active_reconnect: false,
                pending_events: seq![],
                outgoing: seq![],
                ..self
            }
        }
    }
}

proof fn lemma_resets_added(left: Seq<HostOutputV>, right: Seq<HostOutputV>)
    ensures
        resets(left + right) == resets(left) + resets(right),
    decreases left.len(),
{
    if left.len() == 0 {
        assert(left + right =~= right);
    } else {
        assert((left + right).skip(1) =~= left.skip(1) + right);
        lemma_resets_added(left.skip(1), right);
    }
}

proof fn lemma_no_resets(outputs: Seq<HostOutputV>)
    requires
        forall|i: int| 0 <= i < outputs.len() ==> !is_reset(#[trigger] outputs[i]),
    ensures
        resets(outputs) == 0,
    decreases outputs.len(),
{
    if outputs.len() > 0 {
        assert forall|i: int| 0 <= i < outputs.skip(1).len() implies !is_reset(
            #[trigger] outputs.skip(1)[i],
        ) by {
            assert(outputs.skip(1)[i] == outputs[i + 1]);
        }
        lemma_no_resets(outputs.skip(1));
    }
}

/// Whatever the channels have to send starts and ends no connection.
pub proof fn lemma_flush_resets(host: HostV)
    ensures
        resets(host.channels_flushed().0.output) == resets(host.output),
{
    match host.connection {
        None => {},
        Some(connection) => {
            let channels = connection.channels;
            let (queued, result) = units_queued(
                host.flow.queued,
                connection.handle,
                host.flow.payload_size as int,
                channels.outbound,
            );
            if result is Ok {
                let drained = host.with_channels(
                    ChannelManagerV { outbound: seq![], accepted_channels: seq![], ..channels },
                );
                let filled = HostV {
                    flow: crate::acl_flow::AclFlowV { queued, ..host.flow },
                    ..drained
                };
                let sent = acl_outputs(filled.flow.ready());
                let events = opened_events(
                    crate::classic_host::opened_channels(
                        channels.channels,
                        channels.accepted_channels,
                    ),
                );
                lemma_no_resets(sent);
                lemma_no_resets(events);
                lemma_resets_added(host.output, sent);
                lemma_resets_added(host.output + sent, events);
            }
        },
    }
}

pub proof fn lemma_request_resets(host: HostV, psm: u32, spec: ClassicChannelSpec)
    ensures
        resets(host.channel_requested(psm, spec).0.output) == resets(host.output),
{
    match host.connection {
        None => {},
        Some(connection) => {
            let (channels, result) = connection.channels.connect_outcome(
                psm,
                crate::l2cap::classic::spec_fault(spec),
                crate::l2cap::classic::ChannelSpec::Basic(spec),
            );
            if result is Ok {
                lemma_flush_resets(host.with_channels(channels));
            }
        },
    }
}

proof fn lemma_channel_opened(session: SessionV, psm: u32, cid: u16)
    requires
        session.channel_opened(psm, cid).1 is Ok,
    ensures
        ({
            let next = session.channel_opened(psm, cid).0;
            &&& resets(next.host.output) == resets(session.host.output)
            &&& next.unknown_channels() <= session.unknown_channels()
            &&& next.unknown_channels() < session.unknown_channels() || next.host == session.host
        }),
{
    reveal(SessionV::channel_opened);
    lemma_request_resets(session.host, HID_INTERRUPT_PSM, server_spec());
}

/// What each step of draining the host's output makes smaller.
pub proof fn lemma_output_applied(session: SessionV)
    requires
        session.host.output.len() > 0,
        session.output_popped().output_applied(session.host.output[0]).1 is Ok,
    ensures
        ({
            let next = session.output_popped().output_applied(session.host.output[0]).0;
            ||| resets(next.host.output) < resets(session.host.output)
            ||| resets(next.host.output) == resets(session.host.output) && next.unknown_channels()
                < session.unknown_channels()
            ||| resets(next.host.output) == resets(session.host.output) && next.unknown_channels()
                == session.unknown_channels() && next.host.output.len()
                < session.host.output.len()
        }),
{
    reveal(SessionV::output_applied);
    let popped = session.output_popped();
    match session.host.output[0] {
        HostOutputV::Event(SessionEvent::Encrypted { .. }) => {
            lemma_request_resets(popped.host, HID_CONTROL_PSM, server_spec());
        },
        HostOutputV::Event(SessionEvent::ChannelOpened { psm, source_cid }) => {
            lemma_channel_opened(popped, psm, source_cid);
        },
        _ => {},
    }
}

} // verus!
