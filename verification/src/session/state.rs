//! The session itself. It takes packets of the controller and requests of the
//! application, and keeps what is to be sent until it is taken from it.

use std::collections::{BTreeSet, VecDeque};
use vstd::prelude::*;

use super::events::{address_at, classic_events, decode_classic_event, require_len};
use super::events::{
    EVENT_CONNECTION_COMPLETE, EVENT_CONNECTION_REQUEST, EVENT_DISCONNECTION_COMPLETE,
};
use super::identity::{identity_mismatch_kind, AdapterIdentityPreparation};
use super::model::{
    command_packets, connecting_commands, disconnect_command, hiding_commands, host_refused,
    inquiry_command, lemma_output_applied, resets, scan_bits, scan_command, server_spec,
    showing_commands, ConnectionWindow, ProtocolChannel, ProtocolsV, ReceivedV, ServiceV,
    SessionV,
    AUTHENTICATION_FAILURE, CLASSIC_SERVER_MTU, CONNECTION_REJECTED_UNACCEPTABLE_ADDRESS,
    EVENT_QUEUE_CAPACITY, HCI_CREATE_CONNECTION, HCI_DISCONNECT, HCI_REJECT_CONNECTION_REQUEST,
    REMOTE_USER_TERMINATED_CONNECTION,
};
use super::startup::{
    inquiry_response_parameters, InitializedController, HCI_WRITE_EXTENDED_INQUIRY_RESPONSE,
    HCI_WRITE_SCAN_ENABLE,
};
use crate::acl_flow::{HostOutput, SessionEvent};
use crate::api::{
    caused, kind_only, list_view, session_agrees, BondStore, BondStoreError, Capabilities, Channel, Error,
    ErrorKind, ErrorSource, ErrorSourceV, ErrorV, Event, EventV, LocalIdentity, SessionConfig,
    UsbAdapterMetadata,
};
use crate::bytes::{append_bytes, first_of, le16, push_le16, read_le16, rest_of};
use crate::classic_host::{
    host_agrees, key_handed, store_asked, ClassicEvent, ClassicHost, HostError, HostErrorV, HostV, StoreReply,
};
use crate::hci::{AclPacket, CommandPacket, CommandPacketV, EventPacket, EventPacketV, Packet, PacketV};
use crate::hid_service::{
    HidSdpChannel, HidpBridge, HidpBridgeError, HidpBridgeEvent, HidpBridgeEventV,
    bridge_views, HID_CONTROL_PSM, HID_INTERRUPT_PSM, SDP_PSM,
};
use crate::l2cap::classic::{ClassicChannelSpec, ClassicChannelV};
use crate::l2cap::ertm::ErtmEngineV;
use crate::l2cap::manager::ChannelManagerV;
use crate::l2cap::table::Table;
use crate::values::{BluetoothAddress, ClassicBond, ClassicBondV};

verus! {

/// The contents of a list of packets.
pub open spec fn packet_views(packets: Seq<Packet>) -> Seq<PacketV> {
    packets.map_values(|packet: Packet| packet@)
}

/// The contents of a list of commands.
pub open spec fn command_views(commands: Seq<CommandPacket>) -> Seq<CommandPacketV> {
    commands.map_values(|command: CommandPacket| command@)
}

/// The contents of a list of events.
pub open spec fn event_views(events: Seq<Event>) -> Seq<EventV> {
    events.map_values(|event: Event| event@)
}

/// The protocols above the channels.
pub struct ProtocolState {
    pub sdp: Table<HidSdpChannel>,
    pub control: Option<ProtocolChannel>,
    pub interrupt: Option<ProtocolChannel>,
    pub hidp: HidpBridge,
}

impl View for ProtocolState {
    type V = ProtocolsV;

    open spec fn view(&self) -> ProtocolsV {
        ProtocolsV {
            sdp: self.sdp@,
            control: self.control,
            interrupt: self.interrupt,
            hidp: self.hidp@,
        }
    }
}

impl Default for ProtocolState {
    fn default() -> (protocols: Self)
        ensures
            protocols@ == ProtocolsV::initial(),
    {
        ProtocolState {
            sdp: Table::new(),
            control: None,
            interrupt: None,
            hidp: HidpBridge::new(0, 0),
        }
    }
}

/// What a session offers, out of its configuration.
pub open spec fn service_of(config: SessionConfig) -> ServiceV {
    ServiceV {
        name: config.name_bytes(),
        descriptor: config.hid().descriptor(),
        policy: config.hid().policy(),
    }
}

pub open spec fn terminal_view(terminal: Option<Error>) -> Option<ErrorV> {
    match terminal {
        Some(error) => Some(error@),
        None => None,
    }
}

/// Opaque, owned Bluetooth Classic HID session.
///
/// The session owns the Classic protocol state without exposing HCI or L2CAP
/// types. What it has to send waits in `outgoing`.
pub struct Session<B> {
    pub capabilities: Capabilities,
    pub config: SessionConfig,
    pub host: ClassicHost<B>,
    pub window: ConnectionWindow,
    pub connection: Option<(BluetoothAddress, u16)>,
    pub rejected_connections: BTreeSet<u16>,
    pub protocols: ProtocolState,
    pub active_reconnect: bool,
    pub terminal: Option<Error>,
    pub closed: bool,
    pub pending_events: VecDeque<Event>,
    pub outgoing: VecDeque<Packet>,
}

impl<B> View for Session<B> {
    type V = SessionV;

    open spec fn view(&self) -> SessionV {
        SessionV {
            service: service_of(self.config),
            host: self.host@,
            window: self.window,
            connection: self.connection,
            rejected: self.rejected_connections@,
            protocols: self.protocols@,
            active_reconnect: self.active_reconnect,
            terminal: terminal_view(self.terminal),
            closed: self.closed,
            pending_events: event_views(self.pending_events@),
            outgoing: packet_views(self.outgoing@),
        }
    }
}

fn map_host_error(error: HostError) -> (mapped: Error)
    ensures
        mapped@ == host_refused(error@),
{
    let kind = match &error {
        HostError::BondStore(_) => ErrorKind::InvalidBondStore,
        _ => ErrorKind::ProtocolViolation,
    };
    Error::with_source(kind, ErrorSource::Host(error))
}

fn server_channel() -> (spec: ClassicChannelSpec)
    ensures
        spec == server_spec(),
{
    ClassicChannelSpec { mtu: CLASSIC_SERVER_MTU }
}

fn scan(discoverable: bool, connectable: bool) -> (command: CommandPacket)
    ensures
        command@ == scan_command(discoverable, connectable),
{
    let bits: u8 = (if discoverable {
        1u8
    } else {
        0u8
    }) + (if connectable {
        2u8
    } else {
        0u8
    });
    let mut parameters: Vec<u8> = Vec::new();
    parameters.push(bits);
    assert(parameters@ =~= seq![scan_bits(discoverable, connectable)]);
    CommandPacket { opcode: HCI_WRITE_SCAN_ENABLE, parameters }
}

fn inquiry(config: &SessionConfig) -> (command: CommandPacket)
    ensures
        command@ == inquiry_command(service_of(*config)),
{
    CommandPacket {
        opcode: HCI_WRITE_EXTENDED_INQUIRY_RESPONSE,
        parameters: inquiry_response_parameters(config),
    }
}

fn hiding(config: &SessionConfig) -> (commands: Vec<CommandPacket>)
    ensures
        command_views(commands@) == hiding_commands(service_of(*config)),
{
    let first = inquiry(config);
    let second = scan(false, true);
    let third = scan(false, false);
    let ghost models = seq![first@, second@, third@];
    let mut commands: Vec<CommandPacket> = Vec::new();
    commands.push(first);
    commands.push(second);
    commands.push(third);
    assert(command_views(commands@) =~= models);
    commands
}

fn showing(config: &SessionConfig) -> (commands: Vec<CommandPacket>)
    ensures
        command_views(commands@) == showing_commands(service_of(*config)),
{
    let first = scan(false, true);
    let second = inquiry(config);
    let third = scan(true, true);
    let ghost models = seq![first@, second@, third@];
    let mut commands: Vec<CommandPacket> = Vec::new();
    commands.push(first);
    commands.push(second);
    commands.push(third);
    assert(command_views(commands@) =~= models);
    commands
}

fn disconnect_with(handle: u16, reason: u8) -> (command: CommandPacket)
    ensures
        command@ == disconnect_command(handle, reason),
{
    let mut parameters: Vec<u8> = Vec::new();
    push_le16(&mut parameters, handle);
    parameters.push(reason);
    assert(parameters@ =~= le16(handle) + seq![reason]);
    CommandPacket { opcode: HCI_DISCONNECT, parameters }
}

fn one_command(command: CommandPacket) -> (commands: Vec<CommandPacket>)
    ensures
        command_views(commands@) == seq![command@],
{
    let ghost model = command@;
    let mut commands: Vec<CommandPacket> = Vec::new();
    commands.push(command);
    assert(command_views(commands@) =~= seq![model]);
    commands
}

/// The commands that connect to a peer.
fn connecting(config: &SessionConfig, peer: BluetoothAddress) -> (commands: Vec<CommandPacket>)
    ensures
        command_views(commands@) == connecting_commands(service_of(*config), peer),
{
    let mut parameters: Vec<u8> = Vec::new();
    append_bytes(&mut parameters, peer.as_le_bytes());
    append_bytes(&mut parameters, &[0u8, 0u8, 0u8, 0u8, 0u8, 0u8, 1u8]);
    assert(parameters@ =~= peer@.bytes_le + seq![0u8, 0u8, 0u8, 0u8, 0u8, 0u8, 1u8]);
    let first = scan(false, true);
    let second = inquiry(config);
    let third = scan(false, true);
    let fourth = CommandPacket { opcode: HCI_CREATE_CONNECTION, parameters };
    let ghost models = seq![first@, second@, third@, fourth@];
    let mut commands: Vec<CommandPacket> = Vec::new();
    commands.push(first);
    commands.push(second);
    commands.push(third);
    commands.push(fourth);
    assert(command_views(commands@) =~= models);
    commands
}

impl<B> Session<B> {
    /// What no operation changes.
    pub open spec fn stays(self, before: Session<B>) -> bool {
        self.capabilities == before.capabilities && self.config == before.config
    }

    /// What changes only where a link key is to be kept: nothing that stays
    /// anyway, and not the bond store.
    pub open spec fn keeps(self, before: Session<B>) -> bool {
        self.stays(before) && self.host.bonds == before.host.bonds
    }

    fn send_commands(&mut self, commands: Vec<CommandPacket>)
        ensures
            final(self)@ == old(self)@.commanded(command_views(commands@)),
            final(self).keeps(*old(self)),
    {
        let ghost start = self@;
        let ghost all = command_packets(command_views(commands@));
        let mut index: usize = 0;
        assert(start.outgoing + all.take(0) =~= start.outgoing);
        while index < commands.len()
            invariant
                index <= commands@.len(),
                all == command_packets(command_views(commands@)),
                self@ == (SessionV { outgoing: start.outgoing + all.take(index as int), ..start }),
                self.keeps(*old(self)),
            decreases commands@.len() - index,
        {
            let ghost before = packet_views(self.outgoing@);
            let command = CommandPacket {
                opcode: commands[index].opcode,
                parameters: crate::bytes::copy_bytes(&commands[index].parameters),
            };
            self.outgoing.push_back(Packet::Command(command));
            assert(packet_views(self.outgoing@) =~= before.push(all[index as int]));
            assert(all.take(index + 1) =~= all.take(index as int).push(all[index as int]));
            assert(self@.outgoing =~= start.outgoing + all.take(index + 1));
            index = index + 1;
        }
        assert(all.take(index as int) =~= all);
    }

    /// Whether the session still takes requests.
    pub fn ensure_active(&self) -> (result: Result<(), Error>)
        ensures
            match (result, self@.inactive()) {
                (Ok(_), None) => true,
                (Err(error), Some(model)) => error@ == model,
                _ => false,
            },
    {
        if self.closed {
            Err(Error::new(ErrorKind::Closed))
        } else {
            match &self.terminal {
                Some(error) => Err(error.clone()),
                None => Ok(()),
            }
        }
    }

    fn end_connection_window(&mut self)
        ensures
            final(self)@ == old(self)@.window_ended(),
            final(self).keeps(*old(self)),
    {
        match self.window {
            ConnectionWindow::Idle => {},
            _ => {
                self.send_commands(hiding(&self.config));
                self.window = ConnectionWindow::Idle;
            },
        }
    }

    /// Ends the session with an error, which it returns from then on.
    pub fn record_terminal(&mut self, error: Error) -> (recorded: Error)
        ensures
            final(self)@ == (SessionV { terminal: Some(error@), ..old(self)@ }),
            recorded@ == error@,
            final(self).keeps(*old(self)),
    {
        self.terminal = Some(error.clone());
        error
    }

    /// Queues an event for the application. One too many ends the session.
    pub fn enqueue_event(&mut self, event: Event)
        ensures
            final(self)@ == old(self)@.event_queued(event@),
            final(self).keeps(*old(self)),
    {
        if self.terminal.is_some() {
            return;
        }
        assert(self@.pending_events.len() == self.pending_events@.len());
        if self.pending_events.len() == EVENT_QUEUE_CAPACITY {
            self.terminal = Some(Error::new(ErrorKind::EventQueueOverflow));
            return;
        }
        let ghost model = event@;
        self.pending_events.push_back(event);
        assert(event_views(self.pending_events@) =~= old(self)@.pending_events.push(model));
    }

    fn start_active_reconnect_control(&mut self) -> (result: Result<(), Error>)
        ensures
            final(self)@ == old(self)@.control_requested().0,
            session_agrees(result, old(self)@.control_requested().1),
            final(self).keeps(*old(self)),
    {
        if !self.active_reconnect || self.protocols.control.is_some() {
            return Ok(());
        }
        match self.host.connect_channel(HID_CONTROL_PSM, server_channel()) {
            Err(error) => Err(map_host_error(error)),
            Ok(cid) => {
                self.protocols.control = Some(ProtocolChannel { cid, open: false });
                Ok(())
            },
        }
    }

    fn start_active_reconnect_interrupt(&mut self) -> (result: Result<(), Error>)
        ensures
            final(self)@ == old(self)@.interrupt_requested().0,
            session_agrees(result, old(self)@.interrupt_requested().1),
            final(self).keeps(*old(self)),
    {
        if !self.active_reconnect || self.protocols.interrupt.is_some() {
            return Ok(());
        }
        match self.host.connect_channel(HID_INTERRUPT_PSM, server_channel()) {
            Err(error) => Err(map_host_error(error)),
            Ok(cid) => {
                self.protocols.interrupt = Some(ProtocolChannel { cid, open: false });
                Ok(())
            },
        }
    }

    fn on_channel_opened(&mut self, psm: u32, cid: u16) -> (result: Result<(), Error>)
        ensures
            final(self)@ == old(self)@.channel_opened(psm, cid).0,
            session_agrees(result, old(self)@.channel_opened(psm, cid).1),
            final(self).keeps(*old(self)),
    {
        reveal(SessionV::channel_opened);
        let (actual_psm, peer_mtu, open) = match self.host.channel_info(cid) {
            None => {
                return Err(Error::new(ErrorKind::ProtocolViolation));
            },
            Some(info) => info,
        };
        if !open || actual_psm != psm {
            return Err(Error::new(ErrorKind::ProtocolViolation));
        }
        if psm == SDP_PSM {
            if !self.protocols.sdp.contains(cid) {
                self.protocols.sdp.put(
                    cid,
                    HidSdpChannel::new(self.config.hid_service(), peer_mtu),
                );
            }
            Ok(())
        } else if psm == HID_CONTROL_PSM {
            let first_open = match self.protocols.control {
                None => true,
                Some(channel) => channel.cid == cid && !channel.open,
            };
            if first_open {
                self.protocols.control = Some(ProtocolChannel { cid, open: true });
                self.protocols.hidp.set_peer_mtu(Channel::Control, peer_mtu as usize);
                self.enqueue_event(Event::ChannelOpened { channel: Channel::Control });
            }
            self.start_active_reconnect_interrupt()
        } else if psm == HID_INTERRUPT_PSM {
            let first_open = match self.protocols.interrupt {
                None => true,
                Some(channel) => channel.cid == cid && !channel.open,
            };
            if first_open {
                self.protocols.interrupt = Some(ProtocolChannel { cid, open: true });
                self.protocols.hidp.set_peer_mtu(Channel::Interrupt, peer_mtu as usize);
                self.enqueue_event(Event::ChannelOpened { channel: Channel::Interrupt });
            }
            Ok(())
        } else {
            Err(Error::new(ErrorKind::ProtocolViolation))
        }
    }

    fn apply_output(&mut self, output: HostOutput) -> (result: Result<(), Error>)
        ensures
            final(self)@ == old(self)@.output_applied(output@).0,
            session_agrees(result, old(self)@.output_applied(output@).1),
            final(self).keeps(*old(self)),
    {
        reveal(SessionV::output_applied);
        match output {
            HostOutput::Command(command) => {
                let ghost model = command@;
                self.outgoing.push_back(Packet::Command(command));
                assert(packet_views(self.outgoing@) =~= old(self)@.outgoing.push(
                    PacketV::Command(model),
                ));
                Ok(())
            },
            HostOutput::Acl(packet) => {
                let ghost model = packet@;
                self.outgoing.push_back(Packet::Acl(packet));
                assert(packet_views(self.outgoing@) =~= old(self)@.outgoing.push(
                    PacketV::Acl(model),
                ));
                Ok(())
            },
            HostOutput::Event(SessionEvent::Connected { peer, connection_handle }) => {
                self.connection = Some((peer, connection_handle));
                self.window = ConnectionWindow::Connected;
                self.protocols = ProtocolState::default();
                self.send_commands(hiding(&self.config));
                self.enqueue_event(Event::Connected { peer });
                Ok(())
            },
            HostOutput::Event(SessionEvent::Disconnected { reason, .. }) => {
                self.connection = None;
                self.window = ConnectionWindow::Idle;
                self.protocols = ProtocolState::default();
                self.active_reconnect = false;
                self.enqueue_event(Event::Disconnected { reason: Some(reason) });
                Ok(())
            },
            HostOutput::Event(SessionEvent::Encrypted { .. }) => {
                self.start_active_reconnect_control()
            },
            HostOutput::Event(SessionEvent::ChannelOpened { psm, source_cid }) => {
                self.on_channel_opened(psm, source_cid)
            },
            HostOutput::Event(SessionEvent::BondStored { .. }) => Ok(()),
        }
    }

    fn drain_host_output(&mut self) -> (result: Result<(), Error>)
        ensures
            final(self)@ == old(self)@.output_drained().0,
            session_agrees(result, old(self)@.output_drained().1),
            final(self).keeps(*old(self)),
    {
        let ghost goal = self@.output_drained();
        let mut more: bool = true;
        while more
            invariant
                goal == old(self)@.output_drained(),
                more ==> goal == self@.output_drained(),
                !more ==> goal.0 == self@ && goal.1 is Ok,
                self.keeps(*old(self)),
            decreases
                    resets(self@.host.output),
                    self@.unknown_channels(),
                    self@.host.output.len() + if more {
                        1int
                    } else {
                        0int
                    },
        {
            let ghost before = self@;
            match self.host.pop_output() {
                None => {
                    assert(self@.host.output =~= before.host.output);
                    assert(self@ == before);
                    more = false;
                },
                Some(output) => {
                    assert(before.host.output.len() > 0);
                    assert(self@ == before.output_popped());
                    match self.apply_output(output) {
                        Err(error) => {
                            return Err(error);
                        },
                        Ok(()) => {
                            proof {
                                lemma_output_applied(before);
                            }
                        },
                    }
                },
            }
        }
        Ok(())
    }

    fn refresh_channel(&mut self, psm: u32, known: Option<ProtocolChannel>) -> (result: Result<
        (),
        Error,
    >)
        ensures
            final(self)@ == old(self)@.channel_refreshed(psm, known).0,
            session_agrees(result, old(self)@.channel_refreshed(psm, known).1),
            final(self).keeps(*old(self)),
    {
        match known {
            None => Ok(()),
            Some(channel) => {
                let open = match self.host.channel_info(channel.cid) {
                    Some((_, _, open)) => open,
                    None => false,
                };
                if !channel.open && open {
                    self.on_channel_opened(psm, channel.cid)
                } else {
                    Ok(())
                }
            },
        }
    }

    fn refresh_outgoing_channels(&mut self) -> (result: Result<(), Error>)
        ensures
            final(self)@ == old(self)@.channels_refreshed().0,
            session_agrees(result, old(self)@.channels_refreshed().1),
            final(self).keeps(*old(self)),
    {
        match self.refresh_channel(HID_CONTROL_PSM, self.protocols.control) {
            Err(error) => Err(error),
            Ok(()) => self.refresh_channel(HID_INTERRUPT_PSM, self.protocols.interrupt),
        }
    }

    fn send_sdu(&mut self, cid: u16, sdu: &[u8]) -> (result: Result<(), Error>)
        ensures
            final(self)@ == old(self)@.sdu_sent(cid, sdu@).0,
            session_agrees(result, old(self)@.sdu_sent(cid, sdu@).1),
            final(self).keeps(*old(self)),
    {
        match self.host.send_channel_sdu(cid, sdu) {
            Err(error) => Err(map_host_error(error)),
            Ok(()) => Ok(()),
        }
    }
}


/// How many SDUs of a channel wait to be taken.
spec fn waiting(manager: ChannelManagerV, cid: u16) -> nat {
    if !manager.channels.contains_key(cid) {
        0
    } else {
        manager.channels[cid].received.len() + match manager.channels[cid].ertm {
            Some(engine) => engine.received.len(),
            None => 0,
        }
    }
}

proof fn lemma_engine_sent(engine: ErtmEngineV, sdu: Seq<u8>)
    ensures
        engine.sdu_sent(sdu).0.received == engine.received,
{
}

#[verifier::spinoff_prover]
proof fn lemma_flushed_waiting(manager: ChannelManagerV, cid: u16, other: u16)
    ensures
        waiting(manager.flushed(cid).0, other) == waiting(manager, other),
{
    reveal(ChannelManagerV::flushed);
}

#[verifier::spinoff_prover]
proof fn lemma_waiting_sent(manager: ChannelManagerV, cid: u16, sdu: Seq<u8>, other: u16)
    ensures
        waiting(manager.sdu_sent(cid, sdu).0, other) == waiting(manager, other),
{
    reveal(ChannelManagerV::sdu_sent);
    if manager.has_engine(cid) {
        let channel = manager.channels[cid];
        let engine = channel.ertm->0;
        lemma_engine_sent(engine, sdu);
        let stepped = manager.with_channel(
            cid,
            ClassicChannelV { ertm: Some(engine.sdu_sent(sdu).0), ..channel },
        );
        lemma_flushed_waiting(stepped, cid, other);
    }
}

#[verifier::spinoff_prover]
proof fn lemma_backlog_sent(host: HostV, cid: u16, sdu: Seq<u8>, other: u16)
    ensures
        host.sdu_sent(cid, sdu).0.backlog(other) == host.backlog(other),
{
    if let Some(connection) = host.connection {
        lemma_waiting_sent(connection.channels, cid, sdu, other);
    }
}

proof fn lemma_backlog_taken(host: HostV, cid: u16)
    requires
        host.sdu_taken(cid).1 is Some,
    ensures
        host.sdu_taken(cid).0.backlog(cid) == host.backlog(cid) - 1,
        host.backlog(cid) > 0,
{
}

proof fn lemma_nothing_taken(host: HostV, cid: u16)
    requires
        host.sdu_taken(cid).1 is None,
    ensures
        host.sdu_taken(cid).0 == host,
{
    if host.has_channel(cid) {
        let channels = host.connection->0.channels;
        assert(channels.channels.insert(cid, channels.channels[cid]) =~= channels.channels);
    }
}

proof fn lemma_applied_backlog(session: SessionV, events: Seq<HidpBridgeEventV>, cid: u16)
    ensures
        session.bridge_events_applied(events).0.host.backlog(cid) == session.host.backlog(cid),
    decreases events.len(),
{
    if events.len() > 0 {
        lemma_applied_backlog(session, events.drop_last(), cid);
        let before = session.bridge_events_applied(events.drop_last()).0;
        match events.last() {
            HidpBridgeEventV::ControlResponse(response) => {
                if before.protocols.control is Some {
                    lemma_backlog_sent(
                        before.host,
                        before.protocols.control->0.cid,
                        response,
                        cid,
                    );
                }
            },
            _ => {},
        }
    }
}

proof fn lemma_served_keys(session: SessionV, cid: u16, count: nat)
    requires
        session.protocols.sdp.contains_key(cid),
    ensures
        session.sdp_served(cid, count).0.protocols.sdp.dom() =~= session.protocols.sdp.dom(),
    decreases count,
{
    let (host, request) = session.host.sdu_taken(cid);
    if count > 0 && request is Some {
        let taken = SessionV { host, ..session };
        let (next, result) = taken.request_answered(cid, request->0);
        assert(next.protocols.sdp.dom() =~= session.protocols.sdp.dom());
        if result is Ok {
            lemma_served_keys(next, cid, (count - 1) as nat);
        }
    }
}

proof fn lemma_sdp_skip(session: SessionV, from: int, to: int)
    requires
        0 <= from <= to <= 65536,
        forall|cid: u16| from <= cid < to ==> !session.protocols.sdp.contains_key(cid),
    ensures
        session.sdp_served_from(from) == session.sdp_served_from(to),
    decreases to - from,
{
    if from < to {
        assert(!session.protocols.sdp.contains_key(from as u16));
        lemma_sdp_skip(session, from + 1, to);
    }
}

proof fn lemma_refused_bridge_event(session: SessionV, events: Seq<HidpBridgeEventV>, count: int)
    requires
        0 <= count <= events.len(),
        session.bridge_events_applied(events.take(count)).1 is Err,
    ensures
        session.bridge_events_applied(events) == session.bridge_events_applied(events.take(count)),
    decreases events.len(),
{
    if count == events.len() {
        assert(events.take(count) =~= events);
    } else {
        assert(events.drop_last().take(count) =~= events.take(count));
        lemma_refused_bridge_event(session, events.drop_last(), count);
    }
}

proof fn lemma_refused_link_event(
    host: HostV,
    events: Seq<ClassicEvent>,
    reply: StoreReply,
    count: int,
)
    requires
        0 <= count <= events.len(),
        host.events_handled(events.take(count), reply).1 is Err,
    ensures
        host.events_handled(events, reply) == host.events_handled(events.take(count), reply),
    decreases events.len(),
{
    if count == events.len() {
        assert(events.take(count) =~= events);
    } else {
        assert(events.drop_last().take(count) =~= events.take(count));
        lemma_refused_link_event(host, events.drop_last(), reply, count);
    }
}

impl<B> Session<B> {
    fn answer_request(&mut self, cid: u16, request: &[u8]) -> (result: Result<(), Error>)
        requires
            old(self)@.protocols.sdp.contains_key(cid),
        ensures
            final(self)@ == old(self)@.request_answered(cid, request@).0,
            session_agrees(result, old(self)@.request_answered(cid, request@).1),
            final(self).keeps(*old(self)),
    {
        let answer = match self.protocols.sdp.get_mut(cid) {
            None => None,
            Some(channel) => channel.handle_sdu(request),
        };
        match answer {
            None => Ok(()),
            Some(response) => self.send_sdu(cid, &response),
        }
    }

    fn serve_sdp(&mut self, cid: u16) -> (result: Result<(), Error>)
        requires
            old(self)@.protocols.sdp.contains_key(cid),
        ensures
            final(self)@ == old(self)@.sdp_served(cid, old(self)@.host.backlog(cid)).0,
            session_agrees(
                result,
                old(self)@.sdp_served(cid, old(self)@.host.backlog(cid)).1,
            ),
            final(self).keeps(*old(self)),
    {
        let ghost goal = self@.sdp_served(cid, self@.host.backlog(cid));
        let mut more: bool = true;
        while more
            invariant
                goal == old(self)@.sdp_served(cid, old(self)@.host.backlog(cid)),
                self@.protocols.sdp.contains_key(cid),
                more ==> goal == self@.sdp_served(cid, self@.host.backlog(cid)),
                !more ==> goal.0 == self@ && goal.1 is Ok,
                self.keeps(*old(self)),
            decreases
                    self@.host.backlog(cid) + if more {
                        1int
                    } else {
                        0int
                    },
        {
            let ghost before = self@;
            match self.host.take_channel_sdu(cid) {
                None => {
                    proof {
                        lemma_nothing_taken(before.host, cid);
                    }
                    assert(self@ == before);
                    more = false;
                },
                Some(request) => {
                    proof {
                        lemma_backlog_taken(before.host, cid);
                        let server = crate::hid_service::sdu_answered(
                            self@.protocols.sdp[cid],
                            request@,
                        );
                        if server.1 is Some {
                            lemma_backlog_sent(self@.host, cid, server.1->0, cid);
                        }
                    }
                    match self.answer_request(cid, &request) {
                        Err(error) => {
                            return Err(error);
                        },
                        Ok(()) => {},
                    }
                },
            }
        }
        Ok(())
    }

    fn serve_all_sdp(&mut self) -> (result: Result<(), Error>)
        ensures
            final(self)@ == old(self)@.sdp_served_from(0).0,
            session_agrees(result, old(self)@.sdp_served_from(0).1),
            final(self).keeps(*old(self)),
    {
        let ghost goal = self@.sdp_served_from(0);
        let cids = self.protocols.sdp.keys();
        let mut index: usize = 0;
        let ghost mut next: int = 0;
        while index < cids.len()
            invariant
                index <= cids@.len(),
                goal == old(self)@.sdp_served_from(0),
                goal == self@.sdp_served_from(next),
                forall|i: int, j: int| 0 <= i < j < cids@.len() ==> cids@[i] < cids@[j],
                forall|cid: u16| #[trigger]
                    self@.protocols.sdp.contains_key(cid) <==> cids@.contains(cid),
                0 <= next <= 65536,
                index > 0 ==> next == cids@[index - 1] + 1,
                index == 0 ==> next == 0,
                self.keeps(*old(self)),
            decreases cids@.len() - index,
        {
            let cid: u16 = cids[index];
            let ghost before = self@;
            proof {
                assert forall|other: u16| next <= other < cid implies !(
                #[trigger] before.protocols.sdp.contains_key(other)) by {
                    if before.protocols.sdp.contains_key(other) {
                        let i = choose|i: int| 0 <= i < cids@.len() && cids@[i] == other;
                        assert(i < index);
                        assert(i == index - 1 || cids@[i] < cids@[index - 1]);
                    }
                }
                if index > 0 {
                    assert(cids@[index - 1] < cids@[index as int]);
                }
                lemma_sdp_skip(before, next, cid as int);
                assert(cids@.contains(cid));
                assert(before.protocols.sdp.contains_key(cid));
                lemma_served_keys(before, cid, before.host.backlog(cid));
                next = cid + 1;
            }
            match self.serve_sdp(cid) {
                Err(error) => {
                    return Err(error);
                },
                Ok(()) => {},
            }
            proof {
                assert forall|other: u16| #[trigger]
                    self@.protocols.sdp.contains_key(other) <==> cids@.contains(other) by {
                    assert(self@.protocols.sdp.dom().contains(other)
                        <==> before.protocols.sdp.dom().contains(other));
                    assert(before.protocols.sdp.contains_key(other) <==> cids@.contains(other));
                }
            }
            index = index + 1;
        }
        proof {
            let end = self@;
            assert forall|other: u16| next <= other < 65536 implies !(
            #[trigger] end.protocols.sdp.contains_key(other)) by {
                if end.protocols.sdp.contains_key(other) {
                    let i = choose|i: int| 0 <= i < cids@.len() && cids@[i] == other;
                    assert(i == index - 1 || cids@[i] < cids@[index - 1]);
                }
            }
            lemma_sdp_skip(end, next, 65536);
        }
        Ok(())
    }

    fn apply_hidp_event(&mut self, event: &HidpBridgeEvent) -> (result: Result<(), Error>)
        ensures
            final(self)@ == old(self)@.bridge_event_applied(event@).0,
            session_agrees(result, old(self)@.bridge_event_applied(event@).1),
            final(self).keeps(*old(self)),
    {
        match event {
            HidpBridgeEvent::Output { channel, payload } => {
                self.enqueue_event(
                    Event::HidOutput {
                        channel: *channel,
                        payload: crate::bytes::copy_bytes(payload),
                    },
                );
                Ok(())
            },
            HidpBridgeEvent::ControlResponse(response) => match self.protocols.control {
                Some(control) => if control.open {
                    self.send_sdu(control.cid, response)
                } else {
                    Ok(())
                },
                None => Ok(()),
            },
            _ => Ok(()),
        }
    }

    fn apply_hidp_events(&mut self, events: Vec<HidpBridgeEvent>) -> (result: Result<(), Error>)
        ensures
            final(self)@ == old(self)@.bridge_events_applied(bridge_views(events@)).0,
            session_agrees(result, old(self)@.bridge_events_applied(bridge_views(events@)).1),
            final(self).keeps(*old(self)),
    {
        let ghost models = bridge_views(events@);
        let ghost start = self@;
        let mut index: usize = 0;
        assert(models.take(0) =~= Seq::<HidpBridgeEventV>::empty());
        while index < events.len()
            invariant
                index <= events@.len(),
                models == bridge_views(events@),
                start == old(self)@,
                start.bridge_events_applied(models.take(index as int)) == (
                    self@,
                    Ok::<(), ErrorV>(()),
                ),
                self.keeps(*old(self)),
            decreases events@.len() - index,
        {
            proof {
                assert(models.take(index + 1).drop_last() =~= models.take(index as int));
                assert(models.take(index + 1).last() == models[index as int]);
            }
            match self.apply_hidp_event(&events[index]) {
                Err(error) => {
                    proof {
                        lemma_refused_bridge_event(start, models, index + 1);
                    }
                    return Err(error);
                },
                Ok(()) => {},
            }
            index = index + 1;
        }
        assert(models.take(index as int) =~= models);
        Ok(())
    }

    fn take_message(&mut self, channel: Channel, cid: u16, message: &[u8]) -> (result: Result<
        (),
        Error,
    >)
        ensures
            final(self)@ == old(self)@.message_taken(channel, cid, message@).0,
            session_agrees(result, old(self)@.message_taken(channel, cid, message@).1),
            final(self).keeps(*old(self)),
    {
        match self.protocols.hidp.handle(channel, message) {
            Ok(events) => self.apply_hidp_events(events),
            Err(HidpBridgeError::Malformed { channel: Channel::Control }) => {
                match self.protocols.hidp.invalid_parameter_response() {
                    Ok(response) => self.send_sdu(cid, &response),
                    Err(_) => Ok(()),
                }
            },
            Err(_) => Ok(()),
        }
    }

    fn serve_hid(&mut self, channel: Channel, cid: u16) -> (result: Result<(), Error>)
        ensures
            final(self)@ == old(self)@.hid_served(channel, cid, old(self)@.host.backlog(cid)).0,
            session_agrees(
                result,
                old(self)@.hid_served(channel, cid, old(self)@.host.backlog(cid)).1,
            ),
            final(self).keeps(*old(self)),
    {
        let ghost goal = self@.hid_served(channel, cid, self@.host.backlog(cid));
        let mut more: bool = true;
        while more
            invariant
                goal == old(self)@.hid_served(channel, cid, old(self)@.host.backlog(cid)),
                more ==> goal == self@.hid_served(channel, cid, self@.host.backlog(cid)),
                !more ==> goal.0 == self@ && goal.1 is Ok,
                self.keeps(*old(self)),
            decreases
                    self@.host.backlog(cid) + if more {
                        1int
                    } else {
                        0int
                    },
        {
            let ghost before = self@;
            match self.host.take_channel_sdu(cid) {
                None => {
                    proof {
                        lemma_nothing_taken(before.host, cid);
                    }
                    assert(self@ == before);
                    more = false;
                },
                Some(message) => {
                    proof {
                        lemma_backlog_taken(before.host, cid);
                        lemma_message_backlog(self@, channel, cid, message@);
                    }
                    match self.take_message(channel, cid, &message) {
                        Err(error) => {
                            return Err(error);
                        },
                        Ok(()) => {},
                    }
                },
            }
        }
        Ok(())
    }

    fn serve_hid_channel(&mut self, channel: Channel, known: Option<ProtocolChannel>) -> (result:
        Result<(), Error>)
        ensures
            final(self)@ == old(self)@.hid_channel_served(channel, known).0,
            session_agrees(result, old(self)@.hid_channel_served(channel, known).1),
            final(self).keeps(*old(self)),
    {
        match known {
            Some(protocol) => if protocol.open {
                self.serve_hid(channel, protocol.cid)
            } else {
                Ok(())
            },
            None => Ok(()),
        }
    }

    fn process_protocol_input(&mut self) -> (result: Result<(), Error>)
        ensures
            final(self)@ == old(self)@.input_processed().0,
            session_agrees(result, old(self)@.input_processed().1),
            final(self).keeps(*old(self)),
    {
        reveal(SessionV::input_processed);
        match self.serve_all_sdp() {
            Err(error) => {
                return Err(error);
            },
            Ok(()) => {},
        }
        let control = self.protocols.control;
        let interrupt = self.protocols.interrupt;
        match self.serve_hid_channel(Channel::Control, control) {
            Err(error) => Err(error),
            Ok(()) => self.serve_hid_channel(Channel::Interrupt, interrupt),
        }
    }

    fn handle_data(&mut self, packet: AclPacket) -> (result: Result<(), Error>)
        ensures
            final(self)@ == old(self)@.data_taken(packet@).0,
            session_agrees(result, old(self)@.data_taken(packet@).1),
            final(self).keeps(*old(self)),
    {
        match self.host.process_acl(packet) {
            Err(error) => {
                return Err(map_host_error(error));
            },
            Ok(()) => {},
        }
        match self.drain_host_output() {
            Err(error) => {
                return Err(error);
            },
            Ok(()) => {},
        }
        match self.refresh_outgoing_channels() {
            Err(error) => {
                return Err(error);
            },
            Ok(()) => {},
        }
        match self.process_protocol_input() {
            Err(error) => {
                return Err(error);
            },
            Ok(()) => {},
        }
        self.drain_host_output()
    }
}

proof fn lemma_message_backlog(session: SessionV, channel: Channel, cid: u16, message: Seq<u8>)
    ensures
        session.message_taken(channel, cid, message).0.host.backlog(cid) == session.host.backlog(
            cid,
        ),
{
    let mtu = session.protocols.hidp.control_peer_mtu;
    match crate::hid_service::message_handled(channel, message, mtu) {
        Ok(events) => {
            lemma_applied_backlog(session, events, cid);
        },
        Err(_) => {
            let response = crate::hid_service::written(
                Channel::Control,
                crate::hidp::MessageV::Handshake(
                    crate::hidp::Handshake(crate::hidp::Handshake::ERR_INVALID_PARAMETER),
                ),
                mtu,
            );
            if response is Ok {
                lemma_backlog_sent(session.host, cid, response->Ok_0, cid);
            }
        },
    }
}


/// Whether a store is asked about an event.
spec fn asks_store(event: ClassicEvent) -> bool {
    event is LinkKeyRequest || event is LinkKeyNotification
}

proof fn lemma_store_not_asked(host: HostV, event: ClassicEvent, left: StoreReply, right: StoreReply)
    requires
        !asks_store(event),
    ensures
        host.event_handled(event, left) == host.event_handled(event, right),
{
}

proof fn lemma_one_question(event: EventPacketV)
    requires
        classic_events(event) is Ok,
    ensures
        ({
            let events = classic_events(event)->Ok_0;
            events.len() <= 1 || forall|i: int|
                0 <= i < events.len() ==> !asks_store(#[trigger] events[i])
        }),
{
}

/// What came in: a packet of the controller, nothing in time, or the end of the
/// source.
pub enum Received {
    Packet(Packet),
    Nothing,
    Failed(Error),
}

impl View for Received {
    type V = ReceivedV;

    open spec fn view(&self) -> ReceivedV {
        match *self {
            Received::Packet(packet) => ReceivedV::Packet(packet@),
            Received::Nothing => ReceivedV::Nothing,
            Received::Failed(error) => ReceivedV::Failed(error@),
        }
    }
}

pub open spec fn optional_events(events: Option<Vec<Event>>) -> Option<Seq<EventV>> {
    match events {
        Some(events) => Some(event_views(events@)),
        None => None,
    }
}

pub open spec fn optional_commands(commands: Option<Vec<CommandPacket>>) -> Option<
    Seq<CommandPacketV>,
> {
    match commands {
        Some(commands) => Some(command_views(commands@)),
        None => None,
    }
}

/// The peers that listing the bonds of a store gave.
pub open spec fn listed_peers(
    bonds: Result<Seq<(BluetoothAddress, ClassicBondV)>, BondStoreError>,
) -> Result<Seq<BluetoothAddress>, BondStoreError> {
    match bonds {
        Ok(bonds) => Ok(bonds.map_values(|bond: (BluetoothAddress, ClassicBondV)| bond.0)),
        Err(error) => Err(error),
    }
}

/// A plan to connect and the one its model gives.
pub open spec fn plan_agrees(
    result: Result<Option<(BluetoothAddress, Vec<CommandPacket>)>, Error>,
    expected: Result<Option<(BluetoothAddress, Seq<CommandPacketV>)>, ErrorV>,
) -> bool {
    match (result, expected) {
        (Ok(Some((peer, commands))), Ok(Some((model, models)))) => peer == model && command_views(
            commands@,
        ) == models,
        (Ok(None), Ok(None)) => true,
        (Err(error), Err(model)) => error@ == model,
        _ => false,
    }
}

impl<B> Session<B> {
    fn screen_request(&mut self, parameters: &[u8]) -> (verdict: Option<Result<(), Error>>)
        ensures
            final(self)@ == old(self)@.request_screened(parameters@).0,
            verdict_agrees(verdict, old(self)@.request_screened(parameters@).1),
            final(self).keeps(*old(self)),
    {
        match require_len(parameters, 10, "connection request") {
            Err(error) => {
                return Some(Err(error));
            },
            Ok(()) => {},
        }
        let peer = address_at(parameters, 0);
        let admitted = match &self.window {
            ConnectionWindow::Pairing { peer: latched } => match latched {
                None => true,
                Some(expected) => expected.same(&peer),
            },
            ConnectionWindow::Reconnecting { peer: expected } => expected.same(&peer),
            _ => false,
        };
        if parameters[9] == 1 && admitted {
            match self.window {
                ConnectionWindow::Pairing { peer: None } => {
                    self.window = ConnectionWindow::Pairing { peer: Some(peer) };
                },
                _ => {},
            }
            None
        } else {
            let mut rejection: Vec<u8> = Vec::new();
            append_bytes(&mut rejection, peer.as_le_bytes());
            rejection.push(CONNECTION_REJECTED_UNACCEPTABLE_ADDRESS);
            assert(rejection@ =~= peer@.bytes_le + seq![CONNECTION_REJECTED_UNACCEPTABLE_ADDRESS]);
            self.send_commands(
                one_command(
                    CommandPacket {
                        opcode: HCI_REJECT_CONNECTION_REQUEST,
                        parameters: rejection,
                    },
                ),
            );
            Some(Ok(()))
        }
    }

    fn screen_completion(&mut self, parameters: &[u8]) -> (verdict: Option<Result<(), Error>>)
        ensures
            final(self)@ == old(self)@.completion_screened(parameters@).0,
            verdict_agrees(verdict, old(self)@.completion_screened(parameters@).1),
            final(self).keeps(*old(self)),
    {
        broadcast use vstd::std_specs::btree::group_btree_axioms;

        match require_len(parameters, 11, "connection complete") {
            Err(error) => {
                return Some(Err(error));
            },
            Ok(()) => {},
        }
        let status: u8 = parameters[0];
        let handle: u16 = read_le16(parameters, 1);
        let peer = address_at(parameters, 3);
        if status != 0 {
            self.end_connection_window();
            self.active_reconnect = false;
            self.enqueue_event(Event::Disconnected { reason: Some(status) });
            return None;
        }
        let expected = match &self.window {
            ConnectionWindow::Pairing { peer: Some(expected) } => expected.same(&peer),
            ConnectionWindow::Reconnecting { peer: expected } => expected.same(&peer),
            _ => false,
        };
        if !expected || parameters[9] != 1 {
            self.send_commands(one_command(disconnect_with(handle, AUTHENTICATION_FAILURE)));
            self.rejected_connections.insert(handle);
            Some(Ok(()))
        } else {
            None
        }
    }

    fn screen_end(&mut self, parameters: &[u8]) -> (verdict: Option<Result<(), Error>>)
        ensures
            final(self)@ == old(self)@.end_screened(parameters@).0,
            verdict_agrees(verdict, old(self)@.end_screened(parameters@).1),
            final(self).keeps(*old(self)),
    {
        broadcast use vstd::std_specs::btree::group_btree_axioms;

        match require_len(parameters, 4, "disconnection complete") {
            Err(error) => {
                return Some(Err(error));
            },
            Ok(()) => {},
        }
        let handle: u16 = read_le16(parameters, 1);
        if parameters[0] == 0 && self.rejected_connections.remove(&handle) {
            Some(Ok(()))
        } else {
            assert(self@.rejected =~= old(self)@.rejected);
            None
        }
    }

    fn screen(&mut self, event: &EventPacket) -> (verdict: Option<Result<(), Error>>)
        ensures
            final(self)@ == old(self)@.screened(event@).0,
            verdict_agrees(verdict, old(self)@.screened(event@).1),
            final(self).keeps(*old(self)),
    {
        if event.event_code == EVENT_CONNECTION_REQUEST {
            self.screen_request(event.parameters.as_slice())
        } else if event.event_code == EVENT_CONNECTION_COMPLETE {
            self.screen_completion(event.parameters.as_slice())
        } else if event.event_code == EVENT_DISCONNECTION_COMPLETE {
            self.screen_end(event.parameters.as_slice())
        } else {
            None
        }
    }
}

/// A verdict and the one its model gives.
pub open spec fn verdict_agrees(
    verdict: Option<Result<(), Error>>,
    expected: Option<Result<(), ErrorV>>,
) -> bool {
    match (verdict, expected) {
        (None, None) => true,
        (Some(result), Some(model)) => session_agrees(result, model),
        _ => false,
    }
}

/// Whether there is one event, which brings a link key that is to be kept.
pub open spec fn sole_key(events: Seq<ClassicEvent>) -> bool {
    events.len() == 1 && events[0] is LinkKeyNotification
}

/// The event by which a packet brings a link key that is to be kept.
pub open spec fn key_event(packet: PacketV) -> Option<ClassicEvent> {
    match packet {
        PacketV::Event(event) => match classic_events(event) {
            Ok(events) => if sole_key(events) {
                Some(events[0])
            } else {
                None
            },
            Err(_) => None,
        },
        _ => None,
    }
}

/// Whether a packet brings a link key that is to be kept.
pub open spec fn brings_key(packet: PacketV) -> bool {
    key_event(packet) is Some
}

/// Whether a reply may be what a store gave about a packet.
pub open spec fn store_answered<B: BondStore>(
    store: B,
    packet: PacketV,
    reply: StoreReply,
) -> bool {
    match packet {
        PacketV::Event(event) => match classic_events(event) {
            Ok(events) => forall|i: int|
                0 <= i < events.len() ==> store_asked(store, #[trigger] events[i], reply),
            Err(_) => true,
        },
        _ => true,
    }
}

/// Whether a reply may be what the store of a session gave about something that
/// came in. A session that takes no more requests asks nothing.
pub open spec fn store_heard<B: BondStore>(
    session: Session<B>,
    received: ReceivedV,
    reply: StoreReply,
) -> bool {
    match received {
        ReceivedV::Packet(packet) => session@.inactive() is None ==> store_answered(
            session.host.bonds,
            packet,
            reply,
        ),
        _ => true,
    }
}

/// The event by which something that came in brings a session a link key. A
/// session that takes no more requests keeps none.
pub open spec fn key_heard<B>(session: Session<B>, received: ReceivedV) -> Option<ClassicEvent> {
    match received {
        ReceivedV::Packet(packet) => if session@.inactive() is None {
            key_event(packet)
        } else {
            None
        },
        _ => None,
    }
}

proof fn lemma_screened_ask_nothing(session: SessionV, event: EventPacketV)
    requires
        session.screened(event).1 is Some,
    ensures
        classic_events(event) is Ok ==> forall|i: int|
            0 <= i < classic_events(event)->Ok_0.len() ==> !asks_store(
                #[trigger] classic_events(event)->Ok_0[i],
            ),
        !brings_key(PacketV::Event(event)),
{
}

/// Hands the events of one packet to the host, up to the first that fails.
#[verifier::spinoff_prover]
fn handle_all<B: BondStore>(host: &mut ClassicHost<B>, events: &Vec<ClassicEvent>) -> (result: Result<
    (),
    HostError,
>)
    requires
        events@.len() <= 1 || forall|i: int|
            0 <= i < events@.len() ==> !asks_store(#[trigger] events@[i]),
    ensures
        exists|reply: StoreReply|
            final(host)@ == (#[trigger] old(host)@.events_handled(events@, reply)).0
                && host_agrees(result, old(host)@.events_handled(events@, reply).1) && (forall|
                i: int,
            |
                0 <= i < events@.len() ==> store_asked(
                    old(host).bonds,
                    #[trigger] events@[i],
                    reply,
                )) && (sole_key(events@) ==> exists|asked: &mut B|
                *asked == old(host).bonds && *final(asked) == final(host).bonds
                    && #[trigger] key_handed(asked, events@[0], reply)),
        !sole_key(events@) ==> final(host).bonds == old(host).bonds,
{
    let ghost start = host@;
    let ghost all = events@;
    let ghost silent = StoreReply { loaded: Ok(None), stored: Ok(()) };
    let mut index: usize = 0;
    assert(start.events_handled(all.take(0), silent) == (host@, Ok::<(), HostErrorV>(())));
    while index < events.len()
        invariant
            index <= events@.len(),
            all == events@,
            start == old(host)@,
            all.len() <= 1 || forall|i: int|
                0 <= i < all.len() ==> !asks_store(#[trigger] all[i]),
            exists|reply: StoreReply|
                #[trigger] start.events_handled(all.take(index as int), reply) == (
                    host@,
                    Ok::<(), HostErrorV>(()),
                ) && (forall|i: int|
                    0 <= i < index ==> store_asked(old(host).bonds, #[trigger] all[i], reply)) && (
                sole_key(all) && index > 0 ==> exists|asked: &mut B|
                    *asked == old(host).bonds && *final(asked) == host.bonds
                        && #[trigger] key_handed(asked, all[0], reply)),
            !(sole_key(all) && index > 0) ==> host.bonds == old(host).bonds,
        decreases events@.len() - index,
    {
        let ghost before = host@;
        let ghost store = host.bonds;
        let ghost current = all[index as int];
        let handled = host.handle_event(events[index]);
        proof {
            let given = choose|given: StoreReply|
                host@ == (#[trigger] before.event_handled(current, given)).0 && host_agrees(
                    handled,
                    before.event_handled(current, given).1,
                ) && store_asked(store, current, given) && (current
                    is LinkKeyNotification ==> exists|asked: &mut B|
                    *asked == store && *final(asked) == host.bonds && #[trigger] key_handed(
                        asked,
                        current,
                        given,
                    ));
            let earlier = choose|reply: StoreReply|
                #[trigger] start.events_handled(all.take(index as int), reply) == (
                    before,
                    Ok::<(), HostErrorV>(()),
                ) && (forall|i: int|
                    0 <= i < index ==> store_asked(old(host).bonds, #[trigger] all[i], reply));
            let reply = if asks_store(current) {
                given
            } else {
                earlier
            };
            if !asks_store(current) {
                lemma_store_not_asked(before, current, given, earlier);
            } else {
                assert(index == 0);
                assert(all.take(0) =~= Seq::<ClassicEvent>::empty());
            }
            assert(all.take(index + 1).drop_last() =~= all.take(index as int));
            assert(start.events_handled(all.take(index as int), reply) == (
                before,
                Ok::<(), HostErrorV>(()),
            ));
            assert(start.events_handled(all.take(index + 1), reply) == before.event_handled(
                current,
                reply,
            ));
            assert(forall|i: int|
                0 <= i < all.len() && i > index ==> store_asked(
                    old(host).bonds,
                    #[trigger] all[i],
                    reply,
                ));
            if handled is Err {
                lemma_refused_link_event(start, all, reply, index + 1);
            }
        }
        match handled {
            Err(error) => {
                return Err(error);
            },
            Ok(()) => {},
        }
        index = index + 1;
    }
    assert(all.take(index as int) =~= all);
    Ok(())
}

impl<B: BondStore> Session<B> {
    fn handle_link_events(&mut self, event: &EventPacket) -> (result: Result<(), Error>)
        ensures
            exists|reply: StoreReply|
                final(self)@ == (#[trigger] old(self)@.link_events_taken(event@, reply)).0
                    && session_agrees(result, old(self)@.link_events_taken(event@, reply).1)
                    && store_answered(old(self).host.bonds, PacketV::Event(event@), reply) && (
                key_event(PacketV::Event(event@)) matches Some(key) ==> exists|asked: &mut B|
                    *asked == old(self).host.bonds && *final(asked) == final(self).host.bonds
                        && #[trigger] key_handed(asked, key, reply)),
            final(self).stays(*old(self)),
            !brings_key(PacketV::Event(event@)) ==> final(self).keeps(*old(self)),
    {
        let ghost start = self@;
        let ghost silent = StoreReply { loaded: Ok(None), stored: Ok(()) };
        let events = match decode_classic_event(event) {
            Err(error) => {
                assert(self@ == start.link_events_taken(event@, silent).0);
                return Err(error);
            },
            Ok(events) => events,
        };
        proof {
            lemma_one_question(event@);
        }
        let handled = handle_all(&mut self.host, &events);
        let ghost next = self@;
        let ghost bonds = self.host.bonds;
        assert(next == SessionV { host: self.host@, ..start });
        let result = match handled {
            Err(error) => Err(map_host_error(error)),
            Ok(()) => self.drain_host_output(),
        };
        proof {
            let reply = choose|reply: StoreReply|
                next.host == (#[trigger] start.host.events_handled(events@, reply)).0
                    && host_agrees(handled, start.host.events_handled(events@, reply).1) && (forall|
                    i: int,
                |
                    0 <= i < events@.len() ==> store_asked(
                        old(self).host.bonds,
                        #[trigger] events@[i],
                        reply,
                    )) && (sole_key(events@) ==> exists|asked: &mut B|
                    *asked == old(self).host.bonds && *final(asked) == bonds
                        && #[trigger] key_handed(asked, events@[0], reply));
            assert(self@ == start.link_events_taken(event@, reply).0);
        }
        result
    }

    fn handle_event(&mut self, event: EventPacket) -> (result: Result<(), Error>)
        ensures
            exists|reply: StoreReply|
                final(self)@ == (#[trigger] old(self)@.event_taken(event@, reply)).0
                    && session_agrees(result, old(self)@.event_taken(event@, reply).1)
                    && store_answered(old(self).host.bonds, PacketV::Event(event@), reply) && (
                key_event(PacketV::Event(event@)) matches Some(key) ==> exists|asked: &mut B|
                    *asked == old(self).host.bonds && *final(asked) == final(self).host.bonds
                        && #[trigger] key_handed(asked, key, reply)),
            final(self).stays(*old(self)),
            !brings_key(PacketV::Event(event@)) ==> final(self).keeps(*old(self)),
    {
        let ghost start = self@;
        match self.screen(&event) {
            Some(result) => {
                proof {
                    lemma_screened_ask_nothing(start, event@);
                }
                let ghost reply = StoreReply { loaded: Ok(None), stored: Ok(()) };
                assert(self@ == start.event_taken(event@, reply).0);
                result
            },
            None => {
                let ghost screened = self@;
                let result = self.handle_link_events(&event);
                proof {
                    let reply = choose|reply: StoreReply|
                        self@ == (#[trigger] screened.link_events_taken(event@, reply)).0
                            && session_agrees(
                            result,
                            screened.link_events_taken(event@, reply).1,
                        ) && store_answered(old(self).host.bonds, PacketV::Event(event@), reply) && (
                key_event(PacketV::Event(event@)) matches Some(key) ==> exists|asked: &mut B|
                            *asked == old(self).host.bonds && *final(asked) == self.host.bonds
                                && #[trigger] key_handed(asked, key, reply));
                    assert(self@ == start.event_taken(event@, reply).0);
                }
                result
            },
        }
    }

    /// Takes a packet of the controller.
    pub fn handle_packet(&mut self, packet: Packet) -> (result: Result<(), Error>)
        ensures
            exists|reply: StoreReply|
                final(self)@ == (#[trigger] old(self)@.packet_taken(packet@, reply)).0
                    && session_agrees(result, old(self)@.packet_taken(packet@, reply).1)
                    && store_answered(old(self).host.bonds, packet@, reply) && (
                key_event(packet@) matches Some(key) ==> exists|asked: &mut B|
                    *asked == old(self).host.bonds && *final(asked) == final(self).host.bonds
                        && #[trigger] key_handed(asked, key, reply)),
            final(self).stays(*old(self)),
            !brings_key(packet@) ==> final(self).keeps(*old(self)),
    {
        let ghost start = self@;
        let ghost model = packet@;
        let ghost silent = StoreReply { loaded: Ok(None), stored: Ok(()) };
        match packet {
            Packet::Event(event) => {
                let ghost inner = event@;
                let result = self.handle_event(event);
                proof {
                    let reply = choose|reply: StoreReply|
                        self@ == (#[trigger] start.event_taken(inner, reply)).0
                            && session_agrees(result, start.event_taken(inner, reply).1)
                            && store_answered(old(self).host.bonds, model, reply) && (
                key_event(model) matches Some(key) ==> exists|asked: &mut B|
                            *asked == old(self).host.bonds && *final(asked) == self.host.bonds
                                && #[trigger] key_handed(asked, key, reply));
                    assert(self@ == start.packet_taken(model, reply).0);
                }
                result
            },
            Packet::Acl(data) => {
                let result = self.handle_data(data);
                assert(self@ == start.packet_taken(model, silent).0);
                result
            },
            Packet::Command(_) => {
                assert(self@ == start.packet_taken(model, silent).0);
                Err(Error::new(ErrorKind::ProtocolViolation))
            },
        }
    }

    /// Takes a packet of the controller while the application waits. An error
    /// ends the session.
    pub fn handle_polled_packet(&mut self, packet: Packet) -> (result: Result<(), Error>)
        ensures
            exists|reply: StoreReply|
                final(self)@ == (#[trigger] old(self)@.packet_polled(packet@, reply)).0
                    && session_agrees(result, old(self)@.packet_polled(packet@, reply).1)
                    && store_answered(old(self).host.bonds, packet@, reply) && (
                key_event(packet@) matches Some(key) ==> exists|asked: &mut B|
                    *asked == old(self).host.bonds && *final(asked) == final(self).host.bonds
                        && #[trigger] key_handed(asked, key, reply)),
            final(self).stays(*old(self)),
            !brings_key(packet@) ==> final(self).keeps(*old(self)),
    {
        let ghost start = self@;
        let ghost model = packet@;
        let handled = self.handle_packet(packet);
        let ghost reply = choose|reply: StoreReply|
            self@ == (#[trigger] start.packet_taken(model, reply)).0 && session_agrees(
                handled,
                start.packet_taken(model, reply).1,
            ) && store_answered(old(self).host.bonds, model, reply) && (
                key_event(model) matches Some(key) ==> exists|asked: &mut B|
                            *asked == old(self).host.bonds && *final(asked) == self.host.bonds
                                && #[trigger] key_handed(asked, key, reply));
        match handled {
            Err(error) => {
                let recorded = self.record_terminal(error);
                assert(self@ == start.packet_polled(model, reply).0);
                Err(recorded)
            },
            Ok(()) => {
                assert(self@ == start.packet_polled(model, reply).0);
                match &self.terminal {
                    Some(error) => Err(error.clone()),
                    None => Ok(()),
                }
            },
        }
    }

    /// Hands one thing that came in to the session, on behalf of the application
    /// that polls. The application gets its events once nothing more came in.
    ///
    /// # Errors
    ///
    /// Returns [`Error`] after a terminal source, protocol, or storage failure.
    pub fn poll(&mut self, received: Received) -> (result: Result<Option<Vec<Event>>, Error>)
        ensures
            exists|reply: StoreReply|
                final(self)@ == (#[trigger] old(self)@.polled(received@, reply)).0 && match (
                    result,
                    old(self)@.polled(received@, reply).1,
                ) {
                    (Ok(events), Ok(models)) => optional_events(events) == models,
                    (Err(error), Err(model)) => error@ == model,
                    _ => false,
                } && store_heard(*old(self), received@, reply) && (key_heard(*old(self), received@)
                    matches Some(key) ==> exists|asked: &mut B|
                    *asked == old(self).host.bonds && *final(asked) == final(self).host.bonds
                        && #[trigger] key_handed(asked, key, reply)),
            final(self).stays(*old(self)),
            key_heard(*old(self), received@) is None ==> final(self).keeps(*old(self)),
    {
        let ghost start = self@;
        let ghost model = received@;
        let ghost silent = StoreReply { loaded: Ok(None), stored: Ok(()) };
        match self.ensure_active() {
            Err(error) => {
                assert(self@ == start.polled(model, silent).0);
                return Err(error);
            },
            Ok(()) => {},
        }
        match received {
            Received::Packet(packet) => {
                let ghost inner = packet@;
                let handled = self.handle_polled_packet(packet);
                proof {
                    let reply = choose|reply: StoreReply|
                        self@ == (#[trigger] start.packet_polled(inner, reply)).0
                            && session_agrees(handled, start.packet_polled(inner, reply).1)
                            && store_answered(old(self).host.bonds, inner, reply) && (
                key_event(inner) matches Some(key) ==> exists|asked: &mut B|
                            *asked == old(self).host.bonds && *final(asked) == self.host.bonds
                                && #[trigger] key_handed(asked, key, reply));
                    assert(self@ == start.polled(model, reply).0);
                }
                match handled {
                    Err(error) => Err(error),
                    Ok(()) => Ok(None),
                }
            },
            Received::Nothing => {
                let events = self.take_events();
                assert(self@ == start.polled(model, silent).0);
                Ok(Some(events))
            },
            Received::Failed(error) => {
                let recorded = self.record_terminal(error);
                assert(self@ == start.polled(model, silent).0);
                Err(recorded)
            },
        }
    }

    /// Hands one thing that came in to the session, on behalf of the application
    /// that waits until its reports are out. Says whether they are.
    ///
    /// # Errors
    ///
    /// Returns [`ErrorKind::DrainTimedOut`] when nothing came in time, or a
    /// terminal failure.
    pub fn drain_interrupt(&mut self, received: Received) -> (result: Result<bool, Error>)
        ensures
            exists|reply: StoreReply|
                final(self)@ == (#[trigger] old(self)@.draining(received@, reply)).0
                    && session_agrees(result, old(self)@.draining(received@, reply).1)
                    && store_heard(*old(self), received@, reply) && (key_heard(*old(self), received@)
                    matches Some(key) ==> exists|asked: &mut B|
                    *asked == old(self).host.bonds && *final(asked) == final(self).host.bonds
                        && #[trigger] key_handed(asked, key, reply)),
            final(self).stays(*old(self)),
            key_heard(*old(self), received@) is None ==> final(self).keeps(*old(self)),
    {
        let ghost start = self@;
        let ghost model = received@;
        let ghost silent = StoreReply { loaded: Ok(None), stored: Ok(()) };
        match self.ensure_active() {
            Err(error) => {
                assert(self@ == start.draining(model, silent).0);
                return Err(error);
            },
            Ok(()) => {},
        }
        match received {
            Received::Packet(packet) => {
                let ghost inner = packet@;
                let handled = self.handle_polled_packet(packet);
                proof {
                    let reply = choose|reply: StoreReply|
                        self@ == (#[trigger] start.packet_polled(inner, reply)).0
                            && session_agrees(handled, start.packet_polled(inner, reply).1)
                            && store_answered(old(self).host.bonds, inner, reply) && (
                key_event(inner) matches Some(key) ==> exists|asked: &mut B|
                            *asked == old(self).host.bonds && *final(asked) == self.host.bonds
                                && #[trigger] key_handed(asked, key, reply));
                    assert(self@ == start.draining(model, reply).0);
                }
                match handled {
                    Err(error) => Err(error),
                    Ok(()) => Ok(self.host.channel_output_is_flushed()),
                }
            },
            Received::Nothing => {
                assert(self@ == start.draining(model, silent).0);
                Err(Error::new(ErrorKind::DrainTimedOut))
            },
            Received::Failed(error) => {
                let recorded = self.record_terminal(error);
                assert(self@ == start.draining(model, silent).0);
                Err(recorded)
            },
        }
    }

    /// The peer to connect to and the commands that do so, out of the bonds that
    /// the store holds. `None` while the session is connecting already.
    ///
    /// # Errors
    ///
    /// Returns [`ErrorKind::NoBond`] when there is not exactly one usable bond.
    pub fn start_reconnect(&self) -> (result: Result<
        Option<(BluetoothAddress, Vec<CommandPacket>)>,
        Error,
    >)
        ensures
            exists|bonds: Result<Vec<(BluetoothAddress, ClassicBond)>, BondStoreError>|
                plan_agrees(
                    result,
                    self@.reconnect_plan(listed_peers(#[trigger] list_view(bonds))),
                ) && (self@.inactive() is None && self@.window is Idle ==> call_ensures(
                    B::load_all,
                    (&self.host.bonds,),
                    bonds,
                )),
    {
        let ghost none: Result<Vec<(BluetoothAddress, ClassicBond)>, BondStoreError> = Err(
            BondStoreError::ListFailed,
        );
        let ghost silent = listed_peers(list_view(none));
        match self.ensure_active() {
            Err(error) => {
                assert(plan_agrees(Err(error), self@.reconnect_plan(silent)));
                return Err(error);
            },
            Ok(()) => {},
        }
        match self.window {
            ConnectionWindow::Idle => {
                let bonds = self.host.bond_store().load_all();
                let ghost peers = listed_peers(list_view(bonds));
                let result = self.reconnect_with(bonds);
                assert(plan_agrees(result, self@.reconnect_plan(peers)));
                result
            },
            ConnectionWindow::Reconnecting { .. } => {
                assert(plan_agrees(Ok(None), self@.reconnect_plan(silent)));
                Ok(None)
            },
            _ => {
                let error = Error::new(ErrorKind::SendRejected);
                assert(plan_agrees(Err(error), self@.reconnect_plan(silent)));
                Err(error)
            },
        }
    }

    /// Makes a session of an initialized controller. The bond store learns the
    /// controller's address before anything is looked up in it.
    ///
    /// # Errors
    ///
    /// Returns [`ErrorKind::InvalidBondStore`] when the store cannot be used
    /// with that address.
    pub fn initialize(
        initialized: InitializedController,
        config: SessionConfig,
        usb: UsbAdapterMetadata,
        bonds: B,
    ) -> (result: Result<Self, Error>)
        ensures
            exists|asked: &mut B, selected: Result<(), BondStoreError>|
                *asked == bonds && #[trigger] call_ensures(
                    B::select_local_address,
                    (asked, initialized.local_address),
                    selected,
                ) && opened_as(result, selection(selected), initialized, config, usb) && (result
                    matches Ok(session) ==> session.host.bonds == *final(asked)),
    {
        let mut store = bonds;
        let selected = store.select_local_address(initialized.local_address);
        match selected {
            Err(error) => Err(
                Error::with_source(ErrorKind::InvalidBondStore, ErrorSource::BondStore(error)),
            ),
            Ok(()) => Ok(Session::assemble(initialized, config, usb, store)),
        }
    }

    /// Makes a session of an initialized controller that was asked to have a
    /// certain address.
    ///
    /// # Errors
    ///
    /// Returns [`ErrorKind::IdentityMismatch`] when the controller has another
    /// address, or [`ErrorKind::AdapterIdentityRecoveryRequired`] when it has so
    /// after an address was written to it.
    pub fn open(
        initialized: InitializedController,
        config: SessionConfig,
        usb: UsbAdapterMetadata,
        bonds: B,
        local_identity: LocalIdentity,
        preparation: Option<AdapterIdentityPreparation>,
    ) -> (result: Result<Self, Error>)
        ensures
            exists|asked: &mut B, selected: Result<(), BondStoreError>|
                *asked == bonds && #[trigger] call_ensures(
                    B::select_local_address,
                    (asked, initialized.local_address),
                    selected,
                ) && opened_as(
                    result,
                    opening(selected, local_identity, initialized.local_address, preparation),
                    initialized,
                    config,
                    usb,
                ) && (result matches Ok(session) ==> session.host.bonds == *final(asked)),
    {
        let address = initialized.local_address;
        let made = Session::initialize(initialized, config, usb, bonds);
        let result = match made {
            Err(error) => Err(error),
            Ok(session) => match local_identity {
                LocalIdentity::AdapterDefault => Ok(session),
                LocalIdentity::Explicit(expected) => if expected.same(&address) {
                    Ok(session)
                } else {
                    Err(Error::new(identity_mismatch_kind(preparation)))
                },
            },
        };
        result
    }
}

/// A session that was opened or not, as an outcome says.
pub open spec fn opened_as<B>(
    result: Result<Session<B>, Error>,
    outcome: Result<(), ErrorV>,
    initialized: InitializedController,
    config: SessionConfig,
    usb: UsbAdapterMetadata,
) -> bool {
    match (result, outcome) {
        (Ok(session), Ok(_)) => {
            &&& session@ == SessionV::initial(
                service_of(config),
                initialized.acl_packet_length,
                initialized.acl_packet_count,
            )
            &&& session.capabilities.parts() == (
                initialized.local_address,
                initialized.version,
                usb,
            )
            &&& session.config == config
        },
        (Err(error), Err(model)) => error@ == model,
        _ => false,
    }
}

/// What the answer of a bond store to the controller's address means.
pub open spec fn selection(selected: Result<(), BondStoreError>) -> Result<(), ErrorV> {
    match selected {
        Ok(_) => Ok(()),
        Err(error) => Err(caused(ErrorKind::InvalidBondStore, ErrorSourceV::BondStore(error))),
    }
}

/// Whether a session is opened on a controller with this address.
pub open spec fn opening(
    selected: Result<(), BondStoreError>,
    local_identity: LocalIdentity,
    local_address: BluetoothAddress,
    preparation: Option<AdapterIdentityPreparation>,
) -> Result<(), ErrorV> {
    match selection(selected) {
        Err(error) => Err(error),
        Ok(_) => match local_identity {
            LocalIdentity::AdapterDefault => Ok(()),
            LocalIdentity::Explicit(expected) => if expected == local_address {
                Ok(())
            } else if preparation == Some(AdapterIdentityPreparation::Rewritten) {
                Err(kind_only(ErrorKind::AdapterIdentityRecoveryRequired))
            } else {
                Err(kind_only(ErrorKind::IdentityMismatch))
            },
        },
    }
}

impl<B> Session<B> {
    fn assemble(
        initialized: InitializedController,
        config: SessionConfig,
        usb: UsbAdapterMetadata,
        bonds: B,
    ) -> (session: Self)
        ensures
            session@ == SessionV::initial(
                service_of(config),
                initialized.acl_packet_length,
                initialized.acl_packet_count,
            ),
            session.capabilities.parts() == (initialized.local_address, initialized.version, usb),
            session.config == config,
            session.host.bonds == bonds,
    {
        let mut host = ClassicHost::new(
            bonds,
            initialized.acl_packet_length as usize,
            initialized.acl_packet_count,
        );
        let _ = host.register_server(SDP_PSM, server_channel());
        let _ = host.register_server(HID_CONTROL_PSM, server_channel());
        let _ = host.register_server(HID_INTERRUPT_PSM, server_channel());
        let session = Session {
            capabilities: Capabilities::new(initialized.local_address, initialized.version, usb),
            config,
            host,
            window: ConnectionWindow::Idle,
            connection: None,
            rejected_connections: BTreeSet::new(),
            protocols: ProtocolState::default(),
            active_reconnect: false,
            terminal: None,
            closed: false,
            pending_events: VecDeque::new(),
            outgoing: VecDeque::new(),
        };
        assert(session@.pending_events =~= seq![]);
        assert(session@.outgoing =~= seq![]);
        assert(session@.rejected =~= Set::empty());
        session
    }

    /// Returns validated controller and adapter capabilities.
    pub fn capabilities(&self) -> (capabilities: &Capabilities)
        ensures
            *capabilities == self.capabilities,
    {
        &self.capabilities
    }

    /// The commands that enable incoming pairing with the first Classic peer.
    /// `None` while it is enabled already.
    ///
    /// # Errors
    ///
    /// Returns [`Error`] when the session is closed, connecting or connected.
    pub fn start_pairing(&self) -> (result: Result<Option<Vec<CommandPacket>>, Error>)
        ensures
            match (result, self@.pairing_plan()) {
                (Ok(commands), Ok(models)) => optional_commands(commands) == models,
                (Err(error), Err(model)) => error@ == model,
                _ => false,
            },
    {
        match self.ensure_active() {
            Err(error) => {
                return Err(error);
            },
            Ok(()) => {},
        }
        match self.window {
            ConnectionWindow::Pairing { .. } => Ok(None),
            ConnectionWindow::Idle => Ok(Some(showing(&self.config))),
            _ => Err(Error::new(ErrorKind::SendRejected)),
        }
    }

    /// The commands of [`Session::start_pairing`] were sent.
    pub fn pairing_started(&mut self)
        ensures
            final(self)@ == (SessionV {
                active_reconnect: false,
                window: ConnectionWindow::Pairing { peer: None },
                ..old(self)@
            }),
            final(self).keeps(*old(self)),
    {
        self.active_reconnect = false;
        self.window = ConnectionWindow::Pairing { peer: None };
    }

    /// The peer to connect to and the commands that do so, out of a list of
    /// bonds. There must be exactly one.
    pub fn reconnect_with(
        &self,
        bonds: Result<Vec<(BluetoothAddress, ClassicBond)>, BondStoreError>,
    ) -> (result: Result<Option<(BluetoothAddress, Vec<CommandPacket>)>, Error>)
        ensures
            plan_agrees(result, self@.reconnect_plan(listed_peers(list_view(bonds)))),
    {
        match self.ensure_active() {
            Err(error) => {
                return Err(error);
            },
            Ok(()) => {},
        }
        match self.window {
            ConnectionWindow::Reconnecting { .. } => Ok(None),
            ConnectionWindow::Idle => match bonds {
                Err(error) => Err(
                    Error::with_source(ErrorKind::InvalidBondStore, ErrorSource::BondStore(error)),
                ),
                Ok(bonds) => {
                    if bonds.len() != 1 {
                        return Err(Error::new(ErrorKind::NoBond));
                    }
                    let peer = bonds[0].0;
                    assert(listed_peers(list_view(Ok(bonds)))->Ok_0[0] == peer);
                    Ok(Some((peer, connecting(&self.config, peer))))
                },
            },
            _ => Err(Error::new(ErrorKind::SendRejected)),
        }
    }

    /// The commands of [`Session::start_reconnect`] were sent.
    pub fn reconnect_started(&mut self, peer: BluetoothAddress)
        ensures
            final(self)@ == (SessionV {
                active_reconnect: true,
                window: ConnectionWindow::Reconnecting { peer },
                ..old(self)@
            }),
            final(self).keeps(*old(self)),
    {
        self.active_reconnect = true;
        self.window = ConnectionWindow::Reconnecting { peer };
    }

    /// Whether the application has no event yet, so that polling waits for one.
    pub fn poll_waits(&self) -> (waits: bool)
        ensures
            waits == (self@.pending_events.len() == 0),
    {
        assert(self@.pending_events.len() == self.pending_events@.len());
        self.pending_events.len() == 0
    }

    fn take_events(&mut self) -> (events: Vec<Event>)
        ensures
            final(self)@ == old(self)@.events_taken().0,
            event_views(events@) == old(self)@.events_taken().1,
            final(self).keeps(*old(self)),
    {
        let ghost start = self@;
        let ghost all = start.pending_events;
        let mut events: Vec<Event> = Vec::new();
        let ghost mut done: int = 0;
        assert(all.skip(0) =~= all);
        assert(event_views(events@) =~= all.take(0));
        while self.pending_events.len() > 0
            invariant
                0 <= done <= all.len(),
                all == start.pending_events,
                start == old(self)@,
                self@ == (SessionV { pending_events: all.skip(done), ..start }),
                event_views(events@) == all.take(done),
                self.keeps(*old(self)),
            decreases self.pending_events@.len(),
        {
            let ghost before = self.pending_events@;
            let ghost taken = event_views(events@);
            assert(event_views(before) == all.skip(done));
            assert(event_views(before).len() == before.len());
            match self.pending_events.pop_front() {
                None => {},
                Some(event) => {
                    let ghost model = event@;
                    events.push(event);
                    proof {
                        assert(model == event_views(before)[0]);
                        assert(model == all[done]);
                        assert(self.pending_events@ =~= before.skip(1));
                        assert(event_views(self.pending_events@) =~= event_views(before).skip(1));
                        assert(all.skip(done).skip(1) =~= all.skip(done + 1));
                        assert(event_views(events@) =~= taken.push(model));
                        assert(all.take(done + 1) =~= all.take(done).push(model));
                        done = done + 1;
                    }
                },
            }
        }
        assert(self@.pending_events.len() == self.pending_events@.len());
        assert(all.take(done) =~= all);
        assert(self@.pending_events =~= seq![]);
        events
    }

    /// Reports whether an interrupt input report can be sent without waiting
    /// in the host-side ACL queue.
    pub fn interrupt_send_capacity_available(&self) -> (available: bool)
        ensures
            available == self@.can_send_at_once(),
    {
        let open = match self.protocols.interrupt {
            Some(channel) => channel.open,
            None => false,
        };
        self.terminal.is_none() && !self.closed && open
            && self.host.interrupt_send_capacity_available()
    }

    /// Queues one application payload on the HID interrupt channel.
    ///
    /// # Errors
    ///
    /// Returns [`ErrorKind::SendRejected`] when the interrupt channel is not
    /// open or the payload is invalid for the negotiated channel.
    pub fn send_interrupt(&mut self, payload: &[u8]) -> (result: Result<(), Error>)
        ensures
            final(self)@ == old(self)@.report_sent(payload@).0,
            session_agrees(result, old(self)@.report_sent(payload@).1),
            final(self).keeps(*old(self)),
    {
        match self.ensure_active() {
            Err(error) => {
                return Err(error);
            },
            Ok(()) => {},
        }
        let channel = match self.protocols.interrupt {
            None => {
                return Err(Error::new(ErrorKind::SendRejected));
            },
            Some(channel) => channel,
        };
        if !channel.open {
            return Err(Error::new(ErrorKind::SendRejected));
        }
        let encoded = match self.protocols.hidp.encode_input(payload) {
            Err(error) => {
                return Err(
                    Error::with_source(ErrorKind::SendRejected, ErrorSource::Hidp(error)),
                );
            },
            Ok(encoded) => encoded,
        };
        match self.host.send_channel_sdu(channel.cid, &encoded) {
            Err(error) => {
                return Err(
                    Error::with_source(ErrorKind::SendRejected, ErrorSource::Host(error)),
                );
            },
            Ok(()) => {},
        }
        self.drain_host_output()
    }

    /// Whether all reports were handed to the controller.
    ///
    /// # Errors
    ///
    /// Returns [`Error`] when the session is closed or has failed.
    pub fn interrupt_drained(&self) -> (result: Result<bool, Error>)
        ensures
            session_agrees(
                result,
                match self@.inactive() {
                    Some(error) => Err(error),
                    None => Ok(self@.host.flow.queued.len() == 0),
                },
            ),
    {
        match self.ensure_active() {
            Err(error) => Err(error),
            Ok(()) => Ok(self.host.channel_output_is_flushed()),
        }
    }

    /// Ends the connection, and returns the commands that do so.
    ///
    /// # Errors
    ///
    /// Returns [`Error`] when the session is closed or has failed.
    pub fn disconnect(&mut self) -> (result: Result<Vec<CommandPacket>, Error>)
        ensures
            final(self)@ == old(self)@.disconnect_requested().0,
            match (result, old(self)@.disconnect_requested().1) {
                (Ok(commands), Ok(models)) => command_views(commands@) == models,
                (Err(error), Err(model)) => error@ == model,
                _ => false,
            },
            final(self).keeps(*old(self)),
    {
        match self.ensure_active() {
            Err(error) => {
                return Err(error);
            },
            Ok(()) => {},
        }
        let ghost models = self@.leaving().1;
        self.protocols = ProtocolState::default();
        self.active_reconnect = false;
        let mut commands: Vec<CommandPacket> = match self.connection {
            Some((_, handle)) => one_command(
                disconnect_with(handle, REMOTE_USER_TERMINATED_CONNECTION),
            ),
            None => {
                let none: Vec<CommandPacket> = Vec::new();
                assert(command_views(none@) =~= seq![]);
                none
            },
        };
        self.connection = None;
        match self.window {
            ConnectionWindow::Idle => {
                assert(command_views(commands@) =~= models);
            },
            _ => {
                let ghost first = commands@;
                let mut rest = hiding(&self.config);
                let ghost second = rest@;
                commands.append(&mut rest);
                assert(commands@ =~= first + second);
                assert(command_views(commands@) =~= command_views(first) + command_views(second));
            },
        }
        Ok(commands)
    }

    /// The commands of [`Session::disconnect`] were sent.
    pub fn disconnect_finished(&mut self)
        ensures
            final(self)@ == (SessionV { window: ConnectionWindow::Idle, ..old(self)@ }),
            final(self).keeps(*old(self)),
    {
        self.window = ConnectionWindow::Idle;
    }

    /// Ends the session, and says whether its source of packets is to be closed
    /// now. A closed session stays closed.
    pub fn close(&mut self) -> (first: bool)
        ensures
            final(self)@ == old(self)@.shut(),
            first == !old(self)@.closed,
            final(self).keeps(*old(self)),
    {
        if self.closed {
            return false;
        }
        self.closed = true;
        self.connection = None;
        self.rejected_connections = BTreeSet::new();
        self.window = ConnectionWindow::Idle;
        self.protocols = ProtocolState::default();
        self.active_reconnect = false;
        self.pending_events = VecDeque::new();
        self.outgoing = VecDeque::new();
        assert(self@.pending_events =~= seq![]);
        assert(self@.outgoing =~= seq![]);
        assert(self@.rejected =~= Set::empty());
        true
    }

    /// Takes the next packet to send to the controller.
    pub fn take_outgoing(&mut self) -> (packet: Option<Packet>)
        ensures
            match packet {
                Some(packet) => first_of(old(self)@.outgoing) == Some(packet@),
                None => old(self)@.outgoing.len() == 0,
            },
            final(self)@ == (SessionV { outgoing: rest_of(old(self)@.outgoing), ..old(self)@ }),
            final(self).keeps(*old(self)),
    {
        let packet = self.outgoing.pop_front();
        assert(packet_views(self.outgoing@) =~= rest_of(old(self)@.outgoing));
        packet
    }
}

} // verus!
