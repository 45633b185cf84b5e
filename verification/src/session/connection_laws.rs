//! Who can find and reach the controller, and how a connection comes about and
//! ends, in the bytes of events and commands.

use vstd::prelude::*;

use super::events::peer_at;
use super::model::{ConnectionWindow, ServiceV, SessionV};
use super::wire_laws::{
    answered_by, command_packet, event_packet, is_public, lemma_drained_empty, lemma_one_event,
    lemma_one_public, lemma_peer, number_of, settled,
};
use crate::acl_flow::{HostOutputV, SessionEvent};
use crate::api::{BondStoreError, ErrorKind, ErrorSourceV, ErrorV, EventV};
use crate::classic_host::{lemma_install_skip, servers_installed, ClassicEvent, HostV, StoreReply};
use crate::hci::{CommandPacketV, EventPacketV, PacketV};
use crate::l2cap::classic::{ChannelSpec, ClassicChannelSpec};
use crate::l2cap::information::InformationCapabilities;
use crate::l2cap::manager::ChannelManagerV;
use crate::values::{address_has_six_bytes, BluetoothAddress};

verus! {

/// What the last of some commands that sets the scan mode sets it to. Bit 0 lets
/// peers find the controller, bit 1 lets them connect to it.
pub open spec fn scan_mode(commands: Seq<CommandPacketV>, before: u8) -> u8
    decreases commands.len(),
{
    if commands.len() == 0 {
        before
    } else if commands.last().opcode == 0x0C1A {
        commands.last().parameters[0]
    } else {
        scan_mode(commands.drop_last(), before)
    }
}

/// Whether a command makes the controller tell this name to peers that look for
/// devices: no error correction, one field with the complete name, then zeros.
pub open spec fn tells_name(command: CommandPacketV, name: Seq<u8>) -> bool {
    let parameters = command.parameters;
    &&& command.opcode == 0x0C52
    &&& parameters.len() == 241
    &&& parameters[0] == 0
    &&& parameters[1] == name.len() + 1
    &&& parameters[2] == 0x09
    &&& parameters.skip(3).take(name.len() as int) == name
    &&& forall|i: int| 3 + name.len() <= i < 241 ==> parameters[i] == 0
}

/// Whether a command sets the scan mode to this one.
pub open spec fn sets_scan(command: CommandPacketV, mode: u8) -> bool {
    command == (CommandPacketV { opcode: 0x0C1A, parameters: seq![mode] })
}

/// Commands as packets for the controller.
pub open spec fn as_packets(commands: Seq<CommandPacketV>) -> Seq<PacketV> {
    commands.map_values(|command: CommandPacketV| PacketV::Command(command))
}

/// Whether a name is one that a session can have.
pub open spec fn usable_name(name: Seq<u8>) -> bool {
    1 <= name.len() <= 238
}

proof fn lemma_tells_name(service: ServiceV)
    requires
        usable_name(service.name),
    ensures
        tells_name(super::model::inquiry_command(service), service.name),
{
    let parameters = super::model::inquiry_command(service).parameters;
    assert(parameters.skip(3).take(service.name.len() as int) =~= service.name);
}

/// Whether these commands hide the controller: peers neither find nor reach it
/// afterwards, and it can only be found while its name is told.
pub open spec fn hides(commands: Seq<CommandPacketV>, name: Seq<u8>) -> bool {
    &&& commands.len() == 3
    &&& tells_name(commands[0], name)
    &&& sets_scan(commands[1], 2)
    &&& sets_scan(commands[2], 0)
    &&& scan_mode(commands, 3) == 0
}

proof fn lemma_hides(service: ServiceV)
    requires
        usable_name(service.name),
    ensures
        hides(super::model::hiding_commands(service), service.name),
{
    lemma_tells_name(service);
}

/// An idle session that starts to pair sends commands after which peers find the
/// controller and can connect to it, and which tell them its name. A session that
/// pairs already sends nothing, one that is connected or connecting refuses.
pub proof fn pairing_makes_the_controller_visible(session: SessionV, before: u8)
    requires
        session.closed == false,
        session.terminal is None,
        usable_name(session.service.name),
    ensures
        match session.window {
            ConnectionWindow::Idle => {
                &&& session.pairing_plan() matches Ok(Some(commands)) && {
                    &&& commands.len() == 3
                    &&& sets_scan(commands[0], 2)
                    &&& tells_name(commands[1], session.service.name)
                    &&& sets_scan(commands[2], 3)
                    &&& scan_mode(commands, before) == 3
                }
            },
            ConnectionWindow::Pairing { .. } => session.pairing_plan() == Ok::<
                Option<Seq<CommandPacketV>>,
                ErrorV,
            >(None),
            _ => session.pairing_plan() == Err::<Option<Seq<CommandPacketV>>, ErrorV>(
                ErrorV { kind: ErrorKind::SendRejected, source: None },
            ),
        },
{
    lemma_tells_name(session.service);
}

/// An idle session with exactly one bond connects to that peer: peers that know
/// the controller reach it, none finds it, and the last command creates the
/// connection, with the peer's address in front, no packet types, page scan or
/// clock offset asked for, and a role switch allowed. With any other number of
/// bonds, or without a list of them, nothing is sent.
pub proof fn reconnection_creates_a_connection_to_the_bonded_peer(
    session: SessionV,
    bonds: Result<Seq<BluetoothAddress>, BondStoreError>,
    before: u8,
)
    requires
        session.closed == false,
        session.terminal is None,
        usable_name(session.service.name),
    ensures
        ({
            let plan = session.reconnect_plan(bonds);
            match session.window {
                ConnectionWindow::Idle => match bonds {
                    Ok(peers) => if peers.len() == 1 {
                        &&& plan matches Ok(Some((peer, commands))) && {
                            let last = commands.last();
                            &&& peer == peers[0]
                            &&& commands.len() == 4
                            &&& sets_scan(commands[0], 2)
                            &&& tells_name(commands[1], session.service.name)
                            &&& sets_scan(commands[2], 2)
                            &&& scan_mode(commands, before) == 2
                            &&& last.opcode == 0x0405
                            &&& last.parameters.len() == 13
                            &&& last.parameters.take(6) == peers[0]@.bytes_le
                            &&& forall|i: int| 6 <= i < 12 ==> last.parameters[i] == 0
                            &&& last.parameters[12] == 1
                        }
                    } else {
                        plan matches Err(error) && error.kind == ErrorKind::NoBond
                    },
                    Err(fault) => plan matches Err(error) && error.kind
                        == ErrorKind::InvalidBondStore && error.source == Some(
                        ErrorSourceV::BondStore(fault),
                    ),
                },
                ConnectionWindow::Reconnecting { .. } => plan matches Ok(None),
                _ => plan matches Err(error) && error.kind == ErrorKind::SendRejected,
            }
        }),
{
    lemma_tells_name(session.service);
    if session.window == ConnectionWindow::Idle && bonds is Ok && bonds->Ok_0.len() == 1 {
        let peer = bonds->Ok_0[0];
        let commands = super::model::connecting_commands(session.service, peer);
        address_has_six_bytes(peer);
        assert(commands.last().parameters.take(6) =~= peer@.bytes_le);
        assert(commands.drop_last().last() == commands[2]);
        reveal_with_fuel(scan_mode, 3);
    }
}

/// A session that ends its connection tells the controller to drop it, since the
/// user ended it, and hides the controller unless it is hidden already.
pub proof fn disconnecting_drops_the_connection(session: SessionV, low: u8, high: u8)
    requires
        session.closed == false,
        session.terminal is None,
        usable_name(session.service.name),
        session.connection matches Some((_, handle)) ==> handle == number_of(low, high),
    ensures
        ({
            let (after, result) = session.disconnect_requested();
            let dropping = CommandPacketV {
                opcode: 0x0406,
                parameters: seq![low, high, 0x13u8],
            };
            &&& result matches Ok(commands) && {
                &&& session.connection is Some ==> commands.len() > 0 && commands[0] == dropping
                &&& ({
                    let rest = if session.connection is Some {
                        commands.skip(1)
                    } else {
                        commands
                    };
                    if session.window == ConnectionWindow::Idle {
                        rest.len() == 0
                    } else {
                        hides(rest, session.service.name)
                    }
                })
            }
            &&& after.connection is None
            &&& !after.active_reconnect
            &&& after.protocols.control is None
            &&& after.protocols.interrupt is None
            &&& after.protocols.sdp.dom() =~= Set::<u16>::empty()
            &&& after.host == session.host
            &&& after.window == session.window
            &&& after.pending_events == session.pending_events
            &&& after.outgoing == session.outgoing
        }),
{
    lemma_hides(session.service);
    let commands = session.leaving().1;
    let hiding = super::model::hiding_commands(session.service);
    if session.connection is Some {
        assert(crate::bytes::le16(number_of(low, high)) + seq![0x13u8] =~= seq![low, high, 0x13u8]);
        if session.window != ConnectionWindow::Idle {
            assert(commands.skip(1) =~= hiding);
        } else {
            assert(commands.skip(1) =~= seq![]);
        }
    } else if session.window != ConnectionWindow::Idle {
        assert(commands =~= hiding);
    } else {
        assert(commands =~= seq![]);
    }
}

/// Whether a session lets a peer in that asks for a connection: a pairing session
/// the first one, and then that one again; a connecting session the peer that it
/// connects to; any other session nobody.
pub open spec fn lets_in(window: ConnectionWindow, peer: BluetoothAddress) -> bool {
    match window {
        ConnectionWindow::Idle => false,
        ConnectionWindow::Pairing { peer: None } => true,
        ConnectionWindow::Pairing { peer: Some(first) } => first == peer,
        ConnectionWindow::Reconnecting { peer: only } => only == peer,
        ConnectionWindow::Connected => false,
    }
}

/// A peer that asks for a Classic connection is accepted, as the central device,
/// where the session lets it in, and refused with an unacceptable address where
/// it does not. Any other kind of connection is refused.
pub proof fn connection_request_is_decided(
    session: SessionV,
    peer: BluetoothAddress,
    address: Seq<u8>,
    class: Seq<u8>,
    link_type: u8,
    reply: StoreReply,
)
    requires
        settled(session),
        is_public(peer, address),
        address.len() == 6,
        class.len() == 3,
    ensures
        ({
            let outcome = session.packet_taken(
                event_packet(0x04, address + class + seq![link_type]),
                reply,
            );
            if link_type == 1 && lets_in(session.window, peer) {
                let let_in = SessionV {
                    window: match session.window {
                        ConnectionWindow::Pairing { .. } => ConnectionWindow::Pairing {
                            peer: Some(peer),
                        },
                        other => other,
                    },
                    host: HostV { pending_peer: Some(peer), ..session.host },
                    ..session
                };
                outcome == answered_by(let_in, command_packet(0x0409, address + seq![0x01u8]))
            } else {
                outcome == answered_by(session, command_packet(0x040A, address + seq![0x0Fu8]))
            }
        }),
{
    let parameters = address + class + seq![link_type];
    let event = EventPacketV { event_code: 0x04, parameters };
    assert(parameters.subrange(0, 6) =~= address);
    lemma_peer(address, parameters, 0);
    lemma_one_public(peer, peer_at(parameters, 0), address);
    if link_type == 1 && lets_in(session.window, peer) {
        let latched = session.latched(peer);
        let asked = ClassicEvent::ConnectionRequest { peer };
        assert(super::events::classic_events(event)->Ok_0 =~= seq![asked]);
        lemma_one_event(latched, 0x04, parameters, asked, reply);
        let command = CommandPacketV { opcode: 0x0409, parameters: address + seq![0x01u8] };
        let waiting = SessionV {
            host: HostV { pending_peer: Some(peer), ..session.host },
            ..latched
        };
        let host = latched.host.event_handled(asked, reply).0;
        assert(session.host.output =~= seq![]);
        assert(host.output =~= seq![HostOutputV::Command(command)]);
        super::wire_laws::lemma_drained_command(waiting, host, command);
    } else {
        let command = CommandPacketV { opcode: 0x040A, parameters: address + seq![0x0Fu8] };
        assert(super::model::command_packets(seq![command]) =~= seq![PacketV::Command(command)]);
        assert(session.outgoing + seq![PacketV::Command(command)] =~= session.outgoing.push(
            PacketV::Command(command),
        ));
    }
}

/// A connection that nobody waits for, or that is no Classic one, is dropped at
/// once, since nothing authenticated it, and remembered as dropped.
pub proof fn unwanted_connection_is_dropped(
    session: SessionV,
    peer: BluetoothAddress,
    address: Seq<u8>,
    low: u8,
    high: u8,
    link_type: u8,
    encrypted: u8,
    reply: StoreReply,
)
    requires
        is_public(peer, address),
        address.len() == 6,
        link_type != 1 || !(session.window == (ConnectionWindow::Pairing { peer: Some(peer) })
            || session.window == (ConnectionWindow::Reconnecting { peer })),
    ensures
        session.packet_taken(
            event_packet(0x03, seq![0u8, low, high] + address + seq![link_type, encrypted]),
            reply,
        ) == answered_by(
            SessionV { rejected: session.rejected.insert(number_of(low, high)), ..session },
            command_packet(0x0406, seq![low, high, 0x05u8]),
        ),
{
    let parameters = seq![0u8, low, high] + address + seq![link_type, encrypted];
    assert(parameters.subrange(3, 9) =~= address);
    lemma_peer(address, parameters, 3);
    lemma_one_public(peer, peer_at(parameters, 3), address);
    let command = CommandPacketV { opcode: 0x0406, parameters: seq![low, high, 0x05u8] };
    assert(crate::bytes::le16(number_of(low, high)) + seq![0x05u8] =~= command.parameters);
    assert(super::model::command_packets(seq![command]) =~= seq![PacketV::Command(command)]);
    assert(session.outgoing + seq![PacketV::Command(command)] =~= session.outgoing.push(
        PacketV::Command(command),
    ));
}

/// A connection that fails is reported with its status, hides the controller and
/// leaves the session idle.
pub proof fn failed_connection_is_reported(
    session: SessionV,
    status: u8,
    rest: Seq<u8>,
    reply: StoreReply,
)
    requires
        settled(session),
        usable_name(session.service.name),
        session.terminal is None,
        session.pending_events.len() < 64,
        status != 0,
        rest.len() == 10,
    ensures
        ({
            let (after, result) = session.packet_taken(
                event_packet(0x03, seq![status] + rest),
                reply,
            );
            &&& result is Ok
            &&& after.window == ConnectionWindow::Idle
            &&& !after.active_reconnect
            &&& after.pending_events == session.pending_events.push(
                EventV::Disconnected { reason: Some(status) },
            )
            &&& after.host == (HostV { pending_peer: None, ..session.host })
            &&& session.window == ConnectionWindow::Idle ==> after.outgoing == session.outgoing
            &&& session.window != ConnectionWindow::Idle ==> exists|commands: Seq<CommandPacketV>|
                #[trigger] hides(commands, session.service.name) && after.outgoing
                    == session.outgoing + as_packets(commands)
        }),
{
    let parameters = seq![status] + rest;
    let event = EventPacketV { event_code: 0x03, parameters };
    let screened = session.completion_screened(parameters).0;
    lemma_hides(session.service);
    let hiding = super::model::hiding_commands(session.service);
    assert(super::model::command_packets(hiding) =~= as_packets(hiding));
    let made = ClassicEvent::ConnectionComplete {
        status,
        connection_handle: number_of(parameters[1], parameters[2]),
        peer: peer_at(parameters, 3),
    };
    assert(super::events::classic_events(event)->Ok_0 =~= seq![made]);
    lemma_one_event(screened, 0x03, parameters, made, reply);
    let after = SessionV { host: HostV { pending_peer: None, ..session.host }, ..screened };
    lemma_drained_empty(after);
}

/// Whether the servers are those of a session: service discovery, the control
/// channel and the interrupt channel, each taking up to 672 bytes.
pub open spec fn offers_hid(servers: Map<u32, ClassicChannelSpec>) -> bool {
    &&& forall|psm: u32| #[trigger]
        servers.contains_key(psm) <==> psm == 0x0001 || psm == 0x0011 || psm == 0x0013
    &&& forall|psm: u32| #[trigger]
        servers.contains_key(psm) ==> servers[psm] == (ClassicChannelSpec { mtu: 672 })
}

/// A new session offers exactly service discovery and the two HID channels, has
/// nobody connected and lets nobody in.
pub proof fn new_session_offers_hid(service: ServiceV, payload_size: u16, total_packets: u16)
    ensures
        ({
            let session = SessionV::initial(service, payload_size, total_packets);
            &&& offers_hid(session.host.servers)
            &&& session.host.connection is None
            &&& session.host.flow.payload_size == payload_size
            &&& session.host.flow.total_packets == total_packets
            &&& session.window == ConnectionWindow::Idle
            &&& session.connection is None
            &&& !session.closed
            &&& session.terminal is None
            &&& session.pending_events.len() == 0
            &&& session.outgoing.len() == 0
            &&& settled(session)
        }),
{
}

/// A link on which a session's servers were installed offers exactly those.
proof fn lemma_hid_installed(servers: Map<u32, ClassicChannelSpec>)
    requires
        offers_hid(servers),
    ensures
        ({
            let fresh = ChannelManagerV::initial(InformationCapabilities::initial());
            let spec = ChannelSpec::Basic(ClassicChannelSpec { mtu: 672 });
            servers_installed(servers, 0, fresh) == Ok::<ChannelManagerV, Seq<char>>(
                ChannelManagerV {
                    servers: Map::empty().insert(0x0001, spec).insert(0x0011, spec).insert(
                        0x0013,
                        spec,
                    ),
                    ..fresh
                },
            )
        }),
{
    let fresh = ChannelManagerV::initial(InformationCapabilities::initial());
    let spec = ChannelSpec::Basic(ClassicChannelSpec { mtu: 672 });
    let one = ChannelManagerV { servers: fresh.servers.insert(0x0001, spec), ..fresh };
    let two = ChannelManagerV { servers: one.servers.insert(0x0011, spec), ..fresh };
    let three = ChannelManagerV { servers: two.servers.insert(0x0013, spec), ..fresh };
    assert(servers.contains_key(0x0001) && servers.contains_key(0x0011) && servers.contains_key(
        0x0013,
    ));
    lemma_install_skip(servers, 0, 0x0001, fresh);
    assert(servers_installed(servers, 0x0001, fresh) == servers_installed(servers, 0x0002, one));
    lemma_install_skip(servers, 0x0002, 0x0011, one);
    assert(servers_installed(servers, 0x0011, one) == servers_installed(servers, 0x0012, two));
    lemma_install_skip(servers, 0x0012, 0x0013, two);
    assert(servers_installed(servers, 0x0013, two) == servers_installed(servers, 0x0014, three));
    lemma_install_skip(servers, 0x0014, 0x1_0000_0000, three);
}

/// A connection to the peer that the session waits for is kept: the application
/// learns of it, the controller is hidden, and the peer is to authenticate
/// itself. The servers are ready before anything comes in on the link.
pub proof fn awaited_connection_is_kept(
    session: SessionV,
    peer: BluetoothAddress,
    address: Seq<u8>,
    low: u8,
    high: u8,
    encrypted: u8,
    reply: StoreReply,
)
    requires
        settled(session),
        usable_name(session.service.name),
        session.terminal is None,
        session.pending_events.len() < 64,
        offers_hid(session.host.servers),
        session.host.pending_peer is None || session.host.pending_peer == Some(peer),
        is_public(peer, address),
        address.len() == 6,
        session.window == (ConnectionWindow::Pairing { peer: Some(peer) }) || session.window == (
        ConnectionWindow::Reconnecting { peer }),
    ensures
        ({
            let (after, result) = session.packet_taken(
                event_packet(0x03, seq![0u8, low, high] + address + seq![1u8, encrypted]),
                reply,
            );
            let handle = number_of(low, high);
            &&& result is Ok
            &&& after.connection == Some((peer, handle))
            &&& after.window == ConnectionWindow::Connected
            &&& after.pending_events == session.pending_events.push(EventV::Connected { peer })
            &&& exists|commands: Seq<CommandPacketV>| #[trigger]
                hides(commands, session.service.name) && after.outgoing == session.outgoing
                    + as_packets(commands) + seq![command_packet(0x0411, seq![low, high])]
            &&& after.protocols.control is None
            &&& after.protocols.interrupt is None
            &&& after.protocols.sdp.dom() =~= Set::<u16>::empty()
            &&& after.active_reconnect == session.active_reconnect
            &&& after.rejected == session.rejected
            &&& after.host.flow == session.host.flow
            &&& after.host.connection matches Some(link) && {
                &&& link.peer == peer
                &&& link.handle == handle
                &&& !link.encrypted
                &&& link.channels.channels.dom() =~= Set::<u16>::empty()
                &&& forall|psm: u32| #[trigger]
                    link.channels.servers.contains_key(psm) <==> psm == 0x0001 || psm == 0x0011
                        || psm == 0x0013
            }
        }),
{
    reveal(SessionV::output_applied);
    let parameters = seq![0u8, low, high] + address + seq![1u8, encrypted];
    let event = EventPacketV { event_code: 0x03, parameters };
    let handle = number_of(low, high);
    assert(parameters.subrange(3, 9) =~= address);
    lemma_peer(address, parameters, 3);
    lemma_one_public(peer, peer_at(parameters, 3), address);
    let made = ClassicEvent::ConnectionComplete { status: 0, connection_handle: handle, peer };
    assert(super::events::classic_events(event)->Ok_0 =~= seq![made]);
    lemma_one_event(session, 0x03, parameters, made, reply);
    lemma_hid_installed(session.host.servers);
    lemma_hides(session.service);
    let hiding = super::model::hiding_commands(session.service);
    assert(super::model::command_packets(hiding) =~= as_packets(hiding));
    let host = session.host.event_handled(made, reply).0;
    let authenticate = CommandPacketV { opcode: 0x0411, parameters: seq![low, high] };
    assert(crate::bytes::le16(handle) =~= seq![low, high]);
    assert(session.host.output =~= seq![]);
    let noted = HostOutputV::Event(SessionEvent::Connected { peer, connection_handle: handle });
    assert(host.output =~= seq![noted, HostOutputV::Command(authenticate)]);
    let next = SessionV { host, ..session };
    assert(host.output.skip(1) =~= seq![HostOutputV::Command(authenticate)]);
    let popped = next.output_popped();
    let connected = popped.connected(peer, handle);
    assert(next.output_drained() == connected.output_drained());
    let rest = SessionV { host: HostV { output: seq![], ..host }, ..connected };
    assert(connected == SessionV { host: connected.host, ..rest });
    super::wire_laws::lemma_drained_command(rest, connected.host, authenticate);
    assert(hides(hiding, session.service.name));
    let after = answered_by(rest, PacketV::Command(authenticate)).0;
    assert(after.outgoing =~= session.outgoing + as_packets(hiding) + seq![
        command_packet(0x0411, seq![low, high]),
    ]);
}

/// The end of the connection is reported with its reason. The session is idle
/// then, with nothing left of the link.
pub proof fn end_of_the_connection_is_reported(
    session: SessionV,
    low: u8,
    high: u8,
    reason: u8,
    reply: StoreReply,
)
    requires
        settled(session),
        session.terminal is None,
        session.pending_events.len() < 64,
        session.host.connection matches Some(link) && link.handle == number_of(low, high),
        !session.rejected.contains(number_of(low, high)),
    ensures
        ({
            let (after, result) = session.packet_taken(
                event_packet(0x05, seq![0u8, low, high, reason]),
                reply,
            );
            let handle = number_of(low, high);
            &&& result is Ok
            &&& after.connection is None
            &&& after.window == ConnectionWindow::Idle
            &&& !after.active_reconnect
            &&& after.pending_events == session.pending_events.push(
                EventV::Disconnected { reason: Some(reason) },
            )
            &&& after.outgoing == session.outgoing
            &&& after.protocols.control is None
            &&& after.protocols.interrupt is None
            &&& after.protocols.sdp.dom() =~= Set::<u16>::empty()
            &&& after.host.connection is None
            &&& !after.host.assembler.contains_key(handle)
            &&& !after.host.flow.in_flight.contains_key(handle)
            &&& settled(after)
        }),
{
    reveal(SessionV::output_applied);
    let parameters = seq![0u8, low, high, reason];
    let event = EventPacketV { event_code: 0x05, parameters };
    let handle = number_of(low, high);
    let ended = ClassicEvent::DisconnectionComplete { connection_handle: handle, reason };
    assert(super::events::classic_events(event)->Ok_0 =~= seq![ended]);
    lemma_one_event(session, 0x05, parameters, ended, reply);
    let host = session.host.event_handled(ended, reply).0;
    let peer = session.host.connection->0.peer;
    assert(session.host.output =~= seq![]);
    let noted = HostOutputV::Event(SessionEvent::Disconnected { peer, reason });
    assert(host.output =~= seq![noted]);
    let next = SessionV { host, ..session };
    assert(host.output.skip(1) =~= seq![]);
    let after = next.output_popped().disconnected(reason);
    assert(next.output_drained() == after.output_drained());
    lemma_drained_empty(after);
}

/// A disconnection that failed changes nothing.
pub proof fn failed_disconnection_changes_nothing(
    session: SessionV,
    status: u8,
    low: u8,
    high: u8,
    reason: u8,
    reply: StoreReply,
)
    requires
        settled(session),
        status != 0,
    ensures
        session.packet_taken(event_packet(0x05, seq![status, low, high, reason]), reply) == (
            session,
            Ok::<(), ErrorV>(()),
        ),
{
    let parameters = seq![status, low, high, reason];
    let event = EventPacketV { event_code: 0x05, parameters };
    assert(super::events::classic_events(event)->Ok_0 =~= Seq::<ClassicEvent>::empty());
    lemma_drained_empty(session);
}

/// The length that the parameters of an event about the link have, if it is one
/// with a fixed length.
pub open spec fn fixed_length(event_code: u8) -> Option<nat> {
    match event_code {
        0x03 => Some(11),
        0x04 => Some(10),
        0x05 => Some(4),
        0x06 => Some(3),
        0x08 => Some(4),
        0x17 => Some(6),
        0x18 => Some(23),
        0x31 => Some(6),
        0x33 => Some(10),
        _ => None,
    }
}

/// An event about the link that is too short or too long is a violation of the
/// protocol, and changes nothing. An event about anything else is passed over.
pub proof fn odd_events_change_nothing(
    session: SessionV,
    event_code: u8,
    parameters: Seq<u8>,
    reply: StoreReply,
)
    requires
        settled(session),
    ensures
        ({
            let outcome = session.packet_taken(event_packet(event_code, parameters), reply);
            &&& fixed_length(event_code) is Some && parameters.len() != fixed_length(event_code)->0
                ==> outcome.0 == session && (outcome.1 matches Err(error) && error.kind
                == ErrorKind::ProtocolViolation && error.source is Some)
            &&& fixed_length(event_code) is None && event_code != 0x13 ==> outcome == (
                session,
                Ok::<(), ErrorV>(()),
            )
        }),
{
    let event = EventPacketV { event_code, parameters };
    if fixed_length(event_code) is None && event_code != 0x13 {
        assert(super::events::classic_events(event)->Ok_0 =~= Seq::<ClassicEvent>::empty());
        lemma_drained_empty(session);
    }
}

/// Completed packets are reported in four bytes for each connection: its handle
/// and how many packets the controller is done with.
pub proof fn completions_are_read_per_connection(entries: Seq<(u8, u8, u8, u8)>)
    requires
        entries.len() <= 255,
    ensures
        ({
            let parameters = seq![entries.len() as u8] + completion_bytes(entries);
            let event = EventPacketV { event_code: 0x13, parameters };
            super::events::classic_events(event) == Ok::<Seq<ClassicEvent>, ErrorV>(
                entries.map_values(
                    |entry: (u8, u8, u8, u8)|
                        ClassicEvent::NumberOfCompletedPackets {
                            connection_handle: number_of(entry.0, entry.1),
                            completed: number_of(entry.2, entry.3),
                        },
                ),
            )
        }),
{
    lemma_completion_bytes(entries);
    let parameters = seq![entries.len() as u8] + completion_bytes(entries);
    assert(parameters.skip(1) =~= completion_bytes(entries));
    let event = EventPacketV { event_code: 0x13, parameters };
    let model = entries.map_values(
        |entry: (u8, u8, u8, u8)|
            ClassicEvent::NumberOfCompletedPackets {
                connection_handle: number_of(entry.0, entry.1),
                completed: number_of(entry.2, entry.3),
            },
    );
    let bytes = completion_bytes(entries);
    assert forall|i: int| 0 <= i < entries.len() implies super::events::completed_entries(
        bytes,
        entries.len(),
    )[i] == #[trigger] model[i] by {
        assert(bytes[4 * i] == entries[i].0);
        assert(bytes[4 * i + 1] == entries[i].1);
        assert(bytes[4 * i + 2] == entries[i].2);
        assert(bytes[4 * i + 3] == entries[i].3);
    }
    assert(super::events::classic_events(event)->Ok_0 =~= model);
}

/// Four bytes for each entry, in order.
pub open spec fn completion_bytes(entries: Seq<(u8, u8, u8, u8)>) -> Seq<u8>
    decreases entries.len(),
{
    if entries.len() == 0 {
        seq![]
    } else {
        let last = entries.last();
        completion_bytes(entries.drop_last()) + seq![last.0, last.1, last.2, last.3]
    }
}

proof fn lemma_completion_bytes(entries: Seq<(u8, u8, u8, u8)>)
    ensures
        completion_bytes(entries).len() == 4 * entries.len(),
        forall|i: int|
            0 <= i < entries.len() ==> completion_bytes(entries)[4 * i] == (
            #[trigger] entries[i]).0 && completion_bytes(entries)[4 * i + 1] == entries[i].1
                && completion_bytes(entries)[4 * i + 2] == entries[i].2 && completion_bytes(
                entries,
            )[4 * i + 3] == entries[i].3,
    decreases entries.len(),
{
    if entries.len() > 0 {
        let before = entries.drop_last();
        lemma_completion_bytes(before);
        assert forall|i: int| 0 <= i < entries.len() implies completion_bytes(entries)[4 * i] == (
        #[trigger] entries[i]).0 && completion_bytes(entries)[4 * i + 1] == entries[i].1
            && completion_bytes(entries)[4 * i + 2] == entries[i].2 && completion_bytes(
            entries,
        )[4 * i + 3] == entries[i].3 by {
            if i < before.len() {
                assert(before[i] == entries[i]);
            }
        }
    }
}

} // verus!
