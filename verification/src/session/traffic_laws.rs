//! What a session makes of the data, the requests and the plans that pass through
//! it.

use vstd::prelude::*;

use super::model::{host_refused, ConnectionWindow, ProtocolChannel, ReceivedV, SessionV};
use super::state::Session;
use super::wire_laws::{command_packet, number_of};
use crate::api::{BondStore, BondStoreError, Channel, ErrorKind, ErrorSourceV, ErrorV, EventV};
use crate::classic_host::{ClassicEvent, HostErrorV, HostV, StoreReply};
use crate::hci::{AclPacketV, Packet, PacketV};
use crate::hid_service::{sdu_answered, HidpBridgeEventV};
use crate::l2cap::classic::ClassicChannelState;
use crate::l2cap::L2capPduV;
use crate::sdp::pdu::SdpPduV;
use crate::sdp::server::SdpServerV;
use crate::values::BluetoothAddress;

verus! {

/// Data of a connection that the session does not have is refused, and so is a
/// command, which no controller sends.
pub proof fn stray_packets_are_refused(
    session: SessionV,
    packet: AclPacketV,
    opcode: u16,
    parameters: Seq<u8>,
    reply: StoreReply,
)
    ensures
        !(session.host.connection matches Some(link) && link.handle == packet.connection_handle)
            ==> session.packet_taken(PacketV::Acl(packet), reply).0 == session && (
        session.packet_taken(PacketV::Acl(packet), reply).1 matches Err(error) && error.kind
            == ErrorKind::ProtocolViolation),
        ({
            let (after, result) = session.packet_taken(command_packet(opcode, parameters), reply);
            after == session && (result matches Err(error) && error.kind
                == ErrorKind::ProtocolViolation)
        }),
{
}

/// A unit that comes in one packet goes to the channel that it names, whole.
pub proof fn whole_units_go_to_their_channel(host: HostV, cid: u16, payload: Seq<u8>, boundary: u8)
    requires
        host.connection is Some,
        boundary != 1,
        payload.len() <= 65535,
    ensures
        ({
            let link = host.connection->0;
            let packet = AclPacketV {
                connection_handle: link.handle,
                packet_boundary: boundary,
                broadcast_flag: 0,
                data: seq![
                    (payload.len() % 256) as u8,
                    (payload.len() / 256) as u8,
                    (cid % 256) as u8,
                    (cid / 256) as u8,
                ] + payload,
            };
            let (channels, taken) = link.channels.pdu_received(L2capPduV { cid, payload });
            let (after, result) = host.acl_received(packet);
            &&& taken is Err ==> (result matches Err(HostErrorV::L2cap(_)))
                && after.connection->0.channels == channels && after.output == host.output
            &&& taken is Ok ==> (after, result) == (HostV {
                assembler: host.assembler.remove(link.handle),
                ..host
            }).with_channels(channels).channels_flushed()
        }),
{
    let data = seq![
        (payload.len() % 256) as u8,
        (payload.len() / 256) as u8,
        (cid % 256) as u8,
        (cid / 256) as u8,
    ] + payload;
    assert(data.subrange(4, data.len() as int) =~= payload);
    assert(L2capPduV::decode(data) == Ok::<L2capPduV, Seq<char>>(L2capPduV { cid, payload }));
}

/// What came in on a channel is taken in order, each SDU once.
pub proof fn sdus_are_taken_in_order(host: HostV, cid: u16)
    ensures
        ({
            let (after, sdu) = host.sdu_taken(cid);
            &&& !host.has_channel(cid) ==> after == host && sdu is None
            &&& host.has_channel(cid) && host.channel(cid).received.len() == 0 ==> sdu is None
            &&& host.has_channel(cid) && host.channel(cid).received.len() > 0 ==> {
                &&& sdu == Some(host.channel(cid).received[0])
                &&& after.has_channel(cid)
                &&& host.channel(cid).received == seq![sdu->0] + after.channel(cid).received
                &&& after.output == host.output
            }
        }),
{
    if host.has_channel(cid) && host.channel(cid).received.len() > 0 {
        let received = host.channel(cid).received;
        assert(received =~= seq![received[0]] + received.skip(1));
    }
}

/// A request on a discovery channel is answered by its server. One that is too
/// short to name a transaction is passed over; one that is not a whole request is
/// refused with the code 3, under its own transaction.
pub proof fn discovery_requests_are_answered(
    server: SdpServerV,
    sdu: Seq<u8>,
    request: SdpPduV,
    answer: Seq<u8>,
)
    ensures
        sdu.len() < 3 ==> sdu_answered(server, sdu) == (server, None::<Seq<u8>>),
        sdu.len() >= 3 && (sdu.len() < 5 || sdu.len() != 5 + 256 * sdu[3] + sdu[4]) ==> sdu_answered(
            server,
            sdu,
        ) == (server, Some(seq![0x01u8, sdu[1], sdu[2], 0x00, 0x02, 0x03, 0x00])),
        sdu.len() >= 5 && sdu.len() == 5 + 256 * sdu[3] + sdu[4] && SdpPduV::decode(sdu) is Err
            ==> sdu_answered(server, sdu) == (
            server,
            Some(seq![0x01u8, sdu[1], sdu[2], 0x00, 0x02, 0x03, 0x00]),
        ),
        sdu.len() >= 5 && sdu.len() == 5 + 256 * sdu[3] + sdu[4] && (SdpPduV::decode(
            sdu,
        ) matches Ok(read) && read == request) && (server.handled(request).1.encode() matches Ok(
            bytes,
        ) && bytes == answer) ==> sdu_answered(server, sdu) == (
            server.handled(request).0,
            Some(answer),
        ),
{
    if sdu.len() >= 3 {
        let transaction = number_of(sdu[2], sdu[1]);
        crate::sdp::wire_laws::responses_have_their_bytes(transaction, 3, seq![], seq![]);
        let refusal = SdpPduV::ErrorResponse { transaction_id: transaction, error_code: 3 };
        assert(refusal.encode()->Ok_0 =~= seq![0x01u8, sdu[1], sdu[2], 0x00, 0x02, 0x03, 0x00]);
    }
}

/// The answer to a discovery request goes out on the channel that it came in on,
/// and the server of that channel alone goes on.
pub proof fn discovery_answers_go_back(session: SessionV, cid: u16, request: Seq<u8>, other: u16)
    requires
        session.protocols.sdp.contains_key(cid),
        other != cid,
    ensures
        ({
            let (server, answer) = sdu_answered(session.protocols.sdp[cid], request);
            let (after, result) = session.request_answered(cid, request);
            &&& after.protocols.sdp[cid] == server
            &&& after.protocols.sdp.contains_key(other) == session.protocols.sdp.contains_key(other)
            &&& after.protocols.sdp[other] == session.protocols.sdp[other]
            &&& answer is None ==> result is Ok && after.host == session.host
            &&& answer matches Some(bytes) ==> after.host == session.host.sdu_sent(cid, bytes).0 && (
            result is Ok <==> session.host.sdu_sent(cid, bytes).1 is Ok)
        }),
{
}

/// The application can have 64 events waiting; one more ends the session. An
/// event that waits is not lost by that, and those behind it are dropped.
pub proof fn sixty_four_events_can_wait(session: SessionV, event: EventV)
    requires
        session.terminal is None,
        session.pending_events.len() <= 64,
    ensures
        session.pending_events.len() < 64 ==> session.event_queued(event) == (SessionV {
            pending_events: session.pending_events.push(event),
            ..session
        }),
        session.pending_events.len() == 64 ==> {
            let after = session.event_queued(event);
            &&& after.pending_events == session.pending_events
            &&& after.terminal matches Some(error) && error.kind == ErrorKind::EventQueueOverflow
            &&& after.event_queued(event) == after
        },
{
}

/// A failure of the bond store is told apart from one of the protocol, and both
/// keep their cause.
pub proof fn host_errors_are_told_apart(error: HostErrorV)
    ensures
        host_refused(error).kind == (if error is BondStore {
            ErrorKind::InvalidBondStore
        } else {
            ErrorKind::ProtocolViolation
        }),
        host_refused(error).source == Some(ErrorSourceV::Host(error)),
{
}

/// A poll that finds nothing more hands out the events that waited, in order, and
/// one that takes a packet hands out nothing yet; waiting for the reports to go out
/// ends when none waits, or in vain when nothing comes. A source that fails ends
/// the session with its error.
pub proof fn polls_hand_out_events(
    session: SessionV,
    packet: PacketV,
    failure: ErrorV,
    reply: StoreReply,
)
    requires
        session.inactive() is None,
    ensures
        session.polled(ReceivedV::Nothing, reply).1 == Ok::<Option<Seq<EventV>>, ErrorV>(
            Some(session.pending_events),
        ),
        session.polled(ReceivedV::Nothing, reply).0.pending_events.len() == 0,
        session.draining(ReceivedV::Nothing, reply).1 matches Err(error) && error.kind
            == ErrorKind::DrainTimedOut,
        session.draining(ReceivedV::Nothing, reply).0 == session,
        session.polled(ReceivedV::Failed(failure), reply) == (
            SessionV { terminal: Some(failure), ..session },
            Err::<Option<Seq<EventV>>, ErrorV>(failure),
        ),
        session.draining(ReceivedV::Failed(failure), reply) == (
            SessionV { terminal: Some(failure), ..session },
            Err::<bool, ErrorV>(failure),
        ),
        ({
            let (next, result) = session.packet_taken(packet, reply);
            let (polled, events) = session.polled(ReceivedV::Packet(packet), reply);
            let (drained, done) = session.draining(ReceivedV::Packet(packet), reply);
            &&& result is Ok && next.terminal is None ==> polled == next && drained == next
                && events == Ok::<Option<Seq<EventV>>, ErrorV>(None) && done == Ok::<bool, ErrorV>(
                next.host.flow.queued.len() == 0,
            )
            &&& result matches Err(error) ==> polled.terminal == Some(error) && events is Err
                && done is Err && polled == drained
        }),
{
}

/// Pairing and reconnecting begin where nobody may connect; asked for twice, they
/// go on; and otherwise they are refused. Reconnecting needs a store that answers
/// with one bond.
pub proof fn connections_begin_one_at_a_time(
    session: SessionV,
    bonds: Result<Seq<BluetoothAddress>, BondStoreError>,
)
    requires
        session.inactive() is None,
    ensures
        session.pairing_plan() matches Ok(Some(_)) <==> session.window is Idle,
        session.pairing_plan() matches Ok(None) <==> session.window is Pairing,
        session.pairing_plan() matches Err(error) ==> error.kind == ErrorKind::SendRejected,
        session.reconnect_plan(bonds) matches Ok(None) <==> session.window is Reconnecting,
        session.reconnect_plan(bonds) matches Ok(Some(_)) <==> session.window is Idle && (
        bonds matches Ok(peers) && peers.len() == 1),
        session.window is Idle ==> (bonds matches Ok(peers) ==> (peers.len() == 1 ==> (
        session.reconnect_plan(bonds) matches Ok(Some((peer, _))) && peer == peers[0])) && (
        peers.len() != 1 ==> (session.reconnect_plan(bonds) matches Err(error) && error.kind
            == ErrorKind::NoBond))),
        session.window is Idle ==> (bonds matches Err(fault) ==> (session.reconnect_plan(
            bonds,
        ) matches Err(error) && error.kind == ErrorKind::InvalidBondStore && error.source == Some(
            ErrorSourceV::BondStore(fault),
        ))),
        session.window is Pairing || session.window is Connected ==> (session.reconnect_plan(
            bonds,
        ) matches Err(error) && error.kind == ErrorKind::SendRejected),
{
}

/// A HID channel that this end asked for is taken into use once it is open, and
/// not before.
pub proof fn requested_channels_are_noticed(session: SessionV, cid: u16)
    requires
        session.host.has_channel(cid),
        session.protocols.interrupt == Some(ProtocolChannel { cid, open: false }),
        session.protocols.control is None || session.protocols.control->0.open,
        session.host.channel(cid).psm == 0x0013,
        session.terminal is None,
        session.pending_events.len() < 64,
    ensures
        ({
            let (after, result) = session.channels_refreshed();
            if session.host.channel(cid).state == ClassicChannelState::Open {
                &&& result is Ok
                &&& after.protocols.interrupt == Some(ProtocolChannel { cid, open: true })
                &&& after.protocols.hidp.interrupt_peer_mtu == session.host.channel(cid).peer_mtu
                &&& after.pending_events == session.pending_events.push(
                    EventV::ChannelOpened { channel: Channel::Interrupt },
                )
            } else {
                after == session && result is Ok
            }
        }),
{
    reveal(SessionV::channel_opened);
}

/// Encryption that failed, or that was switched off, changes nothing.
pub proof fn failed_encryption_changes_nothing(
    host: HostV,
    status: u8,
    handle: u16,
    enabled: bool,
    reply: StoreReply,
)
    requires
        status != 0 || !enabled,
    ensures
        host.event_handled(
            ClassicEvent::EncryptionChange { status, connection_handle: handle, enabled },
            reply,
        ) == (host, Ok::<(), HostErrorV>(())),
{
}

/// What a message asks for is done in order, until something fails.
pub proof fn message_effects_come_in_order(
    session: SessionV,
    first: HidpBridgeEventV,
    second: HidpBridgeEventV,
)
    ensures
        session.bridge_events_applied(seq![]) == (session, Ok::<(), ErrorV>(())),
        ({
            let (next, result) = session.bridge_event_applied(first);
            session.bridge_events_applied(seq![first, second]) == (if result is Err {
                (next, result)
            } else {
                next.bridge_event_applied(second)
            })
        }),
{
    reveal_with_fuel(SessionV::bridge_events_applied, 3);
    assert(seq![first, second].drop_last() =~= seq![first]);
    assert(seq![first].drop_last() =~= seq![]);
}

/// Once the commands for pairing were sent, the first peer that asks may connect;
/// once those for reconnecting were sent, the one peer may, and the channels are
/// asked for from this end; once those for disconnecting were sent, nobody may.
/// Nothing else changes by that.
pub proof fn sent_commands_open_and_close_the_window<B: BondStore>(
    peer: BluetoothAddress,
    other: BluetoothAddress,
)
    ensures
        forall|session: &mut Session<B>|
            #[trigger] call_ensures(Session::<B>::pairing_started, (session,), ()) ==> {
                let after = final(session)@;
                &&& after.admits(peer) && after.admits(other)
                &&& after == (SessionV {
                    window: after.window,
                    active_reconnect: false,
                    ..session@
                })
            },
        forall|session: &mut Session<B>|
            #[trigger] call_ensures(Session::<B>::reconnect_started, (session, peer), ()) ==> {
                let after = final(session)@;
                &&& after.admits(other) <==> other == peer
                &&& after.expected_peer() == Some(peer)
                &&& after == (SessionV {
                    window: after.window,
                    active_reconnect: true,
                    ..session@
                })
            },
        forall|session: &mut Session<B>|
            #[trigger] call_ensures(Session::<B>::disconnect_finished, (session,), ()) ==> {
                let after = final(session)@;
                &&& !after.admits(peer)
                &&& after.expected_peer() is None
                &&& after == (SessionV { window: ConnectionWindow::Idle, ..session@ })
            },
{
}

/// Packets for the controller are taken in order, each once. Closing a session
/// leaves none, no event and no connection, and only the first close is one.
pub proof fn packets_are_taken_in_order<B: BondStore>()
    ensures
        forall|session: &mut Session<B>, packet: Option<Packet>|
            #[trigger] call_ensures(Session::<B>::take_outgoing, (session,), packet) ==> {
                let after = final(session)@;
                &&& packet is None <==> session@.outgoing.len() == 0
                &&& packet matches Some(taken) ==> session@.outgoing == seq![taken@]
                    + after.outgoing
                &&& after == (SessionV { outgoing: after.outgoing, ..session@ })
            },
        forall|session: &mut Session<B>, first: bool|
            #[trigger] call_ensures(Session::<B>::close, (session,), first) ==> {
                let after = final(session)@;
                &&& first == !session@.closed
                &&& after.closed
                &&& first ==> after.outgoing.len() == 0 && after.pending_events.len() == 0
                    && after.connection is None && after.window is Idle
                    && after.protocols.control is None && after.protocols.interrupt is None
                &&& !first ==> after == session@
            },
{
    assert forall|session: &mut Session<B>, packet: Option<Packet>|
        #[trigger] call_ensures(Session::<B>::take_outgoing, (session,), packet) implies {
        let after = final(session)@;
        &&& packet is None <==> session@.outgoing.len() == 0
        &&& packet matches Some(taken) ==> session@.outgoing == seq![taken@] + after.outgoing
        &&& after == (SessionV { outgoing: after.outgoing, ..session@ })
    } by {
        let after = final(session)@;
        if packet is Some {
            assert(session@.outgoing =~= seq![packet->0@] + after.outgoing);
        } else {
            assert(after.outgoing =~= session@.outgoing);
        }
    }
}

} // verus!
