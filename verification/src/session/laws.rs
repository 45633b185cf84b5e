//! What holds of a session whatever the application, the controller and the peer
//! do.

use vstd::prelude::*;

use super::events::{classic_events, peer_at, EVENT_LINK_KEY_REQUEST};
use super::model::{
    command_packets, disconnect_command, host_refused, lemma_output_applied, resets, server_spec,
    ConnectionWindow, ProtocolsV, ReceivedV, ServiceV, SessionV, EVENT_QUEUE_CAPACITY,
};
use crate::acl_flow::{acl_outputs, AclFlowV, HostOutputV, SessionEvent};
use crate::api::{kind_only, BondStoreError, Channel, ErrorKind, ErrorV, EventV};
use crate::bytes::{le16, le16_at, le16_reads_back};
use crate::classic_host::{
    opened_channels, units_queued, ClassicEvent, HostErrorV, HostV, StoreReply,
    HCI_LINK_KEY_REQUEST_NEGATIVE_REPLY, HCI_LINK_KEY_REQUEST_REPLY,
};
use crate::hci::{
    acl_pieces, complete_l2cap_pdu, first_boundary, l2cap_fragments, AclPacketV, CodecError,
    CommandPacketV, EventPacketV, PacketV, ACL_HANDLE_MASK,
};
use crate::hid_service::{
    input_report, message_handled, sdu_answered, written, HidpBridgeError, HidpBridgeEventV,
    HID_CONTROL_PSM, HID_INTERRUPT_PSM,
};
use crate::hidp::{Handshake, MessageV};
use crate::host_laws::{events_keep_capacity, new_host_is_within_capacity, traffic_keeps_capacity};
use crate::l2cap::classic::ClassicChannelState;
use crate::l2cap::manager::ChannelManagerV;
use crate::l2cap::L2capPduV;
use crate::values::{address_has_its_bytes, AddressKind, BluetoothAddress};

verus! {

/// A closed session refuses every request with the same error, and closing it
/// again changes nothing.
pub proof fn closed_session_refuses(
    session: SessionV,
    received: ReceivedV,
    reply: StoreReply,
    bonds: Result<Seq<BluetoothAddress>, BondStoreError>,
    payload: Seq<u8>,
)
    ensures
        ({
            let closed = session.shut();
            let refusal = kind_only(ErrorKind::Closed);
            &&& closed.closed
            &&& closed.shut() == closed
            &&& closed.pending_events.len() == 0 || session.closed
            &&& closed.inactive() == Some(refusal)
            &&& closed.polled(received, reply) == (
                closed,
                Err::<Option<Seq<EventV>>, ErrorV>(refusal),
            )
            &&& closed.draining(received, reply) == (closed, Err::<bool, ErrorV>(refusal))
            &&& closed.report_sent(payload) == (closed, Err::<(), ErrorV>(refusal))
            &&& closed.pairing_plan() == Err::<Option<Seq<CommandPacketV>>, ErrorV>(refusal)
            &&& closed.reconnect_plan(bonds) == Err::<
                Option<(BluetoothAddress, Seq<CommandPacketV>)>,
                ErrorV,
            >(refusal)
            &&& closed.disconnect_requested() == (
                closed,
                Err::<Seq<CommandPacketV>, ErrorV>(refusal),
            )
            &&& !closed.can_send_at_once()
        }),
{
}

/// A session that has failed says so to every request, with the error that it
/// failed with.
pub proof fn failed_session_refuses(
    session: SessionV,
    error: ErrorV,
    received: ReceivedV,
    reply: StoreReply,
    bonds: Result<Seq<BluetoothAddress>, BondStoreError>,
    payload: Seq<u8>,
)
    requires
        !session.closed,
        session.terminal == Some(error),
    ensures
        session.polled(received, reply) == (
            session,
            Err::<Option<Seq<EventV>>, ErrorV>(error),
        ),
        session.draining(received, reply) == (session, Err::<bool, ErrorV>(error)),
        session.report_sent(payload) == (session, Err::<(), ErrorV>(error)),
        session.pairing_plan() == Err::<Option<Seq<CommandPacketV>>, ErrorV>(error),
        session.reconnect_plan(bonds) == Err::<
            Option<(BluetoothAddress, Seq<CommandPacketV>)>,
            ErrorV,
        >(error),
        session.disconnect_requested() == (session, Err::<Seq<CommandPacketV>, ErrorV>(error)),
        !session.can_send_at_once(),
{
}

/// An error while a packet is handled ends the session, with that error.
pub proof fn polling_error_is_terminal(session: SessionV, packet: PacketV, reply: StoreReply)
    requires
        session.packet_polled(packet, reply).1 is Err,
    ensures
        session.packet_polled(packet, reply).0.terminal == Some(
            session.packet_polled(packet, reply).1->Err_0,
        ),
{
}

/// One event more than the application's queue holds ends the session.
pub proof fn event_overflow_is_terminal(session: SessionV, event: EventV)
    requires
        session.terminal is None,
        session.pending_events.len() == EVENT_QUEUE_CAPACITY,
    ensures
        session.event_queued(event).terminal == Some(kind_only(ErrorKind::EventQueueOverflow)),
        session.event_queued(event).pending_events == session.pending_events,
{
}

/// Ending a connection twice is ending it once, and no report is taken from then
/// on.
pub proof fn disconnecting_is_idempotent(session: SessionV, payload: Seq<u8>)
    requires
        session.inactive() is None,
    ensures
        ({
            let done = SessionV { window: ConnectionWindow::Idle, ..session.leaving().0 };
            &&& done.leaving().1 == Seq::<CommandPacketV>::empty()
            &&& done.leaving().0 == done
            &&& !done.can_send_at_once()
            &&& done.report_sent(payload) == (
                done,
                Err::<(), ErrorV>(kind_only(ErrorKind::SendRejected)),
            )
        }),
{
    let done = SessionV { window: ConnectionWindow::Idle, ..session.leaving().0 };
    assert(done.leaving().1 =~= Seq::<CommandPacketV>::empty());
}

/// A pairing session stays with the first peer that asks: that peer is let in
/// again, every other one is refused.
pub proof fn pairing_stays_with_one_peer(
    session: SessionV,
    first: Seq<u8>,
    second: Seq<u8>,
)
    requires
        session.window == (ConnectionWindow::Pairing { peer: None }),
        first.len() == 10,
        first[9] == 1,
        second.len() == 10,
        second[9] == 1,
    ensures
        ({
            let (latched, verdict) = session.request_screened(first);
            &&& verdict is None
            &&& latched.expected_peer() == Some(peer_at(first, 0))
            &&& peer_at(second, 0) == peer_at(first, 0) ==> latched.request_screened(second) == (
                latched,
                None::<Result<(), ErrorV>>,
            )
            &&& peer_at(second, 0) != peer_at(first, 0) ==> {
                let (after, verdict) = latched.request_screened(second);
                &&& verdict == Some(Ok::<(), ErrorV>(()))
                &&& after.window == latched.window
                &&& after.host == latched.host
            }
        }),
{
}

/// A session that nobody may connect to drops a connection that is made all the
/// same, and its end leaves no trace but the command that dropped it.
pub proof fn unwanted_connection_leaves_no_trace(
    session: SessionV,
    completion: Seq<u8>,
    end: Seq<u8>,
)
    requires
        completion.len() == 11,
        completion[0] == 0,
        session.expected_peer() != Some(peer_at(completion, 3)) || completion[9] != 1,
        end.len() == 4,
        end[0] == 0,
        le16_at(end, 1) == le16_at(completion, 1),
        !session.rejected.contains(le16_at(completion, 1)),
    ensures
        ({
            let (dropped, verdict) = session.completion_screened(completion);
            &&& verdict == Some(Ok::<(), ErrorV>(()))
            &&& dropped.end_screened(end) == (
                session.commanded(
                    seq![disconnect_command(le16_at(completion, 1), 0x05)],
                ),
                Some(Ok::<(), ErrorV>(())),
            )
        }),
{
    let handle = le16_at(completion, 1);
    assert(session.rejected.insert(handle).remove(handle) =~= session.rejected);
}

/// A request for a link key is answered with the key that the store holds for
/// that peer, refused where it holds none, and answered by nothing but an error
/// where the store fails.
pub proof fn link_key_request_is_answered(
    session: SessionV,
    parameters: Seq<u8>,
    reply: StoreReply,
)
    requires
        parameters.len() == 6,
        session.host.output.len() == 0,
    ensures
        session.packet_taken(
            PacketV::Event(EventPacketV { event_code: EVENT_LINK_KEY_REQUEST, parameters }),
            reply,
        ) == match reply.loaded {
            Ok(Some(bond)) => (
                session.commanded(
                    seq![
                        CommandPacketV {
                            opcode: HCI_LINK_KEY_REQUEST_REPLY,
                            parameters: parameters + bond.link_key,
                        },
                    ],
                ),
                Ok::<(), ErrorV>(()),
            ),
            Ok(None) => (
                session.commanded(
                    seq![
                        CommandPacketV { opcode: HCI_LINK_KEY_REQUEST_NEGATIVE_REPLY, parameters },
                    ],
                ),
                Ok::<(), ErrorV>(()),
            ),
            Err(error) => (session, Err::<(), ErrorV>(host_refused(HostErrorV::BondStore(error)))),
        },
{
    reveal_with_fuel(HostV::events_handled, 2);
    reveal_with_fuel(SessionV::output_drained, 2);
    let event = EventPacketV { event_code: EVENT_LINK_KEY_REQUEST, parameters };
    let peer = peer_at(parameters, 0);
    assert(parameters.subrange(0, 6) =~= parameters);
    address_has_its_bytes(parameters, AddressKind::Public);
    let events = seq![ClassicEvent::LinkKeyRequest { peer }];
    assert(classic_events(event) == Ok::<Seq<ClassicEvent>, ErrorV>(events));
    assert(events.drop_last() =~= Seq::<ClassicEvent>::empty());
    let (host, result) = session.host.link_key_answered(peer, reply.loaded);
    assert(session.host.events_handled(events, reply) == (host, result));
    if result is Ok {
        reveal(SessionV::output_applied);
        let next = SessionV { host, ..session };
        assert(host.output.len() == 1 && host.output[0] is Command);
        assert(host.output.skip(1) =~= session.host.output);
        assert(host == HostV { output: host.output, ..session.host });
        let popped = next.output_popped();
        assert(popped.host == HostV { output: session.host.output, ..session.host });
        assert(popped == session);
        let command = host.output[0]->Command_0;
        let after = popped.output_applied(HostOutputV::Command(command)).0;
        assert(session.outgoing.push(PacketV::Command(command)) =~= session.outgoing
            + command_packets(seq![command]));
        assert(after == session.commanded(seq![command]));
        assert(after.output_drained() == (after, Ok::<(), ErrorV>(())));
        lemma_output_applied(next);
        assert(next.output_drained() == after.output_drained());
    }
}

/// The application gets exactly the events that were queued for it, in order, and
/// gets none of them twice.
pub proof fn events_are_handed_out_once(session: SessionV, reply: StoreReply)
    requires
        session.inactive() is None,
    ensures
        ({
            let (after, result) = session.polled(ReceivedV::Nothing, reply);
            &&& result == Ok::<Option<Seq<EventV>>, ErrorV>(Some(session.pending_events))
            &&& after.polled(ReceivedV::Nothing, reply).1 == Ok::<Option<Seq<EventV>>, ErrorV>(
                Some(Seq::<EventV>::empty()),
            )
        }),
{
}

/// An output report of the peer reaches the application as it was sent, on
/// either channel.
pub proof fn output_report_reaches_the_application(
    channel: Channel,
    payload: Seq<u8>,
    control_mtu: usize,
)
    ensures
        message_handled(channel, seq![0xA2u8] + payload, control_mtu) == Ok::<
            Seq<HidpBridgeEventV>,
            HidpBridgeError,
        >(seq![HidpBridgeEventV::Output { channel, payload }]),
{
    reveal_with_fuel(crate::hid_service::translated, 2);
    let bytes = seq![0xA2u8] + payload;
    assert(bytes.skip(1) =~= payload);
    assert(bytes.subrange(1, bytes.len() as int) =~= payload);
    let events = crate::hid_service::device_events(channel, bytes)->Ok_0;
    assert(events.len() == 1);
    assert(events.drop_last() =~= Seq::<crate::hidp::DeviceEventV>::empty());
    let result = message_handled(channel, bytes, control_mtu);
    assert(result->Ok_0 =~= seq![HidpBridgeEventV::Output { channel, payload }]);
}

/// A report of the application goes out behind one header byte, if it fits the
/// peer's MTU with it.
pub proof fn input_report_has_one_header_byte(payload: Seq<u8>, peer_mtu: usize)
    ensures
        written(Channel::Interrupt, input_report(payload), peer_mtu) == if payload.len() + 1
            <= peer_mtu {
            Ok::<Seq<u8>, HidpBridgeError>(seq![0xA1u8] + payload)
        } else {
            Err::<Seq<u8>, HidpBridgeError>(
                HidpBridgeError::PeerMtuExceeded {
                    channel: Channel::Interrupt,
                    encoded_len: (payload.len() + 1) as usize,
                    peer_mtu,
                },
            )
        },
{
}

impl SessionV {
    /// The application's queue is within its bounds, no event is meant for the
    /// controller, and the controller has room for all that it was given.
    pub open spec fn sound(self) -> bool {
        &&& self.pending_events.len() <= EVENT_QUEUE_CAPACITY
        &&& forall|i: int| 0 <= i < self.outgoing.len() ==> !((#[trigger] self.outgoing[i]) is Event)
        &&& self.host.flow.within_capacity()
    }
}

/// A new session is sound.
pub proof fn new_session_is_sound(service: ServiceV, payload_size: u16, total_packets: u16)
    ensures
        SessionV::initial(service, payload_size, total_packets).sound(),
{
    new_host_is_within_capacity(payload_size as usize, total_packets);
}

proof fn lemma_commanded(session: SessionV, commands: Seq<CommandPacketV>)
    requires
        session.sound(),
    ensures
        session.commanded(commands).sound(),
{
    let after = session.commanded(commands);
    assert forall|i: int| 0 <= i < after.outgoing.len() implies !((
    #[trigger] after.outgoing[i]) is Event) by {
        if i < session.outgoing.len() {
            assert(after.outgoing[i] == session.outgoing[i]);
        } else {
            assert(after.outgoing[i] == command_packets(commands)[i - session.outgoing.len()]);
        }
    }
}

proof fn lemma_requested(session: SessionV)
    requires
        session.sound(),
    ensures
        session.control_requested().0.sound(),
        session.interrupt_requested().0.sound(),
{
    traffic_keeps_capacity(
        session.host,
        arbitrary(),
        0,
        seq![],
        HID_CONTROL_PSM,
        server_spec(),
    );
    traffic_keeps_capacity(
        session.host,
        arbitrary(),
        0,
        seq![],
        HID_INTERRUPT_PSM,
        server_spec(),
    );
}

proof fn lemma_channel_opened(session: SessionV, psm: u32, cid: u16)
    requires
        session.sound(),
    ensures
        session.channel_opened(psm, cid).0.sound(),
{
    reveal(SessionV::channel_opened);
    lemma_requested(session);
    lemma_requested(session.control_opened(cid, session.host.channel(cid).peer_mtu));
}

proof fn lemma_applied(session: SessionV, output: HostOutputV)
    requires
        session.sound(),
    ensures
        session.output_applied(output).0.sound(),
{
    reveal(SessionV::output_applied);
    match output {
        HostOutputV::Event(SessionEvent::Connected { peer, connection_handle }) => {
            let started = SessionV {
                connection: Some((peer, connection_handle)),
                window: ConnectionWindow::Connected,
                protocols: ProtocolsV::initial(),
                ..session
            };
            lemma_commanded(started, super::model::hiding_commands(session.service));
        },
        HostOutputV::Event(SessionEvent::Encrypted { .. }) => {
            lemma_requested(session);
        },
        HostOutputV::Event(SessionEvent::ChannelOpened { psm, source_cid }) => {
            lemma_channel_opened(session, psm, source_cid);
        },
        _ => {},
    }
}

proof fn lemma_drained(session: SessionV)
    requires
        session.sound(),
    ensures
        session.output_drained().0.sound(),
    decreases
            resets(session.host.output),
            session.unknown_channels(),
            session.host.output.len(),
{
    if session.host.output.len() > 0 {
        let popped = session.output_popped();
        lemma_applied(popped, session.host.output[0]);
        let (next, result) = popped.output_applied(session.host.output[0]);
        if result is Ok {
            lemma_output_applied(session);
            lemma_drained(next);
        }
    }
}

proof fn lemma_sent(session: SessionV, cid: u16, sdu: Seq<u8>)
    requires
        session.sound(),
    ensures
        session.sdu_sent(cid, sdu).0.sound(),
{
    traffic_keeps_capacity(session.host, arbitrary(), cid, sdu, 0, server_spec());
}

proof fn lemma_sdp_served(session: SessionV, cid: u16, count: nat)
    requires
        session.sound(),
    ensures
        session.sdp_served(cid, count).0.sound(),
    decreases count,
{
    let (host, request) = session.host.sdu_taken(cid);
    if count > 0 && request is Some {
        let taken = SessionV { host, ..session };
        let (server, answer) = sdu_answered(taken.protocols.sdp[cid], request->0);
        let answered = SessionV {
            protocols: ProtocolsV {
                sdp: taken.protocols.sdp.insert(cid, server),
                ..taken.protocols
            },
            ..taken
        };
        if answer is Some {
            lemma_sent(answered, cid, answer->0);
        }
        let (next, result) = taken.request_answered(cid, request->0);
        if result is Ok {
            lemma_sdp_served(next, cid, (count - 1) as nat);
        }
    }
}

proof fn lemma_sdp_served_from(session: SessionV, from: int)
    requires
        session.sound(),
    ensures
        session.sdp_served_from(from).0.sound(),
    decreases 65536 - from,
{
    if from <= 65535 {
        if !session.protocols.sdp.contains_key(from as u16) {
            lemma_sdp_served_from(session, from + 1);
        } else {
            let count = session.host.backlog(from as u16);
            lemma_sdp_served(session, from as u16, count);
            let (next, result) = session.sdp_served(from as u16, count);
            if result is Ok {
                lemma_sdp_served_from(next, from + 1);
            }
        }
    }
}

proof fn lemma_bridge_events(session: SessionV, events: Seq<HidpBridgeEventV>)
    requires
        session.sound(),
    ensures
        session.bridge_events_applied(events).0.sound(),
    decreases events.len(),
{
    if events.len() > 0 {
        lemma_bridge_events(session, events.drop_last());
        let before = session.bridge_events_applied(events.drop_last()).0;
        if let HidpBridgeEventV::ControlResponse(response) = events.last() {
            if before.protocols.control is Some {
                lemma_sent(before, before.protocols.control->0.cid, response);
            }
        }
    }
}

proof fn lemma_hid_served(session: SessionV, channel: Channel, cid: u16, count: nat)
    requires
        session.sound(),
    ensures
        session.hid_served(channel, cid, count).0.sound(),
    decreases count,
{
    let (host, message) = session.host.sdu_taken(cid);
    if count > 0 && message is Some {
        let taken = SessionV { host, ..session };
        let mtu = taken.protocols.hidp.control_peer_mtu;
        match message_handled(channel, message->0, mtu) {
            Ok(events) => {
                lemma_bridge_events(taken, events);
            },
            Err(_) => {
                let refusal = written(
                    Channel::Control,
                    MessageV::Handshake(Handshake(Handshake::ERR_INVALID_PARAMETER)),
                    mtu,
                );
                if refusal is Ok {
                    lemma_sent(taken, cid, refusal->Ok_0);
                }
            },
        }
        let (next, result) = taken.message_taken(channel, cid, message->0);
        if result is Ok {
            lemma_hid_served(next, channel, cid, (count - 1) as nat);
        }
    }
}

proof fn lemma_input_processed(session: SessionV)
    requires
        session.sound(),
    ensures
        session.input_processed().0.sound(),
{
    reveal(SessionV::input_processed);
    lemma_sdp_served_from(session, 0);
    let (first, result) = session.sdp_served_from(0);
    if result is Ok {
        if let Some(control) = first.protocols.control {
            lemma_hid_served(
                first,
                Channel::Control,
                control.cid,
                first.host.backlog(control.cid),
            );
        }
        let (second, result) = first.hid_channel_served(Channel::Control, first.protocols.control);
        if result is Ok {
            if let Some(interrupt) = first.protocols.interrupt {
                lemma_hid_served(
                    second,
                    Channel::Interrupt,
                    interrupt.cid,
                    second.host.backlog(interrupt.cid),
                );
            }
        }
    }
}

proof fn lemma_refreshed(session: SessionV)
    requires
        session.sound(),
    ensures
        session.channels_refreshed().0.sound(),
{
    if let Some(control) = session.protocols.control {
        lemma_channel_opened(session, HID_CONTROL_PSM, control.cid);
    }
    let next = session.channel_refreshed(HID_CONTROL_PSM, session.protocols.control).0;
    if let Some(interrupt) = next.protocols.interrupt {
        lemma_channel_opened(next, HID_INTERRUPT_PSM, interrupt.cid);
    }
}

proof fn lemma_data_followed(session: SessionV)
    requires
        session.sound(),
    ensures
        session.data_followed().0.sound(),
{
    lemma_drained(session);
    let (drained, result) = session.output_drained();
    if result is Ok {
        lemma_refreshed(drained);
        let (refreshed, result) = drained.channels_refreshed();
        if result is Ok {
            lemma_input_processed(refreshed);
            let (processed, result) = refreshed.input_processed();
            if result is Ok {
                lemma_drained(processed);
            }
        }
    }
}

proof fn lemma_host_events(host: HostV, events: Seq<ClassicEvent>, reply: StoreReply)
    requires
        host.flow.within_capacity(),
    ensures
        host.events_handled(events, reply).0.flow.within_capacity(),
    decreases events.len(),
{
    if events.len() > 0 {
        lemma_host_events(host, events.drop_last(), reply);
        let (before, result) = host.events_handled(events.drop_last(), reply);
        if result is Ok {
            events_keep_capacity(before, events.last(), reply);
        }
    }
}

proof fn lemma_screened(session: SessionV, event: EventPacketV)
    requires
        session.sound(),
    ensures
        session.screened(event).0.sound(),
{
    let peer = peer_at(event.parameters, 0);
    lemma_commanded(
        session,
        seq![
            CommandPacketV {
                opcode: super::model::HCI_REJECT_CONNECTION_REQUEST,
                parameters: peer@.bytes_le + seq![
                    super::model::CONNECTION_REJECTED_UNACCEPTABLE_ADDRESS,
                ],
            },
        ],
    );
    lemma_commanded(
        session,
        seq![
            disconnect_command(
                le16_at(event.parameters, 1),
                super::model::AUTHENTICATION_FAILURE,
            ),
        ],
    );
    lemma_commanded(
        SessionV { window: ConnectionWindow::Idle, ..session },
        super::model::hiding_commands(session.service),
    );
}

/// A sound session stays sound, whatever packet the controller sends and however
/// the bond store answers.
pub proof fn packets_keep_session_sound(session: SessionV, packet: PacketV, reply: StoreReply)
    requires
        session.sound(),
    ensures
        session.packet_taken(packet, reply).0.sound(),
        session.packet_polled(packet, reply).0.sound(),
{
    match packet {
        PacketV::Event(event) => {
            lemma_screened(session, event);
            let (next, verdict) = session.screened(event);
            if verdict is None {
                if let Ok(events) = classic_events(event) {
                    lemma_host_events(next.host, events, reply);
                    let host = next.host.events_handled(events, reply).0;
                    lemma_drained(SessionV { host, ..next });
                }
            }
        },
        PacketV::Acl(data) => {
            traffic_keeps_capacity(session.host, data, 0, seq![], 0, server_spec());
            let host = session.host.acl_received(data).0;
            lemma_data_followed(SessionV { host, ..session });
        },
        PacketV::Command(_) => {},
    }
}

/// A sound session stays sound, whatever the application asks for.
pub proof fn requests_keep_session_sound(
    session: SessionV,
    received: ReceivedV,
    reply: StoreReply,
    payload: Seq<u8>,
)
    requires
        session.sound(),
    ensures
        session.polled(received, reply).0.sound(),
        session.draining(received, reply).0.sound(),
        session.report_sent(payload).0.sound(),
        session.disconnect_requested().0.sound(),
        session.shut().sound(),
{
    if let ReceivedV::Packet(packet) = received {
        packets_keep_session_sound(session, packet, reply);
    }
    if let Some(channel) = session.protocols.interrupt {
        let encoded = written(
            Channel::Interrupt,
            input_report(payload),
            session.protocols.hidp.interrupt_peer_mtu,
        );
        if encoded is Ok {
            lemma_sent(session, channel.cid, encoded->Ok_0);
            let host = session.host.sdu_sent(channel.cid, encoded->Ok_0).0;
            lemma_drained(SessionV { host, ..session });
        }
    }
}

proof fn lemma_drained_data(session: SessionV, packets: Seq<AclPacketV>)
    requires
        session.host.output == acl_outputs(packets),
    ensures
        session.output_drained() == (
            SessionV {
                host: HostV { output: seq![], ..session.host },
                outgoing: session.outgoing + data_packets(packets),
                ..session
            },
            Ok::<(), ErrorV>(()),
        ),
    decreases packets.len(),
{
    if packets.len() == 0 {
        assert(session.host.output =~= seq![]);
        assert(session.outgoing + data_packets(packets) =~= session.outgoing);
    } else {
        reveal(SessionV::output_applied);
        let popped = session.output_popped();
        assert(session.host.output[0] == HostOutputV::Acl(packets[0]));
        let next = popped.output_applied(session.host.output[0]).0;
        assert(next.host.output =~= acl_outputs(packets.skip(1)));
        lemma_drained_data(next, packets.skip(1));
        assert(session.outgoing + data_packets(packets) =~= next.outgoing + data_packets(
            packets.skip(1),
        ));
    }
}

/// ACL packets for the controller.
pub open spec fn data_packets(packets: Seq<AclPacketV>) -> Seq<PacketV> {
    packets.map_values(|packet: AclPacketV| PacketV::Acl(packet))
}

/// A report on an open interrupt channel goes to the controller at once, as the
/// fragments of one L2CAP unit for the peer's end of the channel, where nothing
/// else waits and the controller has room for them.
pub proof fn report_goes_to_the_controller(session: SessionV, payload: Seq<u8>)
    requires
        session.inactive() is None,
        session.protocols.interrupt matches Some(known) && known.open && session.host.has_channel(
            known.cid,
        ),
        ({
            let channel = session.host.channel(session.protocols.interrupt->0.cid);
            let connection = session.host.connection->0;
            &&& channel.state == ClassicChannelState::Open
            &&& channel.ertm is None
            &&& payload.len() + 1 <= channel.peer_mtu
            &&& payload.len() + 1 <= session.protocols.hidp.interrupt_peer_mtu
            &&& connection.handle <= ACL_HANDLE_MASK
            &&& connection.channels.outbound.len() == 0
            &&& connection.channels.accepted_channels.len() == 0
        }),
        0 < session.host.flow.payload_size <= 65535,
        session.host.output.len() == 0,
        session.host.flow.queued.len() == 0,
        report_fragments(session, payload).len() + session.host.flow.held()
            <= session.host.flow.total_packets,
    ensures
        session.report_sent(payload).1 is Ok,
        session.report_sent(payload).0.outgoing == session.outgoing + data_packets(
            report_fragments(session, payload),
        ),
        l2cap_fragments(
            session.host.connection->0.handle,
            0,
            session.host.flow.payload_size as int,
            report_unit(session, payload).encode(false),
            false,
        ) == Ok::<Seq<AclPacketV>, CodecError>(report_fragments(session, payload)),
{
    reveal(ChannelManagerV::sdu_sent);
    let known = session.protocols.interrupt->0;
    let connection = session.host.connection->0;
    let channel = session.host.channel(known.cid);
    let encoded = seq![0xA1u8] + payload;
    input_report_has_one_header_byte(payload, session.protocols.hidp.interrupt_peer_mtu);
    let unit = report_unit(session, payload);
    let bytes = unit.encode(false);
    let handle = connection.handle;
    let size = session.host.flow.payload_size as int;
    assert(complete_l2cap_pdu(bytes)) by {
        assert(bytes.subrange(0, 2) =~= le16(encoded.len() as u16));
        le16_reads_back(encoded.len() as u16, bytes, 0);
    }
    let fragments = report_fragments(session, payload);
    let channels = connection.channels;
    let sending = ChannelManagerV { outbound: channels.outbound.push(unit), ..channels };
    assert(channels.outbound.push(unit) =~= seq![unit]);
    let units = seq![unit];
    assert(units.drop_last() =~= Seq::<L2capPduV>::empty());
    assert(units_queued(session.host.flow.queued, handle, size, units.drop_last()) == (
        session.host.flow.queued,
        Ok::<(), CodecError>(()),
    ));
    assert(session.host.flow.queued + fragments =~= fragments);
    assert(units_queued(session.host.flow.queued, handle, size, units) == (
        fragments,
        Ok::<(), CodecError>(()),
    ));
    let flow = AclFlowV { queued: fragments, ..session.host.flow };
    assert(flow.ready() =~= fragments);
    let accepted = channels.accepted_channels;
    assert(opened_channels(channels.channels, accepted) =~= seq![]);
    let (host, result) = session.host.sdu_sent(known.cid, encoded);
    assert(result is Ok);
    assert(host.output =~= acl_outputs(fragments));
    lemma_drained_data(SessionV { host, ..session }, fragments);
}

/// The L2CAP unit that carries a report.
pub open spec fn report_unit(session: SessionV, payload: Seq<u8>) -> L2capPduV {
    L2capPduV {
        cid: session.host.channel(session.protocols.interrupt->0.cid).destination_cid,
        payload: seq![0xA1u8] + payload,
    }
}

/// The ACL packets that carry a report.
pub open spec fn report_fragments(session: SessionV, payload: Seq<u8>) -> Seq<AclPacketV> {
    acl_pieces(
        session.host.connection->0.handle,
        first_boundary(false),
        0,
        session.host.flow.payload_size as int,
        report_unit(session, payload).encode(false),
    )
}

} // verus!
