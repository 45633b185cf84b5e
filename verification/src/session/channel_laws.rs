//! What a session does with the channels of its service: which is which, how a
//! reconnecting session asks for them, and what passes through them.

use vstd::prelude::*;

use super::model::{ProtocolChannel, SessionV};
use super::wire_laws::{
    event_packet, lemma_drained_empty, lemma_one_event, number_of, settled,
};
use crate::acl_flow::{acl_outputs, AclFlowV, HostOutputV, SessionEvent};
use crate::api::{Channel, ErrorKind, ErrorV, EventV};
use crate::classic_host::{
    opened_channels, opened_events, units_queued, ClassicEvent, HostErrorV, HostV, StoreReply,
};
use crate::hci::{acl_pieces, AclPacketV, CodecError, EventPacketV, PacketV};
use crate::hid_service::{hid_record, HidpBridgeEventV};
use crate::l2cap::answer_laws::{connection_is_asked_for, is_next_cid, next_number};
use crate::l2cap::classic::{ChannelSpec, ClassicChannelSpec, ClassicChannelState};
use crate::l2cap::signaling_laws::{on_signaling, signal, two, units_have_their_bytes};
use crate::l2cap::L2capPduV;

verus! {

/// An open channel is told by its PSM what it is for: 0x0001 discovery, 0x0011
/// control, 0x0013 interrupt. The application learns of the two HID channels, the
/// session of the largest message that the peer takes on each, and a discovery
/// channel gets a server with the service's record, whose responses fit the
/// peer. A channel that is not open, or that is for anything else, is a violation
/// of the protocol.
pub proof fn channels_are_told_apart_by_their_psm(session: SessionV, psm: u32, cid: u16)
    requires
        session.host.has_channel(cid),
        session.host.channel(cid).psm == psm,
        session.terminal is None,
        session.pending_events.len() < 64,
        !session.active_reconnect,
        !session.protocols.sdp.contains_key(cid),
        session.protocols.control is None,
        session.protocols.interrupt is None,
    ensures
        ({
            let channel = session.host.channel(cid);
            let (after, result) = session.channel_opened(psm, cid);
            let refused = after == session && (result matches Err(error) && error.kind
                == ErrorKind::ProtocolViolation);
            if channel.state != ClassicChannelState::Open {
                refused
            } else if psm == 0x0001 {
                &&& result is Ok
                &&& after.protocols.sdp.dom() =~= session.protocols.sdp.dom().insert(cid)
                &&& after.protocols.sdp[cid].mtu == channel.peer_mtu
                &&& after.protocols.sdp[cid].records.len() == 1
                &&& after.protocols.sdp[cid].records[0].handle == 0x0001_0001
                &&& after.protocols.sdp[cid].records[0].attributes == hid_record(
                    session.service.descriptor,
                    session.service.policy,
                )
                &&& after.protocols.sdp[cid].current_response is None
                &&& after.pending_events == session.pending_events
                &&& after.protocols.control is None
                &&& after.protocols.interrupt is None
            } else if psm == 0x0011 {
                &&& result is Ok
                &&& after.protocols.control == Some(ProtocolChannel { cid, open: true })
                &&& after.protocols.interrupt is None
                &&& after.protocols.hidp.control_peer_mtu == channel.peer_mtu
                &&& after.protocols.hidp.interrupt_peer_mtu
                    == session.protocols.hidp.interrupt_peer_mtu
                &&& after.pending_events == session.pending_events.push(
                    EventV::ChannelOpened { channel: Channel::Control },
                )
                &&& after.host == session.host
            } else if psm == 0x0013 {
                &&& result is Ok
                &&& after.protocols.interrupt == Some(ProtocolChannel { cid, open: true })
                &&& after.protocols.control is None
                &&& after.protocols.hidp.interrupt_peer_mtu == channel.peer_mtu
                &&& after.protocols.hidp.control_peer_mtu
                    == session.protocols.hidp.control_peer_mtu
                &&& after.pending_events == session.pending_events.push(
                    EventV::ChannelOpened { channel: Channel::Interrupt },
                )
                &&& after.host == session.host
            } else {
                refused
            }
        }),
{
    reveal(SessionV::channel_opened);
}

/// Whether a link is free to take a request for a channel at once, with this
/// identifier: nothing waits, the identifier is the least free one, and the
/// controller has room for one packet of twelve bytes.
pub open spec fn free_for_request(host: HostV, cid: u16) -> bool {
    &&& host.connection matches Some(link) && {
        &&& link.handle <= 0x0FFF
        &&& link.channels.outbound.len() == 0
        &&& link.channels.accepted_channels.len() == 0
        &&& is_next_cid(link.channels, cid)
    }
    &&& 12 <= host.flow.payload_size <= 65535
    &&& host.flow.queued.len() == 0
    &&& host.flow.held() < host.flow.total_packets
}

/// The packet that asks the peer for a channel to a PSM.
pub open spec fn channel_request(host: HostV, psm: u16, cid: u16) -> AclPacketV {
    let link = host.connection->0;
    AclPacketV {
        connection_handle: link.handle,
        packet_boundary: 0,
        broadcast_flag: 0,
        data: seq![0x08u8, 0x00, 0x01, 0x00] + signal(
            0x02,
            next_number(link.channels.identifier),
            two(psm) + two(cid),
        ),
    }
}

proof fn lemma_channel_requested(host: HostV, psm: u16, cid: u16)
    requires
        free_for_request(host, cid),
        psm == 0x0011 || psm == 0x0013,
    ensures
        ({
            let (after, result) = host.channel_requested(
                psm as u32,
                ClassicChannelSpec { mtu: 672 },
            );
            let link = after.connection->0;
            &&& result == Ok::<u16, HostErrorV>(cid)
            &&& after.output == host.output.push(
                HostOutputV::Acl(channel_request(host, psm, cid)),
            )
            &&& after.connection is Some
            &&& link.handle == host.connection->0.handle
            &&& link.peer == host.connection->0.peer
            &&& link.encrypted == host.connection->0.encrypted
            &&& link.channels.channels.contains_key(cid)
            &&& link.channels.channels[cid].psm == psm
            &&& link.channels.channels[cid].mtu == 672
        }),
{
    let link = host.connection->0;
    let spec = ClassicChannelSpec { mtu: 672 };
    connection_is_asked_for(link.channels, psm, cid, 672);
    let number = next_number(link.channels.identifier);
    let bytes = signal(0x02, number, two(psm) + two(cid));
    let unit = on_signaling(bytes);
    let channels = link.channels.connection_requested(
        psm as u32,
        ChannelSpec::Basic(spec),
    ).0;
    assert(channels == link.channels.connect_outcome(
        psm as u32,
        None,
        ChannelSpec::Basic(spec),
    ).0);
    assert(channels.outbound =~= seq![unit]);
    units_have_their_bytes(0x0001, bytes);
    let packet = channel_request(host, psm, cid);
    assert(unit.encode(false) =~= packet.data);
    let units = seq![unit];
    assert(units.drop_last() =~= Seq::<L2capPduV>::empty());
    let size = host.flow.payload_size as int;
    assert(units_queued(host.flow.queued, link.handle, size, units.drop_last()) == (
        host.flow.queued,
        Ok::<(), CodecError>(()),
    ));
    assert(packet.data.take(12) =~= packet.data);
    assert(acl_pieces(link.handle, 0, 0, size, packet.data) =~= seq![packet]);
    assert(host.flow.queued + seq![packet] =~= seq![packet]);
    assert(units_queued(host.flow.queued, link.handle, size, units) == (
        seq![packet],
        Ok::<(), CodecError>(()),
    ));
    let flow = AclFlowV { queued: seq![packet], ..host.flow };
    assert(flow.ready() =~= seq![packet]);
    assert(acl_outputs(flow.ready()) =~= seq![HostOutputV::Acl(packet)]);
    let none = Seq::<u16>::empty();
    assert(channels.accepted_channels =~= none);
    assert(opened_channels(channels.channels, none) =~= seq![]);
    assert(opened_events(Seq::<(u32, u16)>::empty()) =~= seq![]);
    let after = host.channel_requested(psm as u32, spec).0;
    assert(after.output =~= host.output.push(HostOutputV::Acl(packet)));
}

/// A reconnecting session asks for the control channel as soon as the link is
/// encrypted, and takes the channel that it asked for as its control channel. A
/// session that waits for its peer asks for nothing.
pub proof fn encryption_starts_the_control_channel(
    session: SessionV,
    low: u8,
    high: u8,
    enabled: u8,
    cid: u16,
    reply: StoreReply,
)
    requires
        settled(session),
        free_for_request(session.host, cid),
        session.host.connection->0.handle == number_of(low, high),
        session.protocols.control is None,
        enabled != 0,
    ensures
        ({
            let (after, result) = session.packet_taken(
                event_packet(0x08, seq![0u8, low, high, enabled]),
                reply,
            );
            &&& result is Ok
            &&& after.host.connection->0.encrypted
            &&& settled(after)
            &&& session.active_reconnect ==> after.outgoing == session.outgoing.push(
                PacketV::Acl(channel_request(session.host, 0x0011, cid)),
            ) && after.protocols.control == Some(ProtocolChannel { cid, open: false })
            &&& !session.active_reconnect ==> after.outgoing == session.outgoing
                && after.protocols == session.protocols
        }),
{
    reveal(SessionV::output_applied);
    let parameters = seq![0u8, low, high, enabled];
    let event = EventPacketV { event_code: 0x08, parameters };
    let handle = number_of(low, high);
    let changed = ClassicEvent::EncryptionChange {
        status: 0,
        connection_handle: handle,
        enabled: true,
    };
    assert(super::events::classic_events(event)->Ok_0 =~= seq![changed]);
    lemma_one_event(session, 0x08, parameters, changed, reply);
    let host = session.host.event_handled(changed, reply).0;
    let peer = session.host.connection->0.peer;
    assert(session.host.output =~= seq![]);
    let noted = HostOutputV::Event(SessionEvent::Encrypted { peer });
    assert(host.output =~= seq![noted]);
    let next = SessionV { host, ..session };
    let popped = next.output_popped();
    assert(popped.host.output =~= seq![]);
    if session.active_reconnect {
        lemma_channel_requested(popped.host, 0x0011, cid);
        let packet = channel_request(session.host, 0x0011, cid);
        assert(channel_request(popped.host, 0x0011, cid) == packet);
        let asked = popped.control_requested().0;
        assert(popped.control_requested().1 is Ok);
        assert(next.output_drained() == asked.output_drained());
        assert(asked.host.output =~= seq![HostOutputV::Acl(packet)]);
        let last = asked.output_popped();
        assert(last.host.output =~= seq![]);
        let after = last.output_applied(HostOutputV::Acl(packet)).0;
        assert(asked.output_drained() == after.output_drained());
        lemma_drained_empty(after);
    } else {
        assert(next.output_drained() == popped.output_drained());
        lemma_drained_empty(popped);
    }
}

/// A reconnecting session asks for the interrupt channel as soon as its control
/// channel is open, and takes the channel that it asked for as its interrupt
/// channel.
pub proof fn control_channel_is_followed_by_the_interrupt_channel(
    session: SessionV,
    control: u16,
    cid: u16,
)
    requires
        session.active_reconnect,
        session.terminal is None,
        session.pending_events.len() < 64,
        session.host.has_channel(control),
        session.host.channel(control).psm == 0x0011,
        session.host.channel(control).state == ClassicChannelState::Open,
        session.protocols.control == Some(ProtocolChannel { cid: control, open: false }),
        session.protocols.interrupt is None,
        free_for_request(session.host, cid),
    ensures
        ({
            let (after, result) = session.channel_opened(0x0011, control);
            &&& result is Ok
            &&& after.protocols.control == Some(ProtocolChannel { cid: control, open: true })
            &&& after.protocols.interrupt == Some(ProtocolChannel { cid, open: false })
            &&& after.host.output == session.host.output.push(
                HostOutputV::Acl(channel_request(session.host, 0x0013, cid)),
            )
            &&& after.pending_events == session.pending_events.push(
                EventV::ChannelOpened { channel: Channel::Control },
            )
        }),
{
    reveal(SessionV::channel_opened);
    lemma_channel_requested(session.host, 0x0013, cid);
}

/// An output report goes to the application; an answer goes out on the control
/// channel where that is open; and a message that was only noted goes nowhere.
pub proof fn bridge_events_go_where_they_belong(
    session: SessionV,
    channel: Channel,
    payload: Seq<u8>,
)
    requires
        session.terminal is None,
        session.pending_events.len() < 64,
    ensures
        session.bridge_event_applied(HidpBridgeEventV::Output { channel, payload }) == (
            SessionV {
                pending_events: session.pending_events.push(
                    EventV::HidOutput { channel, payload },
                ),
                ..session
            },
            Ok::<(), ErrorV>(()),
        ),
        session.protocols.control matches Some(control) && control.open ==> ({
            let (after, result) = session.bridge_event_applied(
                HidpBridgeEventV::ControlResponse(payload),
            );
            let (host, sent) = session.host.sdu_sent(session.protocols.control->0.cid, payload);
            after == (SessionV { host, ..session }) && (result is Ok <==> sent is Ok)
        }),
        !(session.protocols.control matches Some(control) && control.open)
            ==> session.bridge_event_applied(HidpBridgeEventV::ControlResponse(payload)) == (
            session,
            Ok::<(), ErrorV>(()),
        ),
        session.bridge_event_applied(HidpBridgeEventV::Suspend) == (session, Ok::<(), ErrorV>(())),
        session.bridge_event_applied(HidpBridgeEventV::Resume) == (session, Ok::<(), ErrorV>(())),
        session.bridge_event_applied(HidpBridgeEventV::VirtualCableUnplug) == (
            session,
            Ok::<(), ErrorV>(()),
        ),
        session.bridge_event_applied(HidpBridgeEventV::Unsupported { channel }) == (
            session,
            Ok::<(), ErrorV>(()),
        ),
{
}

/// A message on the control channel that cannot be read is answered, on that
/// channel, by the handshake for an invalid parameter; one on the interrupt
/// channel is dropped without a word.
pub proof fn unreadable_messages_are_answered_on_the_control_channel(
    session: SessionV,
    cid: u16,
)
    requires
        session.protocols.hidp.control_peer_mtu >= 1,
    ensures
        ({
            let (after, result) = session.message_taken(Channel::Control, cid, seq![]);
            let (host, sent) = session.host.sdu_sent(cid, seq![0x04u8]);
            after == (SessionV { host, ..session }) && (result is Ok <==> sent is Ok)
        }),
        session.message_taken(Channel::Interrupt, cid, seq![]) == (session, Ok::<(), ErrorV>(())),
{
    crate::hid_laws::malformed_messages_are_refused(
        Channel::Control,
        0,
        seq![],
        session.protocols.hidp.control_peer_mtu,
    );
    crate::hid_laws::malformed_messages_are_refused(
        Channel::Interrupt,
        0,
        seq![],
        session.protocols.hidp.control_peer_mtu,
    );
    let refusal = crate::hidp::MessageV::Handshake(
        crate::hidp::Handshake(crate::hidp::Handshake::ERR_INVALID_PARAMETER),
    );
    assert(refusal.encode()->Ok_0 =~= seq![0x04u8]);
}

/// Reports are taken while the interrupt channel is open, and refused otherwise;
/// a report too large for the peer is refused too. A report would go out at once
/// exactly where nothing waits and the controller has room. Reports are drained
/// once nothing waits any more.
pub proof fn reports_need_an_open_interrupt_channel(session: SessionV, payload: Seq<u8>)
    requires
        session.closed == false,
        session.terminal is None,
    ensures
        ({
            let open = session.protocols.interrupt matches Some(channel) && channel.open;
            let (after, result) = session.report_sent(payload);
            &&& !open ==> after == session && (result matches Err(error) && error.kind
                == ErrorKind::SendRejected)
            &&& payload.len() >= session.protocols.hidp.interrupt_peer_mtu ==> after == session && (
            result matches Err(error) && error.kind == ErrorKind::SendRejected)
            &&& open && payload.len() < session.protocols.hidp.interrupt_peer_mtu ==> ({
                let (host, sent) = session.host.sdu_sent(
                    session.protocols.interrupt->0.cid,
                    seq![0xA1u8] + payload,
                );
                &&& sent is Err ==> after == (SessionV { host, ..session }) && (
                result matches Err(error) && error.kind == ErrorKind::SendRejected)
                &&& sent is Ok ==> (after, result) == (SessionV { host, ..session }).output_drained()
            })
            &&& session.can_send_at_once() <==> open && session.host.flow.queued.len() == 0
                && session.host.flow.held() < session.host.flow.total_packets
        }),
{
    crate::hid_laws::reports_of_the_device_fit_the_peer(
        payload,
        session.protocols.hidp.interrupt_peer_mtu,
    );
}

} // verus!
