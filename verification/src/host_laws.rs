//! What holds of the host whatever the controller and the peer send.

use vstd::prelude::*;

use crate::acl_flow::{
    cleared_handle_holds_nothing, completion_returns_credit, flush_keeps_capacity, held_below,
    held_of, without_data, AclFlowV, HostOutputV,
};
use crate::classic_host::{
    opened_channels, servers_installed, units_queued, ClassicEvent, HostV, StoreReply,
};
use crate::hci::AclPacketV;
use crate::l2cap::classic::{
    spec_fault, ChannelSpec, ClassicChannelSpec, ClassicChannelState, ClassicChannelV,
};
use crate::l2cap::control::ControlFrameV;
use crate::l2cap::information::InformationCapabilities;
use crate::l2cap::manager::ChannelManagerV;
use crate::l2cap::negotiation::{settled, NegotiationV};
use crate::l2cap::{
    checked_options, decode_options, L2capPduV, CONFIGURATION_SUCCESS, L2CAP_SIGNALING_CID,
};

verus! {

proof fn lemma_nothing_held(bound: int)
    requires
        0 <= bound,
    ensures
        held_below(Map::empty(), bound) == 0,
    decreases bound,
{
    if bound > 0 {
        lemma_nothing_held(bound - 1);
    }
}

/// A new host has given the controller nothing.
pub proof fn new_host_is_within_capacity(payload_size: usize, total_packets: u16)
    ensures
        HostV::initial(payload_size, total_packets).flow.within_capacity(),
{
    lemma_nothing_held(65536);
}

proof fn lemma_flush_capacity(host: HostV)
    requires
        host.flow.within_capacity(),
    ensures
        host.channels_flushed().0.flow.within_capacity(),
{
    if let Some(connection) = host.connection {
        let (queued, result) = units_queued(
            host.flow.queued,
            connection.handle,
            host.flow.payload_size as int,
            connection.channels.outbound,
        );
        flush_keeps_capacity(AclFlowV { queued, ..host.flow });
    }
}

/// No event of the controller makes the host give it more packets than it has
/// room for.
pub proof fn events_keep_capacity(host: HostV, event: ClassicEvent, reply: StoreReply)
    requires
        host.flow.within_capacity(),
    ensures
        host.event_handled(event, reply).0.flow.within_capacity(),
{
    match event {
        ClassicEvent::NumberOfCompletedPackets { connection_handle, completed } => {
            if host.flow.completed(connection_handle, completed) is Ok {
                completion_returns_credit(host.flow, connection_handle, completed);
                flush_keeps_capacity(host.flow.completed(connection_handle, completed)->Ok_0);
            }
        },
        ClassicEvent::DisconnectionComplete { connection_handle, .. } => {
            cleared_handle_holds_nothing(host.flow, connection_handle);
        },
        _ => {},
    }
}

/// Neither data of the peer nor a request of this end makes the host give the
/// controller more packets than it has room for.
pub proof fn traffic_keeps_capacity(
    host: HostV,
    packet: AclPacketV,
    cid: u16,
    sdu: Seq<u8>,
    psm: u32,
    spec: ClassicChannelSpec,
)
    requires
        host.flow.within_capacity(),
    ensures
        host.acl_received(packet).0.flow.within_capacity(),
        host.sdu_sent(cid, sdu).0.flow.within_capacity(),
        host.channel_requested(psm, spec).0.flow.within_capacity(),
{
    if let Some(connection) = host.connection {
        let sent = connection.channels.sdu_sent(cid, sdu).0;
        lemma_flush_capacity(host.with_channels(sent));
        let requested = connection.channels.connect_outcome(
            psm,
            spec_fault(spec),
            ChannelSpec::Basic(spec),
        ).0;
        lemma_flush_capacity(host.with_channels(requested));
        let (assembler, result) = crate::hci::fed(host.assembler, packet);
        let next = HostV { assembler, ..host };
        if let Ok(Some(bytes)) = result {
            if let Ok(pdu) = L2capPduV::decode(bytes) {
                lemma_flush_capacity(
                    next.with_channels(connection.channels.pdu_received(pdu).0),
                );
            }
        }
    }
}

proof fn lemma_no_data(outputs: Seq<HostOutputV>, handle: u16)
    ensures
        forall|i: int|
            0 <= i < without_data(outputs, handle).len() ==> !((#[trigger] without_data(
                outputs,
                handle,
            )[i]) matches HostOutputV::Acl(packet) && packet.connection_handle == handle),
    decreases outputs.len(),
{
    if outputs.len() > 0 {
        lemma_no_data(outputs.drop_last(), handle);
        let kept = without_data(outputs, handle);
        let before = without_data(outputs.drop_last(), handle);
        assert forall|i: int| 0 <= i < kept.len() implies !((#[trigger] kept[i]) matches HostOutputV::Acl(
            packet,
        ) && packet.connection_handle == handle) by {
            if i < before.len() {
                assert(kept[i] == before[i]);
            }
        }
    }
}

/// Once a connection is gone, the host has no data for it any more, holds no
/// credit of it, and starts anew with what comes in under its handle.
pub proof fn disconnection_clears_the_handle(host: HostV, handle: u16, reason: u8)
    requires
        host.disconnected(handle, reason).1 is Ok,
    ensures
        ({
            let after = host.disconnected(handle, reason).0;
            &&& after.connection is None
            &&& !after.assembler.contains_key(handle)
            &&& held_of(after.flow.in_flight, handle) == 0
            &&& forall|i: int|
                0 <= i < after.flow.queued.len() ==> (
                #[trigger] after.flow.queued[i]).connection_handle != handle
            &&& forall|i: int|
                0 <= i < after.output.len() ==> !((#[trigger] after.output[i]) matches HostOutputV::Acl(
                    packet,
                ) && packet.connection_handle == handle)
        }),
{
    cleared_handle_holds_nothing(host.flow, handle);
    lemma_no_data(host.output, handle);
    let after = host.disconnected(handle, reason).0;
    let kept = without_data(host.output, handle);
    assert forall|i: int| 0 <= i < after.output.len() implies !((
    #[trigger] after.output[i]) matches HostOutputV::Acl(packet) && packet.connection_handle
        == handle) by {
        if i < kept.len() {
            assert(after.output[i] == kept[i]);
        }
    }
}

impl ChannelManagerV {
    /// Every channel that the peer opened is known.
    pub open spec fn accepted_known(self) -> bool {
        forall|i: int|
            0 <= i < self.accepted_channels.len() ==> self.channels.contains_key(
                #[trigger] self.accepted_channels[i],
            )
    }
}

proof fn lemma_known_kept(before: ChannelManagerV, after: ChannelManagerV)
    requires
        before.accepted_known(),
        before.channels.dom().subset_of(after.channels.dom()),
        after.accepted_channels == before.accepted_channels,
    ensures
        after.accepted_known(),
{
    assert forall|i: int| 0 <= i < after.accepted_channels.len() implies after.channels.contains_key(
        #[trigger] after.accepted_channels[i],
    ) by {
        let cid = before.accepted_channels[i];
        assert(before.channels.contains_key(cid));
        assert(before.channels.dom().contains(cid));
    }
}

/// Whatever a peer sends, every channel that the host reports as opened is one
/// that it knows.
pub proof fn receiving_keeps_opened_channels_known(manager: ChannelManagerV, pdu: L2capPduV)
    requires
        manager.accepted_known(),
    ensures
        manager.pdu_received(pdu).0.accepted_known(),
{
    reveal(ChannelManagerV::flushed);
    reveal(ChannelManagerV::data_received);
    if pdu.cid == L2CAP_SIGNALING_CID {
        if let Ok(frame) = ControlFrameV::decode(pdu.payload) {
            lemma_control_known(manager, frame);
        }
    } else {
        let after = manager.data_received(pdu.cid, pdu.payload).0;
        lemma_known_kept(manager, after);
    }
}

proof fn lemma_opened_known(manager: ChannelManagerV, cid: u16)
    requires
        manager.accepted_known(),
    ensures
        manager.opened(cid).accepted_known(),
{
    reveal(ChannelManagerV::opened);
    let after = manager.opened(cid);
    assert forall|i: int| 0 <= i < after.accepted_channels.len() implies after.channels.contains_key(
        #[trigger] after.accepted_channels[i],
    ) by {
        if i < manager.accepted_channels.len() {
            assert(manager.channels.contains_key(manager.accepted_channels[i]));
        }
    }
}

proof fn lemma_with_channel_known(manager: ChannelManagerV, cid: u16, channel: ClassicChannelV)
    requires
        manager.accepted_known(),
    ensures
        manager.with_channel(cid, channel).accepted_known(),
{
    lemma_known_kept(manager, manager.with_channel(cid, channel));
}

proof fn lemma_configure_request_known(
    manager: ChannelManagerV,
    identifier: u8,
    cid: u16,
    flags: u16,
    encoded: Seq<u8>,
)
    requires
        manager.accepted_known(),
    ensures
        manager.configure_request_received(identifier, cid, flags, encoded).0.accepted_known(),
{
    reveal(ChannelManagerV::configure_request_received);
    if decode_options(encoded) is Ok && manager.channels.contains_key(cid) {
        let channel = manager.channels[cid];
        let seen = NegotiationV::start(channel.peer_mtu).reviewed_all(
            decode_options(encoded)->Ok_0,
            channel.mode,
        );
        let settlement = settled(channel, flags, seen);
        lemma_with_channel_known(manager, cid, settlement.channel);
        let updated = manager.with_channel(cid, settlement.channel);
        if settlement.fault is None && checked_options(settlement.response) is Ok {
            let answered = updated.control_queued(
                ControlFrameV::ConfigureResponse {
                    identifier,
                    source_cid: channel.destination_cid,
                    flags: 0,
                    result: settlement.result,
                    options: checked_options(settlement.response)->Ok_0,
                },
            );
            lemma_known_kept(updated, answered);
            lemma_opened_known(answered, cid);
        }
    }
}

proof fn lemma_control_known(manager: ChannelManagerV, frame: ControlFrameV)
    requires
        manager.accepted_known(),
    ensures
        manager.control_received(frame).0.accepted_known(),
{
    reveal(ChannelManagerV::control_received);
    let after = manager.control_received(frame).0;
    match frame {
        ControlFrameV::ConnectionRequest { .. } => {
            reveal(ChannelManagerV::connection_request_received);
            lemma_known_kept(manager, after);
        },
        ControlFrameV::ConnectionResponse { .. } => {
            reveal(ChannelManagerV::connection_response_received);
            lemma_known_kept(manager, after);
        },
        ControlFrameV::ConfigureRequest { identifier, destination_cid, flags, options } => {
            lemma_configure_request_known(manager, identifier, destination_cid, flags, options);
        },
        ControlFrameV::ConfigureResponse { source_cid, result, .. } => {
            reveal(ChannelManagerV::configure_response_received);
            if manager.channels.contains_key(source_cid) {
                let channel = manager.channels[source_cid];
                let updated = if result == CONFIGURATION_SUCCESS {
                    ClassicChannelV { configuration_response_received: true, ..channel }
                } else {
                    ClassicChannelV {
                        connection_result: Some(result),
                        state: ClassicChannelState::Closed,
                        ..channel
                    }
                };
                lemma_with_channel_known(manager, source_cid, updated);
                lemma_opened_known(manager.with_channel(source_cid, updated), source_cid);
            }
        },
        ControlFrameV::DisconnectionRequest { .. } => {
            reveal(ChannelManagerV::disconnection_request_received);
            lemma_known_kept(manager, after);
        },
        ControlFrameV::DisconnectionResponse { .. } => {
            reveal(ChannelManagerV::disconnection_response_received);
            lemma_known_kept(manager, after);
        },
        _ => {
            lemma_known_kept(manager, after);
        },
    }
}

/// What the host reports as opened is all that was opened.
pub proof fn opened_channels_are_reported(
    channels: Map<u16, ClassicChannelV>,
    cids: Seq<u16>,
)
    requires
        forall|i: int| 0 <= i < cids.len() ==> channels.contains_key(#[trigger] cids[i]),
    ensures
        opened_channels(channels, cids) == cids.map_values(
            |cid: u16| (channels[cid].psm, cid),
        ),
    decreases cids.len(),
{
    let all = cids.map_values(|cid: u16| (channels[cid].psm, cid));
    if cids.len() == 0 {
        assert(all =~= seq![]);
    } else {
        let before = cids.drop_last();
        assert forall|i: int| 0 <= i < before.len() implies channels.contains_key(
            #[trigger] before[i],
        ) by {
            assert(before[i] == cids[i]);
        }
        opened_channels_are_reported(channels, before);
        assert(channels.contains_key(cids[cids.len() - 1]));
        assert(all =~= before.map_values(|cid: u16| (channels[cid].psm, cid)).push(
            (channels[cids.last()].psm, cids.last()),
        ));
    }
}

impl HostV {
    /// Every channel that the peer opened and the session does not know of yet is
    /// one of the link's.
    pub open spec fn opened_known(self) -> bool {
        self.connection matches Some(connection) ==> connection.channels.accepted_known()
    }
}

/// Whatever happens, every channel that the host is to report as opened is one
/// of the link's, so that none is lost.
pub proof fn host_keeps_opened_channels_known(
    host: HostV,
    event: ClassicEvent,
    reply: StoreReply,
    packet: AclPacketV,
    cid: u16,
    sdu: Seq<u8>,
    psm: u32,
    spec: ClassicChannelSpec,
)
    requires
        host.opened_known(),
    ensures
        host.event_handled(event, reply).0.opened_known(),
        host.acl_received(packet).0.opened_known(),
        host.sdu_sent(cid, sdu).0.opened_known(),
        host.channel_requested(psm, spec).0.opened_known(),
{
    if let Some(connection) = host.connection {
        let manager = connection.channels;
        reveal(ChannelManagerV::sdu_sent);
        reveal(ChannelManagerV::flushed);
        lemma_known_kept(manager, manager.sdu_sent(cid, sdu).0);
        let requested = manager.connect_outcome(
            psm,
            spec_fault(spec),
            ChannelSpec::Basic(spec),
        ).0;
        lemma_known_kept(manager, requested);
        let (assembler, result) = crate::hci::fed(host.assembler, packet);
        if let Ok(Some(bytes)) = result {
            if let Ok(pdu) = L2capPduV::decode(bytes) {
                receiving_keeps_opened_channels_known(manager, pdu);
            }
        }
    }
    if let ClassicEvent::ConnectionComplete { .. } = event {
        lemma_installed_known(
            host.servers,
            0,
            ChannelManagerV::initial(InformationCapabilities::initial()),
        );
    }
}

proof fn lemma_installed_known(
    servers: Map<u32, ClassicChannelSpec>,
    from: int,
    channels: ChannelManagerV,
)
    requires
        channels.accepted_known(),
    ensures
        servers_installed(servers, from, channels) matches Ok(installed)
            ==> installed.accepted_known(),
    decreases 0x1_0000_0000 - from,
{
    if from <= 0xFFFF_FFFF {
        if !servers.contains_key(from as u32) {
            lemma_installed_known(servers, from + 1, channels);
        } else if spec_fault(servers[from as u32]) is None {
            let (next, result) = channels.registered(
                Some(from as u32),
                ChannelSpec::Basic(servers[from as u32]),
            );
            if result is Ok {
                lemma_known_kept(channels, next);
                lemma_installed_known(servers, from + 1, next);
            }
        }
    }
}

} // verus!
