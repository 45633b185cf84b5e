//! What holds of the channels of a link as a whole: which identifiers are
//! given out, when a channel is open, and what the two ends make of each
//! other's messages.

use vstd::prelude::*;

use super::classic::{
    ertm_option_reads_back, ertm_spec_fault, spec_fault, valid_psm, ChannelSpec,
    ClassicChannelState, ClassicChannelV, ErtmOption, L2CAP_ACL_U_DYNAMIC_CID_RANGE_START,
    RETRANSMISSION_MODE_ENHANCED,
};
use super::control::{control_frame_reads_back, ControlFrameV};
use super::ertm::ErtmEngineV;
use super::ertm_laws::{
    new_engine_is_sound, receiving_keeps_engine_sound, refused_operations_have_no_output,
    same_output, sending_keeps_engine_sound, waiting_keeps_engine_sound,
};
use super::information::InformationCapabilities;
use super::manager::{
    identifier_after, least_free_cid, least_free_psm, own_options, ChannelManagerV,
};
use super::negotiation::{engine_config, settled, NegotiationV};
use super::{
    checked_options, decode_options, encode_options, option_values_fit, options_read_back,
    self_delimiting_psm, ConfigurationOptionV, L2capPduV, CONFIGURATION_SUCCESS,
    CONNECTION_SUCCESSFUL, L2CAP_SIGNALING_CID,
};

verus! {

/// The channel identifier given out is the least one that is not in use, and
/// none is refused while one is free.
pub proof fn free_cid_is_least(channels: Map<u16, ClassicChannelV>, from: int)
    requires
        0 <= from <= 65536,
    ensures
        match least_free_cid(channels, from) {
            Some(cid) => {
                &&& from <= cid
                &&& !channels.contains_key(cid)
                &&& forall|lower: u16| from <= lower < cid ==> channels.contains_key(lower)
            },
            None => forall|cid: u16| from <= cid ==> channels.contains_key(cid),
        },
    decreases 65536 - from,
{
    if from <= 65535 {
        free_cid_is_least(channels, from + 1);
    }
}

/// The PSM given out is a valid, unregistered one, and the least such in the
/// dynamic range.
pub proof fn free_psm_is_least(servers: Map<u32, ChannelSpec>, from: int)
    requires
        0 <= from <= 65537,
        from % 2 == 1,
    ensures
        match least_free_psm(servers, from) {
            Some(psm) => {
                &&& from <= psm <= 65535
                &&& valid_psm(psm)
                &&& !servers.contains_key(psm)
                &&& forall|lower: u32|
                    from <= lower < psm && valid_psm(lower) ==> servers.contains_key(lower)
            },
            None => forall|psm: u32|
                from <= psm <= 65535 && valid_psm(psm) ==> servers.contains_key(psm),
        },
    decreases 65538 - from,
{
    if from <= 65535 {
        free_psm_is_least(servers, from + 2);
    }
}

/// No signaling identifier is zero, and each differs from the one before.
pub proof fn identifiers_are_not_zero(identifier: u8)
    ensures
        identifier_after(identifier) != 0,
        identifier_after(identifier) != identifier,
{
}

/// What holds of every channel: it is found under its own identifier, it is
/// open only after both ends' configurations were accepted, and it has an engine
/// exactly where its mode calls for one. The engine holds back nothing that is to
/// be sent or delivered.
pub open spec fn channel_consistent(cid: u16, channel: ClassicChannelV) -> bool {
    &&& channel.source_cid == cid
    &&& cid >= L2CAP_ACL_U_DYNAMIC_CID_RANGE_START
    &&& channel.mode == channel.spec.spec_mode()
    &&& channel.state == ClassicChannelState::Open || channel.state
        == ClassicChannelState::WaitDisconnect ==> channel.peer_configuration_received
        && channel.configuration_response_received
    &&& channel.spec is Basic ==> channel.ertm is None
    &&& channel.spec is Ertm && channel.peer_configuration_received ==> channel.ertm is Some
    &&& channel.ertm matches Some(engine) ==> engine.sound() && engine.outbound.len() == 0
        && engine.received.len() == 0
}

impl ChannelManagerV {
    /// Every channel is consistent.
    pub open spec fn consistent(self) -> bool {
        forall|cid: u16| #[trigger]
            self.channels.contains_key(cid) ==> channel_consistent(cid, self.channels[cid])
    }
}

proof fn lemma_with_channel(manager: ChannelManagerV, cid: u16, channel: ClassicChannelV)
    requires
        manager.consistent(),
        channel_consistent(cid, channel),
    ensures
        manager.with_channel(cid, channel).consistent(),
{
}

#[verifier::spinoff_prover]
#[verifier::rlimit(40)]
proof fn lemma_engine_stepped(
    manager: ChannelManagerV,
    cid: u16,
    step: (ErtmEngineV, Result<(), Seq<char>>),
)
    requires
        manager.consistent(),
        manager.has_engine(cid),
        step.0.sound(),
        step.1 is Err ==> same_output(manager.channels[cid].ertm->0, step.0),
    ensures
        manager.engine_stepped(cid, step).0.consistent(),
{
    reveal(ChannelManagerV::flushed);
}

/// A new link has no channel that could be inconsistent.
pub proof fn new_link_is_consistent(information: InformationCapabilities)
    ensures
        ChannelManagerV::initial(information).consistent(),
{
}

/// Asking for a connection or for information, offering a server and closing a
/// channel keep all channels consistent, and so does taking anything that waits
/// to be taken.
pub proof fn requests_keep_channels_consistent(
    manager: ChannelManagerV,
    psm: u32,
    spec: ChannelSpec,
    cid: u16,
    info_type: u16,
)
    requires
        manager.consistent(),
    ensures
        manager.connection_requested(psm, spec).0.consistent(),
        manager.disconnection_requested(cid).0.consistent(),
        manager.registered(Some(psm), spec).0.consistent(),
        manager.registered(None, spec).0.consistent(),
        manager.information_requested(info_type).consistent(),
        forall|after: ChannelManagerV|
            after.channels == manager.channels ==> #[trigger] after.consistent(),
{
    free_cid_is_least(manager.channels, L2CAP_ACL_U_DYNAMIC_CID_RANGE_START as int);
}

/// Sending on a channel, whether it is accepted or refused, keeps all channels
/// consistent.
pub proof fn sending_keeps_channels_consistent(manager: ChannelManagerV, cid: u16, sdu: Seq<u8>)
    requires
        manager.consistent(),
    ensures
        manager.sdu_sent(cid, sdu).0.consistent(),
{
    reveal(ChannelManagerV::sdu_sent);
    if manager.has_engine(cid) {
        let engine = manager.channels[cid].ertm->0;
        sending_keeps_engine_sound(engine, sdu);
        refused_operations_have_no_output(engine, sdu, seq![], 0, false);
        lemma_engine_stepped(manager, cid, engine.sdu_sent(sdu));
    }
}

/// The passing of time and a change of the busy state keep all channels consistent.
pub proof fn waiting_keeps_channels_consistent(
    manager: ChannelManagerV,
    from: int,
    ticks: u32,
    cid: u16,
    busy: bool,
)
    requires
        manager.consistent(),
        from >= 0,
    ensures
        manager.ticked_from(from, ticks).0.consistent(),
        manager.busy_set(cid, busy).0.consistent(),
    decreases 65536 - from,
{
    if manager.has_engine(cid) {
        let engine = manager.channels[cid].ertm->0;
        waiting_keeps_engine_sound(engine, ticks, busy);
        refused_operations_have_no_output(engine, seq![], seq![], ticks, busy);
        lemma_engine_stepped(manager, cid, engine.busy_set(busy));
    }
    if from <= 65535 {
        if manager.has_engine(from as u16) {
            let engine = manager.channels[from as u16].ertm->0;
            waiting_keeps_engine_sound(engine, ticks, busy);
            refused_operations_have_no_output(engine, seq![], seq![], ticks, busy);
            lemma_engine_stepped(manager, from as u16, engine.ticked(ticks));
            let (next, result) = manager.engine_stepped(from as u16, engine.ticked(ticks));
            waiting_keeps_channels_consistent(next, from + 1, ticks, cid, busy);
        } else {
            waiting_keeps_channels_consistent(manager, from + 1, ticks, cid, busy);
        }
    }
}

proof fn lemma_opened(manager: ChannelManagerV, cid: u16)
    requires
        manager.consistent(),
    ensures
        manager.opened(cid).consistent(),
{
    reveal(ChannelManagerV::opened);
}

proof fn lemma_settled(cid: u16, channel: ClassicChannelV, flags: u16, seen: NegotiationV)
    requires
        channel_consistent(cid, channel),
    ensures
        channel_consistent(cid, settled(channel, flags, seen).channel),
{
    if let (ChannelSpec::Ertm(spec), Some(parameters)) = (channel.spec, seen.ertm) {
        if engine_config(spec, parameters).checked() is Ok {
            new_engine_is_sound(engine_config(spec, parameters));
        }
    }
}

proof fn lemma_control_received(manager: ChannelManagerV, frame: ControlFrameV)
    requires
        manager.consistent(),
    ensures
        manager.control_received(frame).0.consistent(),
{
    reveal(ChannelManagerV::control_received);
    match frame {
        ControlFrameV::ConnectionRequest { .. } => {
            reveal(ChannelManagerV::connection_request_received);
            free_cid_is_least(manager.channels, L2CAP_ACL_U_DYNAMIC_CID_RANGE_START as int);
        },
        ControlFrameV::ConnectionResponse { .. } => {
            reveal(ChannelManagerV::connection_response_received);
        },
        ControlFrameV::ConfigureRequest { identifier, destination_cid, flags, options } => {
            reveal(ChannelManagerV::configure_request_received);
            if decode_options(options) is Ok && manager.channels.contains_key(destination_cid) {
                let channel = manager.channels[destination_cid];
                let seen = NegotiationV::start(channel.peer_mtu).reviewed_all(
                    decode_options(options)->Ok_0,
                    channel.mode,
                );
                let settlement = settled(channel, flags, seen);
                lemma_settled(destination_cid, channel, flags, seen);
                let updated = manager.with_channel(destination_cid, settlement.channel);
                lemma_with_channel(manager, destination_cid, settlement.channel);
                if settlement.fault is None && checked_options(settlement.response) is Ok {
                    lemma_opened(
                        updated.control_queued(
                            ControlFrameV::ConfigureResponse {
                                identifier,
                                source_cid: channel.destination_cid,
                                flags: 0,
                                result: settlement.result,
                                options: checked_options(settlement.response)->Ok_0,
                            },
                        ),
                        destination_cid,
                    );
                }
            }
        },
        ControlFrameV::ConfigureResponse { source_cid, result, .. } => {
            reveal(ChannelManagerV::configure_response_received);
            if manager.channels.contains_key(source_cid) {
                let channel = manager.channels[source_cid];
                let updated = if result == CONFIGURATION_SUCCESS {
                    ClassicChannelV { configuration_response_received: true, ..channel }
                } else {
                    ClassicChannelV {
                        connection_result: Some(result),
                        state: ClassicChannelState::Closed,
                        ..channel
                    }
                };
                lemma_with_channel(manager, source_cid, updated);
                lemma_opened(manager.with_channel(source_cid, updated), source_cid);
            }
        },
        ControlFrameV::DisconnectionRequest { .. } => {
            reveal(ChannelManagerV::disconnection_request_received);
        },
        ControlFrameV::DisconnectionResponse { .. } => {
            reveal(ChannelManagerV::disconnection_response_received);
        },
        _ => {},
    }
}

/// Whatever the peer sends, on the signaling channel or any other, well formed
/// or not, all channels stay consistent. In particular no message of the peer's
/// alone opens a channel.
pub proof fn receiving_keeps_channels_consistent(manager: ChannelManagerV, pdu: L2capPduV)
    requires
        manager.consistent(),
    ensures
        manager.pdu_received(pdu).0.consistent(),
{
    if pdu.cid == L2CAP_SIGNALING_CID {
        if ControlFrameV::decode(pdu.payload) is Ok {
            lemma_control_received(manager, ControlFrameV::decode(pdu.payload)->Ok_0);
        }
    } else {
        reveal(ChannelManagerV::data_received);
        if manager.has_engine(pdu.cid) {
            let channel = manager.channels[pdu.cid];
            let engine = channel.ertm->0;
            let body = if channel.fcs_enabled {
                super::classic::fcs_stripped(pdu.cid, pdu.payload)
            } else {
                Ok(pdu.payload)
            };
            if body is Ok {
                receiving_keeps_engine_sound(engine, body->Ok_0);
                refused_operations_have_no_output(engine, seq![], body->Ok_0, 0, false);
                lemma_engine_stepped(manager, pdu.cid, engine.frame_received(body->Ok_0));
            }
        }
    }
}

/// On an open basic mode channel the peer gets exactly the SDU that was sent.
pub proof fn basic_sdu_crosses(
    sender: ChannelManagerV,
    receiver: ChannelManagerV,
    source_cid: u16,
    sdu: Seq<u8>,
)
    requires
        sender.channels.contains_key(source_cid),
        sender.channels[source_cid].state == ClassicChannelState::Open,
        sender.channels[source_cid].ertm is None,
        sdu.len() <= sender.channels[source_cid].peer_mtu,
        ({
            let cid = sender.channels[source_cid].destination_cid;
            &&& cid != L2CAP_SIGNALING_CID
            &&& receiver.channels.contains_key(cid)
            &&& receiver.channels[cid].state == ClassicChannelState::Open
            &&& receiver.channels[cid].ertm is None
            &&& sdu.len() <= receiver.channels[cid].mtu
        }),
    ensures
        ({
            let cid = sender.channels[source_cid].destination_cid;
            let (sent, sent_result) = sender.sdu_sent(source_cid, sdu);
            let (got, got_result) = receiver.pdu_received(sent.outbound.last());
            &&& sent_result is Ok
            &&& got_result is Ok
            &&& got.channels[cid].received == receiver.channels[cid].received.push(sdu)
        }),
{
    reveal(ChannelManagerV::sdu_sent);
    reveal(ChannelManagerV::data_received);
}

/// The specification is one that servers and connections accept.
pub open spec fn acceptable_spec(spec: ChannelSpec) -> bool {
    match spec {
        ChannelSpec::Basic(basic) => spec_fault(basic) is None,
        ChannelSpec::Ertm(ertm) => ertm_spec_fault(ertm) is None,
    }
}

/// Two specifications that configuration can bring together: the same mode, and
/// the same choice about the frame check sequence.
pub open spec fn compatible(left: ChannelSpec, right: ChannelSpec) -> bool {
    match (left, right) {
        (ChannelSpec::Basic(_), ChannelSpec::Basic(_)) => true,
        (ChannelSpec::Ertm(l), ChannelSpec::Ertm(r)) => l.fcs_enabled == r.fcs_enabled,
        _ => false,
    }
}

spec fn wish_of(spec: ChannelSpec) -> Option<ErtmOption> {
    match spec {
        ChannelSpec::Basic(_) => None,
        ChannelSpec::Ertm(ertm) => Some(
            ErtmOption {
                mode: RETRANSMISSION_MODE_ENHANCED,
                tx_window_size: ertm.tx_window_size,
                max_retransmissions: ertm.max_retransmissions,
                mps: ertm.mps,
            },
        ),
    }
}

spec fn fcs_of(spec: ChannelSpec) -> Option<bool> {
    match spec {
        ChannelSpec::Ertm(ertm) if ertm.fcs_enabled => Some(true),
        _ => None,
    }
}

proof fn lemma_own_options_encode(spec: ChannelSpec)
    ensures
        checked_options(own_options(spec)) == Ok::<Seq<u8>, Seq<char>>(
            encode_options(own_options(spec)),
        ),
        decode_options(encode_options(own_options(spec))) == Ok::<
            Seq<ConfigurationOptionV>,
            Seq<char>,
        >(own_options(spec)),
        encode_options(own_options(spec)).len() <= 20,
{
    let options = own_options(spec);
    assert forall|i: int| 0 <= i < options.len() implies (#[trigger] options[i]).valid() by {}
    options_read_back(options);
    reveal_with_fuel(encode_options, 4);
    assert(option_values_fit(options)) by {
        assert forall|i: int| 0 <= i < options.len() implies (#[trigger] options[i]).value.len()
            <= 255 by {
            assert(options[i].valid());
        }
    }
}

proof fn lemma_own_options_accepted(spec: ChannelSpec, peer_mtu: u16)
    requires
        acceptable_spec(spec),
    ensures
        NegotiationV::start(peer_mtu).reviewed_all(own_options(spec), spec.spec_mode()) == (
        NegotiationV {
            result: CONFIGURATION_SUCCESS,
            response: own_options(spec),
            peer_mtu: spec.spec_mtu(),
            ertm: wish_of(spec),
            fcs: fcs_of(spec),
        }),
{
    let options = own_options(spec);
    let mode = spec.spec_mode();
    let start = NegotiationV::start(peer_mtu);
    let first = options[0];
    let one = start.reviewed(first, mode);
    assert(one.response =~= seq![first]);
    match spec {
        ChannelSpec::Basic(_) => {
            assert(options.skip(1) =~= Seq::<ConfigurationOptionV>::empty());
            assert(one.reviewed_all(options.skip(1), mode) == one);
        },
        ChannelSpec::Ertm(ertm) => {
            ertm_option_reads_back(ertm);
            let rest = options.skip(1);
            let two = one.reviewed(rest[0], mode);
            assert(two.response =~= seq![first, rest[0]]);
            let tail = rest.skip(1);
            if ertm.fcs_enabled {
                let three = two.reviewed(tail[0], mode);
                assert(three.response =~= options);
                assert(tail.skip(1) =~= Seq::<ConfigurationOptionV>::empty());
                assert(three.reviewed_all(tail.skip(1), mode) == three);
                assert(two.reviewed_all(tail, mode) == three);
            } else {
                assert(two.response =~= options);
                assert(tail =~= Seq::<ConfigurationOptionV>::empty());
                assert(two.reviewed_all(tail, mode) == two);
            }
            assert(one.reviewed_all(rest, mode) == two.reviewed_all(tail, mode));
        },
    }
}

/// What a channel is once the peer's configuration was accepted.
spec fn peer_configured(channel: ClassicChannelV, peer: ChannelSpec) -> ClassicChannelV {
    match (channel.spec, wish_of(peer)) {
        (ChannelSpec::Ertm(spec), Some(parameters)) => ClassicChannelV {
            peer_mtu: peer.spec_mtu(),
            peer_configuration_received: true,
            peer_mps: parameters.mps,
            fcs_enabled: spec.fcs_enabled,
            ertm: Some(ErtmEngineV::initial(engine_config(spec, parameters))),
            ..channel
        },
        _ => ClassicChannelV {
            peer_mtu: peer.spec_mtu(),
            peer_configuration_received: true,
            ..channel
        },
    }
}

proof fn lemma_peer_configuration_settles(
    manager: ChannelManagerV,
    cid: u16,
    identifier: u8,
    peer: ChannelSpec,
)
    requires
        manager.channels.contains_key(cid),
        acceptable_spec(peer),
        acceptable_spec(manager.channels[cid].spec),
        compatible(manager.channels[cid].spec, peer),
        manager.channels[cid].mode == manager.channels[cid].spec.spec_mode(),
    ensures
        manager.configure_request_received(identifier, cid, 0, encode_options(own_options(peer)))
            == (
            manager.with_channel(cid, peer_configured(manager.channels[cid], peer)).control_queued(
                ControlFrameV::ConfigureResponse {
                    identifier,
                    source_cid: manager.channels[cid].destination_cid,
                    flags: 0,
                    result: CONFIGURATION_SUCCESS,
                    options: encode_options(own_options(peer)),
                },
            ).opened(cid),
            Ok::<(), Seq<char>>(()),
        ),
{
    reveal(ChannelManagerV::configure_request_received);
    lemma_own_options_encode(peer);
    lemma_own_options_accepted(peer, manager.channels[cid].peer_mtu);
}

proof fn lemma_frame_arrives(manager: ChannelManagerV, frame: ControlFrameV)
    requires
        frame.valid(),
    ensures
        manager.pdu_received(L2capPduV { cid: L2CAP_SIGNALING_CID, payload: frame.encode() })
            == manager.control_received(frame),
{
    control_frame_reads_back(frame, Seq::<u8>::empty());
    assert(frame.encode() + Seq::<u8>::empty() =~= frame.encode());
}

/// The end that asked for the channel handles the answer, the peer's
/// configuration and the answer to its own, and has the channel open.
#[verifier::spinoff_prover]
#[verifier::rlimit(40)]
proof fn lemma_client_side(
    client: ChannelManagerV,
    cid: u16,
    remote_cid: u16,
    psm: u32,
    own: ChannelSpec,
    peer: ChannelSpec,
    first_identifier: u8,
    second_identifier: u8,
)
    requires
        client.channels.contains_key(cid),
        client.channels[cid] == ClassicChannelV::started(psm, cid, own),
        acceptable_spec(own),
        acceptable_spec(peer),
        compatible(own, peer),
    ensures
        ({
            let answered = client.pdu_received(
                L2capPduV {
                    cid: L2CAP_SIGNALING_CID,
                    payload: ControlFrameV::ConnectionResponse {
                        identifier: first_identifier,
                        destination_cid: remote_cid,
                        source_cid: cid,
                        result: CONNECTION_SUCCESSFUL,
                        status: 0,
                    }.encode(),
                },
            );
            let configured = answered.0.pdu_received(
                L2capPduV {
                    cid: L2CAP_SIGNALING_CID,
                    payload: ControlFrameV::ConfigureRequest {
                        identifier: second_identifier,
                        destination_cid: cid,
                        flags: 0,
                        options: encode_options(own_options(peer)),
                    }.encode(),
                },
            );
            let own_identifier = identifier_after(client.identifier);
            let opened = configured.0.pdu_received(
                L2capPduV {
                    cid: L2CAP_SIGNALING_CID,
                    payload: ControlFrameV::ConfigureResponse {
                        identifier: own_identifier,
                        source_cid: cid,
                        flags: 0,
                        result: CONFIGURATION_SUCCESS,
                        options: encode_options(own_options(own)),
                    }.encode(),
                },
            );
            &&& answered.1 is Ok
            &&& answered.0.outbound == client.outbound.push(
                L2capPduV {
                    cid: L2CAP_SIGNALING_CID,
                    payload: ControlFrameV::ConfigureRequest {
                        identifier: own_identifier,
                        destination_cid: remote_cid,
                        flags: 0,
                        options: encode_options(own_options(own)),
                    }.encode(),
                },
            )
            &&& configured.1 is Ok
            &&& configured.0.outbound == answered.0.outbound.push(
                L2capPduV {
                    cid: L2CAP_SIGNALING_CID,
                    payload: ControlFrameV::ConfigureResponse {
                        identifier: second_identifier,
                        source_cid: remote_cid,
                        flags: 0,
                        result: CONFIGURATION_SUCCESS,
                        options: encode_options(own_options(peer)),
                    }.encode(),
                },
            )
            &&& opened.1 is Ok
            &&& opened.0.channels.contains_key(cid)
            &&& opened.0.channels[cid].state == ClassicChannelState::Open
            &&& opened.0.channels[cid].destination_cid == remote_cid
            &&& opened.0.channels[cid].peer_mtu == peer.spec_mtu()
        }),
{
    lemma_own_options_encode(own);
    lemma_own_options_encode(peer);
    let response = ControlFrameV::ConnectionResponse {
        identifier: first_identifier,
        destination_cid: remote_cid,
        source_cid: cid,
        result: CONNECTION_SUCCESSFUL,
        status: 0,
    };
    lemma_frame_arrives(client, response);
    reveal(ChannelManagerV::control_received);
    reveal(ChannelManagerV::connection_response_received);
    let answered = client.control_received(response).0;
    let request = ControlFrameV::ConfigureRequest {
        identifier: second_identifier,
        destination_cid: cid,
        flags: 0,
        options: encode_options(own_options(peer)),
    };
    lemma_frame_arrives(answered, request);
    lemma_peer_configuration_settles(answered, cid, second_identifier, peer);
    reveal(ChannelManagerV::opened);
    let configured = answered.control_received(request).0;
    let own_response = ControlFrameV::ConfigureResponse {
        identifier: identifier_after(client.identifier),
        source_cid: cid,
        flags: 0,
        result: CONFIGURATION_SUCCESS,
        options: encode_options(own_options(own)),
    };
    lemma_frame_arrives(configured, own_response);
    reveal(ChannelManagerV::configure_response_received);
}

/// The end with the server handles the connection request, the peer's
/// configuration and the answer to its own, and has the channel open and announced.
#[verifier::spinoff_prover]
#[verifier::rlimit(40)]
proof fn lemma_server_side(
    server: ChannelManagerV,
    remote_cid: u16,
    psm: u32,
    peer: ChannelSpec,
    first_identifier: u8,
    second_identifier: u8,
)
    requires
        server.servers.contains_key(psm),
        server.free_cid() is Some,
        self_delimiting_psm(psm),
        acceptable_spec(server.servers[psm]),
        acceptable_spec(peer),
        compatible(server.servers[psm], peer),
    ensures
        ({
            let cid = server.free_cid()->0;
            let own = server.servers[psm];
            let own_identifier = identifier_after(server.identifier);
            let accepted = server.pdu_received(
                L2capPduV {
                    cid: L2CAP_SIGNALING_CID,
                    payload: ControlFrameV::ConnectionRequest {
                        identifier: first_identifier,
                        psm,
                        source_cid: remote_cid,
                    }.encode(),
                },
            );
            let configured = accepted.0.pdu_received(
                L2capPduV {
                    cid: L2CAP_SIGNALING_CID,
                    payload: ControlFrameV::ConfigureRequest {
                        identifier: second_identifier,
                        destination_cid: cid,
                        flags: 0,
                        options: encode_options(own_options(peer)),
                    }.encode(),
                },
            );
            let opened = configured.0.pdu_received(
                L2capPduV {
                    cid: L2CAP_SIGNALING_CID,
                    payload: ControlFrameV::ConfigureResponse {
                        identifier: own_identifier,
                        source_cid: cid,
                        flags: 0,
                        result: CONFIGURATION_SUCCESS,
                        options: encode_options(own_options(own)),
                    }.encode(),
                },
            );
            &&& accepted.1 is Ok
            &&& accepted.0.outbound == server.outbound.push(
                L2capPduV {
                    cid: L2CAP_SIGNALING_CID,
                    payload: ControlFrameV::ConnectionResponse {
                        identifier: first_identifier,
                        destination_cid: cid,
                        source_cid: remote_cid,
                        result: CONNECTION_SUCCESSFUL,
                        status: 0,
                    }.encode(),
                },
            ).push(
                L2capPduV {
                    cid: L2CAP_SIGNALING_CID,
                    payload: ControlFrameV::ConfigureRequest {
                        identifier: own_identifier,
                        destination_cid: remote_cid,
                        flags: 0,
                        options: encode_options(own_options(own)),
                    }.encode(),
                },
            )
            &&& configured.1 is Ok
            &&& configured.0.outbound == accepted.0.outbound.push(
                L2capPduV {
                    cid: L2CAP_SIGNALING_CID,
                    payload: ControlFrameV::ConfigureResponse {
                        identifier: second_identifier,
                        source_cid: remote_cid,
                        flags: 0,
                        result: CONFIGURATION_SUCCESS,
                        options: encode_options(own_options(peer)),
                    }.encode(),
                },
            )
            &&& opened.1 is Ok
            &&& opened.0.channels.contains_key(cid)
            &&& opened.0.channels[cid].state == ClassicChannelState::Open
            &&& opened.0.channels[cid].destination_cid == remote_cid
            &&& opened.0.channels[cid].peer_mtu == peer.spec_mtu()
            &&& opened.0.accepted_channels == server.accepted_channels.push(cid)
        }),
{
    let cid = server.free_cid()->0;
    let own = server.servers[psm];
    lemma_own_options_encode(own);
    lemma_own_options_encode(peer);
    let connection = ControlFrameV::ConnectionRequest {
        identifier: first_identifier,
        psm,
        source_cid: remote_cid,
    };
    lemma_frame_arrives(server, connection);
    reveal(ChannelManagerV::control_received);
    reveal(ChannelManagerV::connection_request_received);
    let accepted = server.control_received(connection).0;
    let request = ControlFrameV::ConfigureRequest {
        identifier: second_identifier,
        destination_cid: cid,
        flags: 0,
        options: encode_options(own_options(peer)),
    };
    lemma_frame_arrives(accepted, request);
    lemma_peer_configuration_settles(accepted, cid, second_identifier, peer);
    reveal(ChannelManagerV::opened);
    let configured = accepted.control_received(request).0;
    let own_response = ControlFrameV::ConfigureResponse {
        identifier: identifier_after(server.identifier),
        source_cid: cid,
        flags: 0,
        result: CONFIGURATION_SUCCESS,
        options: encode_options(own_options(own)),
    };
    lemma_frame_arrives(configured, own_response);
    reveal(ChannelManagerV::configure_response_received);
}

/// A connection to a registered server comes about: where the two ends want
/// compatible channels and each has an identifier left, the messages that a
/// connection request sets off, delivered in order, are all accepted and leave
/// both ends with an open channel, each knowing the other's identifier and MTU,
/// and the server's end announced.
pub proof fn connection_opens_both_ends(
    client: ChannelManagerV,
    server: ChannelManagerV,
    psm: u32,
    wanted: ChannelSpec,
)
    requires
        client.free_cid() is Some,
        server.free_cid() is Some,
        server.servers.contains_key(psm),
        self_delimiting_psm(psm),
        acceptable_spec(wanted),
        acceptable_spec(server.servers[psm]),
        compatible(wanted, server.servers[psm]),
        client.outbound.len() == 0,
        server.outbound.len() == 0,
    ensures
        ({
            let near = client.free_cid()->0;
            let far = server.free_cid()->0;
            let asked = client.connection_requested(psm, wanted).0;
            let accepted = server.pdu_received(asked.outbound[0]).0;
            let answered = asked.pdu_received(accepted.outbound[0]).0;
            let client_configured = answered.pdu_received(accepted.outbound[1]).0;
            let server_configured = accepted.pdu_received(answered.outbound[1]).0;
            let server_end = server_configured.pdu_received(client_configured.outbound[2]).0;
            let client_end = client_configured.pdu_received(server_configured.outbound[2]).0;
            &&& asked.outbound.len() == 1
            &&& server_configured.outbound.len() == 3
            &&& client_configured.outbound.len() == 3
            &&& client_end.channels[near].state == ClassicChannelState::Open
            &&& client_end.channels[near].destination_cid == far
            &&& client_end.channels[near].peer_mtu == server.servers[psm].spec_mtu()
            &&& server_end.channels[far].state == ClassicChannelState::Open
            &&& server_end.channels[far].destination_cid == near
            &&& server_end.channels[far].peer_mtu == wanted.spec_mtu()
            &&& server_end.accepted_channels == server.accepted_channels.push(far)
        }),
{
    let near = client.free_cid()->0;
    let far = server.free_cid()->0;
    let asked = client.connection_requested(psm, wanted).0;
    lemma_client_side(
        asked,
        near,
        far,
        psm,
        wanted,
        server.servers[psm],
        asked.identifier,
        identifier_after(server.identifier),
    );
    lemma_server_side(
        server,
        near,
        psm,
        wanted,
        asked.identifier,
        identifier_after(asked.identifier),
    );
}

} // verus!
