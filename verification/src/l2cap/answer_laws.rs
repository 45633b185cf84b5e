//! How the messages of a peer on the signaling channel are answered, byte for
//! byte, and what they make of the channels.

use vstd::prelude::*;

use super::classic::{
    ChannelSpec, ClassicChannelSpec, ClassicChannelState, ClassicChannelV, ErtmChannelSpec,
};
use super::classic_laws::free_cid_is_least;
use super::control::{control_frame_reads_back, ControlFrameV};
use super::manager::{own_options, ChannelManagerV};
use super::signaling_laws::{
    channel_frames_have_their_bytes, link_frames_have_their_bytes, on_signaling, signal, two,
};
use super::{checked_options, encode_options, ConfigurationOptionV, InformationResponseV};

verus! {

/// The link with one signaling frame more to send.
pub open spec fn saying(manager: ChannelManagerV, bytes: Seq<u8>) -> ChannelManagerV {
    ChannelManagerV { outbound: manager.outbound.push(on_signaling(bytes)), ..manager }
}

proof fn lemma_read(manager: ChannelManagerV, frame: ControlFrameV)
    requires
        frame.valid(),
    ensures
        manager.pdu_received(on_signaling(frame.encode())) == manager.control_received(frame),
{
    control_frame_reads_back(frame, seq![]);
    assert(frame.encode() + Seq::<u8>::empty() =~= frame.encode());
}

/// What is echoed is what came, under the same identifier.
pub proof fn echo_requests_are_echoed(manager: ChannelManagerV, identifier: u8, data: Seq<u8>)
    requires
        data.len() <= 60000,
    ensures
        manager.pdu_received(on_signaling(signal(0x08, identifier, data))) == (
            saying(manager, signal(0x09, identifier, data)),
            Ok::<(), Seq<char>>(()),
        ),
{
    reveal(ChannelManagerV::control_received);
    link_frames_have_their_bytes(identifier, 0, 0, data);
    lemma_read(manager, ControlFrameV::EchoRequest { identifier, data });
}

proof fn lemma_four(value: u32)
    ensures
        crate::bytes::le32(value) == two((value % 65536) as u16) + two((value / 65536) as u16),
{
    assert(crate::bytes::le32(value) =~= two((value % 65536) as u16) + two(
        (value / 65536) as u16,
    ));
}

proof fn lemma_eight(value: u64)
    ensures
        crate::bytes::le64(value) == two((value % 65536) as u16) + two(
            (value / 65536 % 65536) as u16,
        ) + two((value / 0x1_0000_0000 % 65536) as u16) + two(
            (value / 0x1_0000_0000_0000) as u16,
        ),
{
    let low = (value % 0x1_0000_0000) as u32;
    let high = (value / 0x1_0000_0000) as u32;
    assert(crate::bytes::le64(value) =~= crate::bytes::le32(low) + crate::bytes::le32(high));
    lemma_four(low);
    lemma_four(high);
    assert(low % 65536 == value % 65536 && low / 65536 == value / 65536 % 65536);
    assert(high % 65536 == value / 0x1_0000_0000 % 65536 && high / 65536 == value
        / 0x1_0000_0000_0000);
    assert(crate::bytes::le64(value) =~= two((value % 65536) as u16) + two(
        (value / 65536 % 65536) as u16,
    ) + two((value / 0x1_0000_0000 % 65536) as u16) + two(
        (value / 0x1_0000_0000_0000) as u16,
    ));
}

/// What the peer asks about this end is answered under the same identifier: the
/// largest connectionless unit in two bytes, the features in four, the fixed
/// channels in eight. Anything else is not supported.
pub proof fn information_requests_are_answered(
    manager: ChannelManagerV,
    identifier: u8,
    kind: u16,
)
    ensures
        ({
            let (after, result) = manager.pdu_received(
                on_signaling(signal(0x0A, identifier, two(kind))),
            );
            let mtu = manager.information.mtu();
            let features = manager.information.features();
            let channels = manager.information.channels();
            let data: Seq<u8> = match kind {
                1 => two(mtu),
                2 => two((features % 65536) as u16) + two((features / 65536) as u16),
                3 => two((channels % 65536) as u16) + two((channels / 65536 % 65536) as u16) + two(
                    (channels / 0x1_0000_0000 % 65536) as u16,
                ) + two((channels / 0x1_0000_0000_0000) as u16),
                _ => seq![],
            };
            &&& result is Ok
            &&& after == saying(
                manager,
                signal(
                    0x0B,
                    identifier,
                    two(kind) + two(
                        if 1 <= kind <= 3 {
                            0
                        } else {
                            1
                        },
                    ) + data,
                ),
            )
        }),
{
    reveal(ChannelManagerV::control_received);
    link_frames_have_their_bytes(identifier, kind, 0, seq![]);
    lemma_read(manager, ControlFrameV::InformationRequest { identifier, info_type: kind });
    let answer = manager.information.answer(identifier, kind);
    let features = manager.information.features();
    let channels = manager.information.channels();
    let data = answer->InformationResponse_data;
    lemma_four(features);
    lemma_eight(channels);
    link_frames_have_their_bytes(
        identifier,
        kind,
        if 1 <= kind <= 3 {
            0
        } else {
            1
        },
        data,
    );
}

/// What the peer answers about itself is kept for whoever asked, in order.
pub proof fn information_responses_are_kept(
    manager: ChannelManagerV,
    identifier: u8,
    kind: u16,
    outcome: u16,
    data: Seq<u8>,
)
    requires
        data.len() <= 60000,
    ensures
        manager.pdu_received(
            on_signaling(signal(0x0B, identifier, two(kind) + two(outcome) + data)),
        ) == (
            ChannelManagerV {
                information_responses: manager.information_responses.push(
                    InformationResponseV { identifier, info_type: kind, result: outcome, data },
                ),
                ..manager
            },
            Ok::<(), Seq<char>>(()),
        ),
{
    reveal(ChannelManagerV::control_received);
    link_frames_have_their_bytes(identifier, kind, outcome, data);
    lemma_read(
        manager,
        ControlFrameV::InformationResponse { identifier, info_type: kind, result: outcome, data },
    );
}

/// This end's configuration request for a basic mode channel: its MTU and nothing
/// else.
pub proof fn basic_configuration_tells_the_mtu(mtu: u16)
    ensures
        checked_options(own_options(ChannelSpec::Basic(ClassicChannelSpec { mtu }))) == Ok::<
            Seq<u8>,
            Seq<char>,
        >(seq![0x01u8, 0x02] + two(mtu)),
{
    reveal_with_fuel(encode_options, 3);
    let options = own_options(ChannelSpec::Basic(ClassicChannelSpec { mtu }));
    let option = options[0];
    lemma_tag(option);
    assert(options.skip(1) =~= seq![]);
    assert(encode_options(options) =~= seq![0x01u8, 0x02] + two(mtu));
}

proof fn lemma_tag(option: ConfigurationOptionV)
    requires
        !option.hint,
    ensures
        option.tag() == option.option_type,
{
    let tag = option.option_type;
    assert(tag | 0u8 == tag) by (bit_vector);
}

/// This end's configuration request for an enhanced retransmission mode channel:
/// its MTU, the mode with its window, its number of transmissions, its two
/// timeouts and its segment size, and a word on the frame check sequence where it
/// is to be there.
pub proof fn ertm_configuration_tells_the_mode(spec: ErtmChannelSpec)
    ensures
        checked_options(own_options(ChannelSpec::Ertm(spec))) == Ok::<Seq<u8>, Seq<char>>(
            seq![0x01u8, 0x02] + two(spec.mtu) + seq![
                0x04u8,
                0x09,
                0x03,
                spec.tx_window_size,
                spec.max_retransmissions,
            ] + two(spec.retransmission_timeout_ms) + two(spec.monitor_timeout_ms) + two(spec.mps)
                + if spec.fcs_enabled {
                seq![0x05u8, 0x01, 0x01]
            } else {
                seq![]
            },
        ),
{
    reveal_with_fuel(encode_options, 4);
    let options = own_options(ChannelSpec::Ertm(spec));
    lemma_tag(options[0]);
    lemma_tag(options[1]);
    assert(options.skip(1)[0] == options[1]);
    if spec.fcs_enabled {
        lemma_tag(options[2]);
        assert(options.skip(1).skip(1)[0] == options[2]);
        assert(options.skip(1).skip(1).skip(1) =~= seq![]);
    } else {
        assert(options.skip(1).skip(1) =~= seq![]);
    }
    assert(encode_options(options) =~= seq![0x01u8, 0x02] + two(spec.mtu) + seq![
        0x04u8,
        0x09,
        0x03,
        spec.tx_window_size,
        spec.max_retransmissions,
    ] + two(spec.retransmission_timeout_ms) + two(spec.monitor_timeout_ms) + two(spec.mps)
        + if spec.fcs_enabled {
        seq![0x05u8, 0x01, 0x01]
    } else {
        seq![]
    });
}

/// The next identifier of this end's own requests: one more than the last, and
/// one again after 255.
pub open spec fn next_number(identifier: u8) -> u8 {
    if identifier == 255 {
        1
    } else {
        (identifier + 1) as u8
    }
}

/// The least channel identifier from 0x0040 on that is not in use.
pub open spec fn is_next_cid(manager: ChannelManagerV, cid: u16) -> bool {
    &&& cid >= 0x0040
    &&& !manager.channels.contains_key(cid)
    &&& forall|other: u16| 0x0040 <= other < cid ==> manager.channels.contains_key(other)
}

proof fn lemma_next_cid(manager: ChannelManagerV, cid: u16)
    requires
        is_next_cid(manager, cid),
    ensures
        manager.free_cid() == Some(cid),
{
    free_cid_is_least(manager.channels, 0x0040);
    let found = manager.free_cid();
    assert(found is Some);
    if found->0 < cid {
        assert(manager.channels.contains_key(found->0));
    }
}

/// A connection request for a PSM that nobody serves is refused for that reason.
pub proof fn unknown_psm_is_refused(
    manager: ChannelManagerV,
    identifier: u8,
    psm: u16,
    from: u16,
)
    requires
        psm / 256 % 2 == 0,
        !manager.servers.contains_key(psm as u32),
    ensures
        manager.pdu_received(on_signaling(signal(0x02, identifier, two(psm) + two(from)))) == (
            saying(manager, signal(0x03, identifier, two(0) + two(from) + two(2) + two(0))),
            Ok::<(), Seq<char>>(()),
        ),
{
    reveal(ChannelManagerV::control_received);
    reveal(ChannelManagerV::connection_request_received);
    channel_frames_have_their_bytes(identifier, psm, 0, from, 2, 0, seq![]);
    lemma_read(
        manager,
        ControlFrameV::ConnectionRequest { identifier, psm: psm as u32, source_cid: from },
    );
}

/// A connection request for a PSM that is served is accepted, with the least free
/// channel identifier, and followed by this end's configuration for the peer's
/// channel. The new channel is being configured, and lets the peer have 48 bytes
/// until it says otherwise.
pub proof fn served_psm_is_accepted(
    manager: ChannelManagerV,
    identifier: u8,
    psm: u16,
    from: u16,
    cid: u16,
    mtu: u16,
)
    requires
        psm / 256 % 2 == 0,
        manager.servers.contains_key(psm as u32),
        manager.servers[psm as u32] == ChannelSpec::Basic(ClassicChannelSpec { mtu }),
        is_next_cid(manager, cid),
    ensures
        ({
            let (after, result) = manager.pdu_received(
                on_signaling(signal(0x02, identifier, two(psm) + two(from))),
            );
            let number = next_number(manager.identifier);
            &&& result is Ok
            &&& after.outbound == manager.outbound + seq![
                on_signaling(signal(0x03, identifier, two(cid) + two(from) + two(0) + two(0))),
                on_signaling(
                    signal(0x04, number, two(from) + two(0) + (seq![0x01u8, 0x02] + two(mtu))),
                ),
            ]
            &&& after.identifier == number
            &&& after.channels.dom() =~= manager.channels.dom().insert(cid)
            &&& forall|other: u16|
                other != cid && #[trigger] manager.channels.contains_key(other)
                    ==> after.channels[other] == manager.channels[other]
            &&& is_fresh(after.channels[cid], psm, cid, from, mtu)
            &&& after.channels[cid].state == ClassicChannelState::Configuring
            &&& after.channels[cid].incoming
            &&& after.accepted_channels == manager.accepted_channels
            &&& after.servers == manager.servers
        }),
{
    reveal(ChannelManagerV::control_received);
    reveal(ChannelManagerV::connection_request_received);
    channel_frames_have_their_bytes(identifier, psm, cid, from, 0, 0, seq![]);
    lemma_read(
        manager,
        ControlFrameV::ConnectionRequest { identifier, psm: psm as u32, source_cid: from },
    );
    lemma_next_cid(manager, cid);
    basic_configuration_tells_the_mtu(mtu);
    let number = next_number(manager.identifier);
    channel_frames_have_their_bytes(
        number,
        psm,
        from,
        from,
        0,
        0,
        seq![0x01u8, 0x02] + two(mtu),
    );
    let after = manager.pdu_received(
        on_signaling(signal(0x02, identifier, two(psm) + two(from))),
    ).0;
    assert(after.outbound =~= manager.outbound + seq![
        on_signaling(signal(0x03, identifier, two(cid) + two(from) + two(0) + two(0))),
        on_signaling(
            signal(0x04, number, two(from) + two(0) + (seq![0x01u8, 0x02] + two(mtu))),
        ),
    ]);
}

/// Whether a basic mode channel has only just been made.
pub open spec fn is_fresh(
    channel: ClassicChannelV,
    psm: u16,
    source: u16,
    destination: u16,
    mtu: u16,
) -> bool {
    &&& channel.psm == psm
    &&& channel.source_cid == source
    &&& channel.destination_cid == destination
    &&& channel.mtu == mtu
    &&& channel.peer_mtu == 48
    &&& channel.ertm is None
    &&& !channel.fcs_enabled
    &&& !channel.peer_configuration_received
    &&& !channel.configuration_response_received
    &&& !channel.open_announced
    &&& channel.received.len() == 0
}

/// Where no channel identifier is left, a connection request is refused for want
/// of resources.
pub proof fn exhausted_identifiers_are_told(
    manager: ChannelManagerV,
    identifier: u8,
    psm: u16,
    from: u16,
)
    requires
        psm / 256 % 2 == 0,
        manager.servers.contains_key(psm as u32),
        forall|cid: u16| 0x0040 <= cid ==> manager.channels.contains_key(cid),
    ensures
        manager.pdu_received(on_signaling(signal(0x02, identifier, two(psm) + two(from)))) == (
            saying(manager, signal(0x03, identifier, two(0) + two(from) + two(4) + two(0))),
            Ok::<(), Seq<char>>(()),
        ),
{
    reveal(ChannelManagerV::control_received);
    reveal(ChannelManagerV::connection_request_received);
    channel_frames_have_their_bytes(identifier, psm, 0, from, 4, 0, seq![]);
    lemma_read(
        manager,
        ControlFrameV::ConnectionRequest { identifier, psm: psm as u32, source_cid: from },
    );
    free_cid_is_least(manager.channels, 0x0040);
}

/// Asking for a channel sends a connection request with the PSM and the least
/// free identifier, under the next number. The channel waits for the answer.
pub proof fn connection_is_asked_for(manager: ChannelManagerV, psm: u16, cid: u16, mtu: u16)
    requires
        is_next_cid(manager, cid),
    ensures
        ({
            let spec = ChannelSpec::Basic(ClassicChannelSpec { mtu });
            let (after, result) = manager.connection_requested(psm as u32, spec);
            let number = next_number(manager.identifier);
            &&& result == Ok::<u16, Seq<char>>(cid)
            &&& after.outbound == manager.outbound.push(
                on_signaling(signal(0x02, number, two(psm) + two(cid))),
            )
            &&& after.identifier == number
            &&& after.channels.dom() =~= manager.channels.dom().insert(cid)
            &&& is_fresh(after.channels[cid], psm, cid, 0, mtu)
            &&& after.channels[cid].state == ClassicChannelState::WaitConnectResponse
            &&& !after.channels[cid].incoming
        }),
{
    lemma_next_cid(manager, cid);
    channel_frames_have_their_bytes(
        next_number(manager.identifier),
        psm,
        0,
        cid,
        0,
        0,
        seq![],
    );
}

/// A channel that waits for the answer to its connection request goes on to be
/// configured where the peer accepts it, under the identifier that the peer
/// gives; the configuration is for that identifier. Where the peer refuses, the
/// channel is closed, and says why.
pub proof fn connection_response_is_followed(
    manager: ChannelManagerV,
    identifier: u8,
    to: u16,
    cid: u16,
    outcome: u16,
    status: u16,
    mtu: u16,
)
    requires
        manager.channels.contains_key(cid),
        manager.channels[cid].state == ClassicChannelState::WaitConnectResponse,
        manager.channels[cid].spec == ChannelSpec::Basic(ClassicChannelSpec { mtu }),
    ensures
        ({
            let (after, result) = manager.pdu_received(
                on_signaling(
                    signal(0x03, identifier, two(to) + two(cid) + two(outcome) + two(status)),
                ),
            );
            let number = next_number(manager.identifier);
            let before = manager.channels[cid];
            &&& result is Ok
            &&& outcome == 0 ==> after == saying(
                ChannelManagerV {
                    channels: manager.channels.insert(
                        cid,
                        ClassicChannelV {
                            destination_cid: to,
                            state: ClassicChannelState::Configuring,
                            connection_result: Some(0),
                            ..before
                        },
                    ),
                    identifier: number,
                    ..manager
                },
                signal(0x04, number, two(to) + two(0) + (seq![0x01u8, 0x02] + two(mtu))),
            )
            &&& outcome != 0 ==> after == (ChannelManagerV {
                channels: manager.channels.insert(
                    cid,
                    ClassicChannelV {
                        state: ClassicChannelState::Closed,
                        connection_result: Some(outcome),
                        ..before
                    },
                ),
                ..manager
            })
        }),
{
    reveal(ChannelManagerV::control_received);
    reveal(ChannelManagerV::connection_response_received);
    channel_frames_have_their_bytes(identifier, 0, to, cid, outcome, status, seq![]);
    lemma_read(
        manager,
        ControlFrameV::ConnectionResponse {
            identifier,
            destination_cid: to,
            source_cid: cid,
            result: outcome,
            status,
        },
    );
    basic_configuration_tells_the_mtu(mtu);
    channel_frames_have_their_bytes(
        next_number(manager.identifier),
        0,
        to,
        cid,
        0,
        0,
        seq![0x01u8, 0x02] + two(mtu),
    );
}

} // verus!
