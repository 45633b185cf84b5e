//! How channels are configured and closed, byte for byte.

use vstd::prelude::*;

use super::answer_laws::{next_number, saying};
use super::classic::{
    ChannelSpec, ClassicChannelSpec, ClassicChannelState, ClassicChannelV, ErtmChannelSpec,
};
use super::control::{control_frame_reads_back, ControlFrameV};
use super::ertm::{ErtmConfig, ErtmEngineV};
use super::manager::ChannelManagerV;
use super::negotiation::{settled, NegotiationV};
use super::signaling_laws::{channel_frames_have_their_bytes, on_signaling, signal, two};
use super::{
    checked_options, decode_options, encode_options, options_read_back, ConfigurationOptionV,
};

verus! {

/// The bytes of an option: its type, how long its value is, and the value.
pub open spec fn option_bytes(kind: u8, value: Seq<u8>) -> Seq<u8> {
    seq![kind, value.len() as u8] + value
}

/// A configuration request of the peer for a channel.
pub open spec fn configure(identifier: u8, cid: u16, flags: u16, options: Seq<u8>) -> Seq<u8> {
    signal(0x04, identifier, two(cid) + two(flags) + options)
}

/// An answer to a configuration request of the peer, for the peer's channel.
pub open spec fn configured(identifier: u8, cid: u16, result: u16, options: Seq<u8>) -> Seq<u8> {
    signal(0x05, identifier, two(cid) + two(0) + two(result) + options)
}

/// The option that this end writes with these bytes.
spec fn plain(kind: u8, value: Seq<u8>) -> ConfigurationOptionV {
    ConfigurationOptionV { option_type: kind, hint: false, value }
}

proof fn lemma_option_encodes(option: ConfigurationOptionV)
    requires
        option.option_type < 0x80,
        option.value.len() <= 255,
    ensures
        option.encode() == option_bytes(
            if option.hint {
                (option.option_type + 0x80) as u8
            } else {
                option.option_type
            },
            option.value,
        ),
{
    let kind = option.option_type;
    assert(kind | 0u8 == kind && (kind < 0x80 ==> kind | 0x80u8 == kind + 0x80)) by (bit_vector);
}

proof fn lemma_options(options: Seq<ConfigurationOptionV>)
    requires
        options.len() <= 3,
        forall|i: int|
            0 <= i < options.len() ==> (#[trigger] options[i]).option_type < 0x80
                && options[i].value.len() <= 255,
    ensures
        checked_options(options) == Ok::<Seq<u8>, Seq<char>>(encode_options(options)),
        decode_options(encode_options(options)) == Ok::<Seq<ConfigurationOptionV>, Seq<char>>(
            options,
        ),
        encode_options(options).len() <= 771,
        encode_options(options) == (if options.len() > 0 {
            options[0].encode()
        } else {
            seq![]
        }) + (if options.len() > 1 {
            options[1].encode()
        } else {
            seq![]
        }) + (if options.len() > 2 {
            options[2].encode()
        } else {
            seq![]
        }),
{
    reveal_with_fuel(encode_options, 4);
    options_read_back(options);
    let one = options.skip(1);
    let two = one.skip(1);
    if options.len() > 1 {
        assert(one[0] == options[1]);
    }
    if options.len() > 2 {
        assert(two[0] == options[2]);
    }
    assert(encode_options(options) =~= (if options.len() > 0 {
        options[0].encode()
    } else {
        seq![]
    }) + (if options.len() > 1 {
        options[1].encode()
    } else {
        seq![]
    }) + (if options.len() > 2 {
        options[2].encode()
    } else {
        seq![]
    }));
}

/// What a request with these options makes of the link.
spec fn after_request(
    manager: ChannelManagerV,
    identifier: u8,
    cid: u16,
    flags: u16,
    options: Seq<u8>,
) -> (ChannelManagerV, Result<(), Seq<char>>) {
    manager.pdu_received(on_signaling(configure(identifier, cid, flags, options)))
}

#[verifier::spinoff_prover]
proof fn lemma_request(
    manager: ChannelManagerV,
    identifier: u8,
    cid: u16,
    flags: u16,
    options: Seq<ConfigurationOptionV>,
)
    requires
        manager.channels.contains_key(cid),
        options.len() <= 3,
        forall|i: int|
            0 <= i < options.len() ==> (#[trigger] options[i]).option_type < 0x80
                && options[i].value.len() <= 255,
        ({
            let channel = manager.channels[cid];
            let seen = NegotiationV::start(channel.peer_mtu).reviewed_all(options, channel.mode);
            let settlement = settled(channel, flags, seen);
            &&& settlement.fault is None
            &&& settlement.response.len() <= 3
            &&& forall|i: int|
                0 <= i < settlement.response.len() ==> (
                #[trigger] settlement.response[i]).option_type < 0x80
                    && settlement.response[i].value.len() <= 255
        }),
    ensures
        ({
            let channel = manager.channels[cid];
            let seen = NegotiationV::start(channel.peer_mtu).reviewed_all(options, channel.mode);
            let settlement = settled(channel, flags, seen);
            after_request(manager, identifier, cid, flags, encode_options(options)) == (
                saying(
                    manager.with_channel(cid, settlement.channel),
                    configured(
                        identifier,
                        channel.destination_cid,
                        settlement.result,
                        encode_options(settlement.response),
                    ),
                ).opened(cid),
                Ok::<(), Seq<char>>(()),
            )
        }),
{
    reveal(ChannelManagerV::configure_request_received);
    let channel = manager.channels[cid];
    let seen = NegotiationV::start(channel.peer_mtu).reviewed_all(options, channel.mode);
    let settlement = settled(channel, flags, seen);
    let bytes = encode_options(options);
    lemma_options(options);
    lemma_request_read(manager, identifier, cid, flags, bytes);
    lemma_options(settlement.response);
    let answer = encode_options(settlement.response);
    channel_frames_have_their_bytes(
        identifier,
        0,
        0,
        channel.destination_cid,
        settlement.result,
        0,
        answer,
    );
    let updated = manager.with_channel(cid, settlement.channel);
    let frame = ControlFrameV::ConfigureResponse {
        identifier,
        source_cid: channel.destination_cid,
        flags: 0,
        result: settlement.result,
        options: answer,
    };
    assert(updated.control_queued(frame) == saying(
        updated,
        configured(identifier, channel.destination_cid, settlement.result, answer),
    ));
}

proof fn lemma_request_read(
    manager: ChannelManagerV,
    identifier: u8,
    cid: u16,
    flags: u16,
    bytes: Seq<u8>,
)
    requires
        bytes.len() <= 771,
    ensures
        after_request(manager, identifier, cid, flags, bytes)
            == manager.configure_request_received(identifier, cid, flags, bytes),
{
    reveal(ChannelManagerV::control_received);
    channel_frames_have_their_bytes(identifier, 0, cid, 0, 0, flags, bytes);
    let frame = ControlFrameV::ConfigureRequest {
        identifier,
        destination_cid: cid,
        flags,
        options: bytes,
    };
    control_frame_reads_back(frame, seq![]);
    assert(frame.encode() + Seq::<u8>::empty() =~= frame.encode());
}

/// Whether accepting the peer's configuration opens a channel: where it is being
/// configured, and the peer has accepted this end's configuration.
pub open spec fn opens_with_it(channel: ClassicChannelV) -> bool {
    channel.state == ClassicChannelState::Configuring && channel.configuration_response_received
}

/// What the link is once a channel's configuration by the peer is complete.
pub open spec fn completed(
    manager: ChannelManagerV,
    cid: u16,
    channel: ClassicChannelV,
) -> ChannelManagerV {
    let announced = opens_with_it(channel) && channel.incoming && !channel.open_announced;
    ChannelManagerV {
        channels: manager.channels.insert(
            cid,
            ClassicChannelV {
                peer_configuration_received: true,
                state: if opens_with_it(channel) {
                    ClassicChannelState::Open
                } else {
                    channel.state
                },
                open_announced: channel.open_announced || announced,
                ..channel
            },
        ),
        accepted_channels: if announced {
            manager.accepted_channels.push(cid)
        } else {
            manager.accepted_channels
        },
        ..manager
    }
}

proof fn lemma_completed(manager: ChannelManagerV, cid: u16, channel: ClassicChannelV, bytes: Seq<u8>)
    ensures
        saying(
            manager.with_channel(
                cid,
                ClassicChannelV { peer_configuration_received: true, ..channel },
            ),
            bytes,
        ).opened(cid) == saying(completed(manager, cid, channel), bytes),
{
    reveal(ChannelManagerV::opened);
    let accepted = ClassicChannelV { peer_configuration_received: true, ..channel };
    let before = saying(manager.with_channel(cid, accepted), bytes);
    let after = before.opened(cid);
    assert(after.channels =~= saying(completed(manager, cid, channel), bytes).channels);
}

/// A peer that configures a basic mode channel with the largest unit that it
/// takes is told so, and gets no larger ones from then on. This completes its
/// configuration.
pub proof fn peer_mtu_is_taken_over(
    manager: ChannelManagerV,
    identifier: u8,
    cid: u16,
    mtu: u16,
)
    requires
        manager.channels.contains_key(cid),
        manager.channels[cid].spec is Basic,
        mtu >= 48,
    ensures
        ({
            let channel = manager.channels[cid];
            let option = option_bytes(0x01, two(mtu));
            manager.pdu_received(on_signaling(configure(identifier, cid, 0, option))) == (
                saying(
                    completed(manager, cid, ClassicChannelV { peer_mtu: mtu, ..channel }),
                    configured(identifier, channel.destination_cid, 0, option),
                ),
                Ok::<(), Seq<char>>(()),
            )
        }),
{
    reveal_with_fuel(NegotiationV::reviewed_all, 2);
    let channel = manager.channels[cid];
    let options = seq![plain(0x01, two(mtu))];
    assert(options.skip(1) =~= seq![]);
    lemma_option_encodes(options[0]);
    lemma_options(options);
    assert(encode_options(options) =~= option_bytes(0x01, two(mtu)));
    let seen = NegotiationV::start(channel.peer_mtu).reviewed_all(options, channel.mode);
    assert(seen.response =~= options);
    lemma_request(manager, identifier, cid, 0, options);
    lemma_completed(
        manager,
        cid,
        ClassicChannelV { peer_mtu: mtu, ..channel },
        configured(identifier, channel.destination_cid, 0, encode_options(options)),
    );
}

/// A peer that configures a basic mode channel without any wishes keeps the MTU
/// that it had.
pub proof fn empty_configuration_is_accepted(manager: ChannelManagerV, identifier: u8, cid: u16)
    requires
        manager.channels.contains_key(cid),
        manager.channels[cid].spec is Basic,
    ensures
        manager.pdu_received(on_signaling(configure(identifier, cid, 0, seq![]))) == (
            saying(
                completed(manager, cid, manager.channels[cid]),
                configured(identifier, manager.channels[cid].destination_cid, 0, seq![]),
            ),
            Ok::<(), Seq<char>>(()),
        ),
{
    let channel = manager.channels[cid];
    let options = Seq::<ConfigurationOptionV>::empty();
    lemma_options(options);
    assert(encode_options(options) =~= seq![]);
    lemma_request(manager, identifier, cid, 0, options);
    lemma_completed(
        manager,
        cid,
        channel,
        configured(identifier, channel.destination_cid, 0, seq![]),
    );
}

/// A peer whose MTU is below the least one that links must take is refused and
/// told that least one, 48. An option that nobody knows is refused by name,
/// unless it is a hint, which is passed over. None of these completes the
/// configuration, but for the hint.
pub proof fn bad_options_are_refused(
    manager: ChannelManagerV,
    identifier: u8,
    cid: u16,
    mtu: u16,
    kind: u8,
    value: Seq<u8>,
)
    requires
        manager.channels.contains_key(cid),
        manager.channels[cid].spec is Basic,
        !manager.channels[cid].peer_configuration_received,
        mtu < 48,
        kind < 0x80,
        kind != 0x01,
        kind != 0x04,
        kind != 0x05,
        value.len() <= 255,
    ensures
        ({
            let channel = manager.channels[cid];
            let to = channel.destination_cid;
            let done = Ok::<(), Seq<char>>(());
            &&& manager.pdu_received(
                on_signaling(configure(identifier, cid, 0, option_bytes(0x01, two(mtu)))),
            ) == (
                saying(manager, configured(identifier, to, 1, option_bytes(0x01, two(48)))),
                done,
            )
            &&& manager.pdu_received(
                on_signaling(configure(identifier, cid, 0, option_bytes(kind, value))),
            ) == (
                saying(manager, configured(identifier, to, 3, option_bytes(kind, value))),
                done,
            )
            &&& manager.pdu_received(
                on_signaling(
                    configure(identifier, cid, 0, option_bytes((kind + 0x80) as u8, value)),
                ),
            ) == (
                saying(
                    completed(manager, cid, channel),
                    configured(identifier, to, 0, seq![]),
                ),
                done,
            )
        }),
{
    reveal_with_fuel(NegotiationV::reviewed_all, 2);
    let channel = manager.channels[cid];
    let small = seq![plain(0x01, two(mtu))];
    let least = seq![plain(0x01, two(48))];
    lemma_option_encodes(small[0]);
    lemma_option_encodes(least[0]);
    lemma_options(small);
    lemma_options(least);
    assert(encode_options(small) =~= option_bytes(0x01, two(mtu)));
    assert(encode_options(least) =~= option_bytes(0x01, two(48)));
    let seen = NegotiationV::start(channel.peer_mtu).reviewed_all(small, channel.mode);
    assert(seen.response =~= least);
    lemma_request(manager, identifier, cid, 0, small);
    lemma_unopened(manager, cid, configured(identifier, channel.destination_cid, 1, encode_options(least)));
    let odd = seq![plain(kind, value)];
    lemma_option_encodes(odd[0]);
    lemma_options(odd);
    assert(encode_options(odd) =~= option_bytes(kind, value));
    let refused = NegotiationV::start(channel.peer_mtu).reviewed_all(odd, channel.mode);
    assert(refused.response =~= odd);
    lemma_request(manager, identifier, cid, 0, odd);
    lemma_unopened(manager, cid, configured(identifier, channel.destination_cid, 3, encode_options(odd)));
    let hint = ConfigurationOptionV { option_type: kind, hint: true, value };
    let hints = seq![hint];
    lemma_option_encodes(hint);
    lemma_options(hints);
    assert(hints.skip(1) =~= seq![]);
    assert(encode_options(hints) =~= option_bytes((kind + 0x80) as u8, value));
    let nothing = Seq::<ConfigurationOptionV>::empty();
    lemma_options(nothing);
    assert(encode_options(nothing) =~= seq![]);
    lemma_request(manager, identifier, cid, 0, hints);
    lemma_completed(
        manager,
        cid,
        channel,
        configured(identifier, channel.destination_cid, 0, seq![]),
    );
}

proof fn lemma_unopened(manager: ChannelManagerV, cid: u16, bytes: Seq<u8>)
    requires
        manager.channels.contains_key(cid),
        !manager.channels[cid].peer_configuration_received,
    ensures
        saying(manager.with_channel(cid, manager.channels[cid]), bytes).opened(cid) == saying(
            manager,
            bytes,
        ),
{
    reveal(ChannelManagerV::opened);
    assert(manager.channels.insert(cid, manager.channels[cid]) =~= manager.channels);
}

/// The option that asks for enhanced retransmission mode.
pub open spec fn mode_option(
    window: u8,
    transmissions: u8,
    retransmission: u16,
    monitor: u16,
    mps: u16,
) -> Seq<u8> {
    option_bytes(
        0x04,
        seq![0x03u8, window, transmissions] + two(retransmission) + two(monitor) + two(mps),
    )
}

/// The frame check sequence option, where there is to be one.
pub open spec fn check_option(wanted: bool) -> Seq<u8> {
    if wanted {
        option_bytes(0x05, seq![0x01u8])
    } else {
        seq![]
    }
}

/// Two ends that both want enhanced retransmission mode, with or without a frame
/// check sequence, get it: the request is accepted as it is, and the channel has
/// an engine that sends segments of the peer's size, keeps to the peer's window
/// and number of transmissions, and uses this end's own timeout and segment size.
#[verifier::spinoff_prover]
pub proof fn retransmission_mode_is_agreed_on(
    manager: ChannelManagerV,
    identifier: u8,
    cid: u16,
    spec: ErtmChannelSpec,
    mtu: u16,
    window: u8,
    transmissions: u8,
    retransmission: u16,
    monitor: u16,
    mps: u16,
)
    requires
        manager.channels.contains_key(cid),
        manager.channels[cid].spec == ChannelSpec::Ertm(spec),
        manager.channels[cid].mode == super::classic::ClassicChannelMode::EnhancedRetransmission,
        mtu >= 48,
        1 <= window <= 63,
        mps > 0,
        spec.mps > 0,
        spec.retransmission_timeout_ms > 0,
    ensures
        ({
            let channel = manager.channels[cid];
            let options = option_bytes(0x01, two(mtu)) + mode_option(
                window,
                transmissions,
                retransmission,
                monitor,
                mps,
            ) + check_option(spec.fcs_enabled);
            let config = ErtmConfig {
                local_mtu: 65535,
                peer_mtu: 65535,
                local_mps: spec.mps,
                peer_mps: mps,
                tx_window_size: window,
                max_retransmissions: transmissions,
                retransmission_timeout_ticks: spec.retransmission_timeout_ms as u32,
            };
            manager.pdu_received(on_signaling(configure(identifier, cid, 0, options))) == (
                saying(
                    completed(
                        manager,
                        cid,
                        ClassicChannelV {
                            peer_mtu: mtu,
                            peer_mps: mps,
                            fcs_enabled: spec.fcs_enabled,
                            ertm: Some(ErtmEngineV::initial(config)),
                            ..channel
                        },
                    ),
                    configured(identifier, channel.destination_cid, 0, options),
                ),
                Ok::<(), Seq<char>>(()),
            )
        }),
{
    reveal_with_fuel(NegotiationV::reviewed_all, 4);
    let channel = manager.channels[cid];
    let value = seq![0x03u8, window, transmissions] + two(retransmission) + two(monitor) + two(mps);
    let first = plain(0x01, two(mtu));
    let second = plain(0x04, value);
    let third = plain(0x05, seq![0x01u8]);
    let options = if spec.fcs_enabled {
        seq![first, second, third]
    } else {
        seq![first, second]
    };
    lemma_option_encodes(first);
    lemma_option_encodes(second);
    lemma_option_encodes(third);
    lemma_options(options);
    let bytes = option_bytes(0x01, two(mtu)) + mode_option(
        window,
        transmissions,
        retransmission,
        monitor,
        mps,
    ) + check_option(spec.fcs_enabled);
    assert(encode_options(options) =~= bytes);
    let start = NegotiationV::start(channel.peer_mtu);
    let one = start.reviewed(first, channel.mode);
    let two_seen = one.reviewed(second, channel.mode);
    assert(options.skip(1)[0] == second);
    assert(super::classic::ertm_option_of(value) == Some(
        super::classic::ErtmOption {
            mode: 0x03,
            tx_window_size: window,
            max_retransmissions: transmissions,
            mps,
        },
    ));
    let seen = start.reviewed_all(options, channel.mode);
    if spec.fcs_enabled {
        assert(options.skip(1).skip(1)[0] == third);
        assert(options.skip(1).skip(1).skip(1) =~= seq![]);
        assert(seen == two_seen.reviewed(third, channel.mode));
    } else {
        assert(options.skip(1).skip(1) =~= seq![]);
        assert(seen == two_seen);
    }
    assert(seen.response =~= options);
    lemma_request(manager, identifier, cid, 0, options);
    let agreed = ClassicChannelV {
        peer_mtu: mtu,
        peer_mps: mps,
        fcs_enabled: spec.fcs_enabled,
        ertm: settled(channel, 0, seen).channel.ertm,
        ..channel
    };
    lemma_completed(
        manager,
        cid,
        agreed,
        configured(identifier, channel.destination_cid, 0, bytes),
    );
}

/// A basic mode channel does not change its mode: a peer that asks for enhanced
/// retransmission mode is refused, and told what it asked for.
pub proof fn basic_channel_keeps_its_mode(
    manager: ChannelManagerV,
    identifier: u8,
    cid: u16,
    window: u8,
    transmissions: u8,
    retransmission: u16,
    monitor: u16,
    mps: u16,
)
    requires
        manager.channels.contains_key(cid),
        manager.channels[cid].spec is Basic,
        manager.channels[cid].mode == super::classic::ClassicChannelMode::Basic,
        !manager.channels[cid].peer_configuration_received,
    ensures
        ({
            let option = mode_option(window, transmissions, retransmission, monitor, mps);
            manager.pdu_received(on_signaling(configure(identifier, cid, 0, option))) == (
                saying(
                    manager,
                    configured(identifier, manager.channels[cid].destination_cid, 1, option),
                ),
                Ok::<(), Seq<char>>(()),
            )
        }),
{
    reveal_with_fuel(NegotiationV::reviewed_all, 2);
    let channel = manager.channels[cid];
    let value = seq![0x03u8, window, transmissions] + two(retransmission) + two(monitor) + two(mps);
    let options = seq![plain(0x04, value)];
    lemma_option_encodes(options[0]);
    lemma_options(options);
    assert(encode_options(options) =~= mode_option(
        window,
        transmissions,
        retransmission,
        monitor,
        mps,
    ));
    let seen = NegotiationV::start(channel.peer_mtu).reviewed_all(options, channel.mode);
    assert(seen.response =~= options);
    lemma_request(manager, identifier, cid, 0, options);
    lemma_unopened(
        manager,
        cid,
        configured(identifier, channel.destination_cid, 1, encode_options(options)),
    );
}

/// The peer's answer to this end's configuration: accepted, it opens the channel
/// where the peer's own configuration is complete; refused, it closes it.
pub proof fn configuration_response_is_followed(
    manager: ChannelManagerV,
    identifier: u8,
    cid: u16,
    flags: u16,
    outcome: u16,
    options: Seq<u8>,
)
    requires
        manager.channels.contains_key(cid),
        options.len() <= 771,
    ensures
        ({
            let channel = manager.channels[cid];
            let (after, result) = manager.pdu_received(
                on_signaling(
                    signal(0x05, identifier, two(cid) + two(flags) + two(outcome) + options),
                ),
            );
            let opens = outcome == 0 && channel.state == ClassicChannelState::Configuring
                && channel.peer_configuration_received;
            let announced = opens && channel.incoming && !channel.open_announced;
            &&& result is Ok
            &&& after.outbound == manager.outbound
            &&& after.channels == manager.channels.insert(
                cid,
                if outcome == 0 {
                    ClassicChannelV {
                        configuration_response_received: true,
                        state: if opens {
                            ClassicChannelState::Open
                        } else {
                            channel.state
                        },
                        open_announced: channel.open_announced || announced,
                        ..channel
                    }
                } else {
                    ClassicChannelV {
                        state: ClassicChannelState::Closed,
                        connection_result: Some(outcome),
                        ..channel
                    }
                },
            )
            &&& after.accepted_channels == if announced {
                manager.accepted_channels.push(cid)
            } else {
                manager.accepted_channels
            }
        }),
{
    reveal(ChannelManagerV::control_received);
    reveal(ChannelManagerV::configure_response_received);
    reveal(ChannelManagerV::opened);
    channel_frames_have_their_bytes(identifier, 0, 0, cid, outcome, flags, options);
    let frame = ControlFrameV::ConfigureResponse {
        identifier,
        source_cid: cid,
        flags,
        result: outcome,
        options,
    };
    control_frame_reads_back(frame, seq![]);
    assert(frame.encode() + Seq::<u8>::empty() =~= frame.encode());
    let channel = manager.channels[cid];
    let after = manager.control_received(frame).0;
    if outcome == 0 {
        let told = ClassicChannelV { configuration_response_received: true, ..channel };
        let opened = manager.with_channel(cid, told).opened(cid);
        assert(after == opened);
        assert(after.channels =~= manager.channels.insert(cid, after.channels[cid]));
    } else {
        assert(after.channels =~= manager.channels.insert(cid, after.channels[cid]));
    }
}

/// A peer that closes a channel is answered with the same two identifiers; the
/// channel is closed. A peer that names the wrong channel of its own is refused,
/// and nothing is closed. The peer's confirmation closes this end's channel too.
pub proof fn peer_closes_channels(
    manager: ChannelManagerV,
    identifier: u8,
    cid: u16,
    from: u16,
)
    requires
        manager.channels.contains_key(cid),
    ensures
        ({
            let channel = manager.channels[cid];
            let closed = ChannelManagerV {
                channels: manager.channels.insert(
                    cid,
                    ClassicChannelV { state: ClassicChannelState::Closed, ..channel },
                ),
                ..manager
            };
            let request = manager.pdu_received(
                on_signaling(signal(0x06, identifier, two(cid) + two(from))),
            );
            let response = manager.pdu_received(
                on_signaling(signal(0x07, identifier, two(from) + two(cid))),
            );
            if from == channel.destination_cid {
                &&& request == (
                    saying(closed, signal(0x07, identifier, two(cid) + two(from))),
                    Ok::<(), Seq<char>>(()),
                )
                &&& response == (closed, Ok::<(), Seq<char>>(()))
            } else {
                &&& request.0 == manager && request.1 is Err
                &&& response.0 == manager && response.1 is Err
            }
        }),
{
    reveal(ChannelManagerV::control_received);
    reveal(ChannelManagerV::disconnection_request_received);
    reveal(ChannelManagerV::disconnection_response_received);
    channel_frames_have_their_bytes(identifier, 0, cid, from, 0, 0, seq![]);
    channel_frames_have_their_bytes(identifier, 0, from, cid, 0, 0, seq![]);
    let request = ControlFrameV::DisconnectionRequest {
        identifier,
        destination_cid: cid,
        source_cid: from,
    };
    let response = ControlFrameV::DisconnectionResponse {
        identifier,
        destination_cid: from,
        source_cid: cid,
    };
    control_frame_reads_back(request, seq![]);
    control_frame_reads_back(response, seq![]);
    assert(request.encode() + Seq::<u8>::empty() =~= request.encode());
    assert(response.encode() + Seq::<u8>::empty() =~= response.encode());
}

/// Closing an open channel asks the peer to close its end: a disconnection
/// request with the peer's identifier first. Nothing is sent for a channel that is
/// not open.
pub proof fn closing_asks_the_peer(manager: ChannelManagerV, cid: u16)
    requires
        manager.channels.contains_key(cid),
    ensures
        ({
            let channel = manager.channels[cid];
            let number = next_number(manager.identifier);
            let outcome = manager.disconnection_requested(cid);
            if channel.state == ClassicChannelState::Open {
                outcome == (
                    saying(
                        ChannelManagerV {
                            channels: manager.channels.insert(
                                cid,
                                ClassicChannelV {
                                    state: ClassicChannelState::WaitDisconnect,
                                    ..channel
                                },
                            ),
                            identifier: number,
                            ..manager
                        },
                        signal(0x06, number, two(channel.destination_cid) + two(cid)),
                    ),
                    Ok::<(), Seq<char>>(()),
                )
            } else {
                outcome.0 == manager && outcome.1 is Err
            }
        }),
{
    channel_frames_have_their_bytes(
        next_number(manager.identifier),
        0,
        manager.channels[cid].destination_cid,
        cid,
        0,
        0,
        seq![],
    );
}

/// Data goes to the channel that a unit names, whole, where that is an open basic
/// mode channel with room for it; it goes out under the peer's identifier, where
/// it fits the peer. Anything else is refused, and nothing is kept or sent.
pub proof fn basic_data_passes_whole(manager: ChannelManagerV, cid: u16, data: Seq<u8>)
    requires
        manager.channels.contains_key(cid),
        manager.channels[cid].ertm is None,
        cid != 0x0001,
    ensures
        ({
            let channel = manager.channels[cid];
            let open = channel.state == ClassicChannelState::Open;
            let come = manager.pdu_received(super::L2capPduV { cid, payload: data });
            let gone = manager.sdu_sent(cid, data);
            &&& if open && data.len() <= channel.mtu {
                come == (
                    ChannelManagerV {
                        channels: manager.channels.insert(
                            cid,
                            ClassicChannelV { received: channel.received.push(data), ..channel },
                        ),
                        ..manager
                    },
                    Ok::<(), Seq<char>>(()),
                )
            } else {
                come.0 == manager && come.1 is Err
            }
            &&& if open && data.len() <= channel.peer_mtu {
                gone == (
                    ChannelManagerV {
                        outbound: manager.outbound.push(
                            super::L2capPduV { cid: channel.destination_cid, payload: data },
                        ),
                        ..manager
                    },
                    Ok::<(), Seq<char>>(()),
                )
            } else {
                gone.0 == manager && gone.1 is Err
            }
        }),
{
    reveal(ChannelManagerV::data_received);
    reveal(ChannelManagerV::sdu_sent);
}

/// A server is registered under an odd PSM whose second byte is even, where
/// nobody else is; any other PSM is refused. The server is kept as it was given.
pub proof fn servers_have_valid_psms(manager: ChannelManagerV, psm: u16, spec: ChannelSpec)
    ensures
        ({
            let (after, result) = manager.registered(Some(psm as u32), spec);
            if psm % 2 == 1 && psm / 256 % 2 == 0 && !manager.servers.contains_key(psm as u32) {
                &&& result == Ok::<u32, Seq<char>>(psm as u32)
                &&& after == (ChannelManagerV {
                    servers: manager.servers.insert(psm as u32, spec),
                    ..manager
                })
            } else {
                after == manager && result is Err
            }
        }),
        !(psm % 2 == 1 && psm / 256 % 2 == 0) ==> manager.connect_outcome(
            psm as u32,
            None,
            spec,
        ).0 == manager && manager.connect_outcome(psm as u32, None, spec).1 is Err,
{
}

/// The smallest channel takes 48 bytes. Retransmission needs a window of 1 to 63
/// frames, segments that hold something, and timeouts that end.
pub proof fn unusable_specifications_are_refused(basic: ClassicChannelSpec, ertm: ErtmChannelSpec)
    ensures
        super::classic::spec_fault(basic) is None <==> basic.mtu >= 48,
        super::classic::ertm_spec_fault(ertm) is None <==> ertm.mtu >= 48 && ertm.mps > 0 && 1
            <= ertm.tx_window_size <= 63 && ertm.retransmission_timeout_ms > 0
            && ertm.monitor_timeout_ms > 0,
{
}

} // verus!
