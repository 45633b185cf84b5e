//! What holds of the announcement of channels that the peer asked for: each one
//! is announced when it opens, once, and nothing else is.

use vstd::prelude::*;

use super::classic::{
    fcs_stripped, ChannelSpec, ClassicChannelState, ClassicChannelV,
    L2CAP_ACL_U_DYNAMIC_CID_RANGE_START,
};
use super::classic_laws::free_cid_is_least;
use super::control::ControlFrameV;
use super::ertm::ErtmEngineV;
use super::information::InformationCapabilities;
use super::manager::ChannelManagerV;
use super::negotiation::{settled, NegotiationV};
use super::{checked_options, decode_options, L2capPduV, CONFIGURATION_SUCCESS, L2CAP_SIGNALING_CID};

verus! {

impl ChannelManagerV {
    /// Whether a channel is open.
    pub open spec fn is_open(self, cid: u16) -> bool {
        self.channels.contains_key(cid) && self.channels[cid].state == ClassicChannelState::Open
    }

    /// Whether a channel was announced at some time.
    pub open spec fn was_announced(self, cid: u16) -> bool {
        self.channels.contains_key(cid) && self.channels[cid].incoming
            && self.channels[cid].open_announced
    }

    /// What holds while `polled` are the channels that were taken from the queue
    /// of announcements so far: these and the ones that wait are all channels
    /// that were announced, each of them once. Every open channel that the peer
    /// asked for is among them, and no channel that this end asked for or that is
    /// still on its way to being open is.
    pub open spec fn announces(self, polled: Seq<u16>) -> bool {
        let all = polled + self.accepted_channels;
        &&& all.no_duplicates()
        &&& forall|cid: u16| #[trigger] all.contains(cid) <==> self.was_announced(cid)
        &&& forall|cid: u16| #[trigger]
            self.is_open(cid) && self.channels[cid].incoming ==> self.was_announced(cid)
        &&& forall|cid: u16| #[trigger]
            self.channels.contains_key(cid) && opening(self.channels[cid])
                ==> !self.channels[cid].open_announced
    }
}

/// Whether a channel is on its way to being open.
pub open spec fn opening(channel: ClassicChannelV) -> bool {
    channel.state == ClassicChannelState::Configuring || channel.state
        == ClassicChannelState::WaitConnectResponse
}

/// Whether a step opens and announces no channel.
spec fn quiet(before: ChannelManagerV, after: ChannelManagerV) -> bool {
    &&& after.accepted_channels == before.accepted_channels
    &&& forall|cid: u16| #[trigger]
        before.channels.contains_key(cid) ==> after.channels.contains_key(cid)
    &&& forall|cid: u16| #[trigger]
        after.channels.contains_key(cid) ==> {
            &&& before.channels.contains_key(cid) ==> after.channels[cid].incoming
                == before.channels[cid].incoming && after.channels[cid].open_announced
                == before.channels[cid].open_announced
            &&& !before.channels.contains_key(cid) ==> !after.channels[cid].open_announced
            &&& after.is_open(cid) ==> before.is_open(cid)
            &&& before.channels.contains_key(cid) && opening(after.channels[cid]) ==> opening(
                before.channels[cid],
            )
        }
}

proof fn lemma_quiet_announces(before: ChannelManagerV, after: ChannelManagerV, polled: Seq<u16>)
    requires
        quiet(before, after),
        before.announces(polled),
    ensures
        after.announces(polled),
{
    let all = polled + before.accepted_channels;
    assert forall|cid: u16| #[trigger] all.contains(cid) <==> after.was_announced(cid) by {
        assert(all.contains(cid) <==> before.was_announced(cid));
        if before.channels.contains_key(cid) {
            assert(after.channels.contains_key(cid));
        }
    }
    assert forall|cid: u16| #[trigger] after.is_open(cid)
        && after.channels[cid].incoming implies after.was_announced(cid) by {
        assert(after.channels.contains_key(cid));
        assert(before.is_open(cid));
    }
}

/// What a step that may open one channel adds to the announcements.
pub open spec fn newly_opened(before: ChannelManagerV, after: ChannelManagerV, cid: u16) -> Seq<
    u16,
> {
    if !before.is_open(cid) && after.is_open(cid) && after.channels[cid].incoming {
        seq![cid]
    } else {
        seq![]
    }
}

/// Whether a step opens no channel but perhaps this one, and announces that one
/// exactly where it opens and was asked for by the peer.
spec fn opens_only(before: ChannelManagerV, after: ChannelManagerV, cid: u16) -> bool {
    &&& after.accepted_channels == before.accepted_channels + newly_opened(before, after, cid)
    &&& forall|other: u16| other != cid ==> (#[trigger] after.is_open(other) ==> before.is_open(other))
}

proof fn lemma_opened(before: ChannelManagerV, middle: ChannelManagerV, cid: u16, polled: Seq<u16>)
    requires
        quiet(before, middle),
        before.announces(polled),
    ensures
        middle.opened(cid).announces(polled),
        opens_only(before, middle.opened(cid), cid),
{
    reveal(ChannelManagerV::opened);
    lemma_quiet_announces(before, middle, polled);
    let after = middle.opened(cid);
    let channel = middle.channels[cid];
    assert forall|other: u16| other != cid implies (#[trigger] after.is_open(other)
        ==> before.is_open(other)) by {
        if after.is_open(other) {
            assert(middle.channels.contains_key(other));
            assert(middle.is_open(other));
        }
    }
    let all = polled + middle.accepted_channels;
    if middle.channels.contains_key(cid) && channel.state == ClassicChannelState::Configuring
        && channel.peer_configuration_received && channel.configuration_response_received {
        let announced = channel.incoming && !channel.open_announced;
        assert(!middle.is_open(cid));
        assert(before.was_announced(cid) <==> middle.was_announced(cid)) by {
            if before.channels.contains_key(cid) {
                assert(middle.channels.contains_key(cid));
            }
        }
        let next = polled + after.accepted_channels;
        if announced {
            assert(!all.contains(cid));
            assert(next =~= all.push(cid));
            assert forall|i: int, j: int|
                0 <= i < next.len() && 0 <= j < next.len() && i != j implies next[i] != next[j] by {
                if i == all.len() {
                    assert(all.contains(next[j]));
                } else if j == all.len() {
                    assert(all.contains(next[i]));
                }
            }
        }
        assert forall|other: u16| #[trigger] next.contains(other) <==> after.was_announced(
            other,
        ) by {
            assert(all.contains(other) <==> middle.was_announced(other));
            if announced {
                if next.contains(other) {
                    let at = choose|at: int| 0 <= at < next.len() && next[at] == other;
                    if at < all.len() {
                        assert(all[at] == other);
                        assert(all.contains(other));
                    }
                }
                if all.contains(other) {
                    let at = choose|at: int| 0 <= at < all.len() && all[at] == other;
                    assert(next[at] == other);
                }
                if other == cid {
                    assert(next[all.len() as int] == cid);
                }
            }
        }
        assert forall|other: u16| #[trigger] after.is_open(other)
            && after.channels[other].incoming implies after.was_announced(other) by {
            if other != cid {
                assert(middle.is_open(other));
            }
        }
        assert(!before.is_open(cid));
        assert(after.accepted_channels =~= before.accepted_channels + newly_opened(
            before,
            after,
            cid,
        ));
    } else {
        assert(after.is_open(cid) ==> before.is_open(cid)) by {
            if after.is_open(cid) {
                assert(middle.channels.contains_key(cid));
            }
        }
        assert(after.accepted_channels =~= before.accepted_channels + newly_opened(
            before,
            after,
            cid,
        ));
    }
}

proof fn lemma_stepped_quiet(
    manager: ChannelManagerV,
    cid: u16,
    step: (ErtmEngineV, Result<(), Seq<char>>),
)
    requires
        manager.has_engine(cid),
    ensures
        quiet(manager, manager.engine_stepped(cid, step).0),
{
    reveal(ChannelManagerV::flushed);
}

proof fn lemma_ticked_quiet(manager: ChannelManagerV, from: int, ticks: u32)
    ensures
        quiet(manager, manager.ticked_from(from, ticks).0),
    decreases 65536 - from,
{
    if from <= 65535 {
        if from >= 0 && manager.has_engine(from as u16) {
            let step = manager.channels[from as u16].ertm->0.ticked(ticks);
            let (next, result) = manager.engine_stepped(from as u16, step);
            lemma_stepped_quiet(manager, from as u16, step);
            if result is Ok {
                lemma_ticked_quiet(next, from + 1, ticks);
                lemma_quiet_twice(manager, next, next.ticked_from(from + 1, ticks).0);
            }
        } else {
            lemma_ticked_quiet(manager, from + 1, ticks);
        }
    }
}

proof fn lemma_quiet_twice(first: ChannelManagerV, second: ChannelManagerV, third: ChannelManagerV)
    requires
        quiet(first, second),
        quiet(second, third),
    ensures
        quiet(first, third),
{
    assert forall|cid: u16| #[trigger] third.channels.contains_key(cid) implies {
        &&& first.channels.contains_key(cid) ==> third.channels[cid].incoming
            == first.channels[cid].incoming && third.channels[cid].open_announced
            == first.channels[cid].open_announced
        &&& !first.channels.contains_key(cid) ==> !third.channels[cid].open_announced
        &&& third.is_open(cid) ==> first.is_open(cid)
        &&& first.channels.contains_key(cid) && opening(third.channels[cid]) ==> opening(
            first.channels[cid],
        )
    } by {
        if first.channels.contains_key(cid) {
            assert(second.channels.contains_key(cid));
        }
    }
    assert forall|cid: u16| #[trigger] first.channels.contains_key(cid) implies third.channels.contains_key(cid) by {
        assert(second.channels.contains_key(cid));
    }
}

/// The channel that a unit of the peer's may open.
pub open spec fn configured_channel(pdu: L2capPduV) -> u16 {
    match ControlFrameV::decode(pdu.payload) {
        Ok(ControlFrameV::ConfigureRequest { destination_cid, .. }) => destination_cid,
        Ok(ControlFrameV::ConfigureResponse { source_cid, .. }) => source_cid,
        _ => 0,
    }
}

proof fn lemma_control_announces(manager: ChannelManagerV, frame: ControlFrameV, polled: Seq<u16>)
    requires
        manager.announces(polled),
    ensures
        ({
            let after = manager.control_received(frame).0;
            &&& after.announces(polled)
            &&& match frame {
                ControlFrameV::ConfigureRequest { destination_cid, .. } => opens_only(
                    manager,
                    after,
                    destination_cid,
                ),
                ControlFrameV::ConfigureResponse { source_cid, .. } => opens_only(
                    manager,
                    after,
                    source_cid,
                ),
                _ => quiet(manager, after),
            }
        }),
{
    reveal(ChannelManagerV::control_received);
    let after = manager.control_received(frame).0;
    match frame {
        ControlFrameV::ConnectionRequest { .. } => {
            reveal(ChannelManagerV::connection_request_received);
            free_cid_is_least(manager.channels, L2CAP_ACL_U_DYNAMIC_CID_RANGE_START as int);
            lemma_quiet_announces(manager, after, polled);
        },
        ControlFrameV::ConnectionResponse { .. } => {
            reveal(ChannelManagerV::connection_response_received);
            lemma_quiet_announces(manager, after, polled);
        },
        ControlFrameV::ConfigureRequest { identifier, destination_cid, flags, options } => {
            reveal(ChannelManagerV::configure_request_received);
            if decode_options(options) is Ok && manager.channels.contains_key(destination_cid) {
                let channel = manager.channels[destination_cid];
                let seen = NegotiationV::start(channel.peer_mtu).reviewed_all(
                    decode_options(options)->Ok_0,
                    channel.mode,
                );
                let settlement = settled(channel, flags, seen);
                let updated = manager.with_channel(destination_cid, settlement.channel);
                if settlement.fault is None && checked_options(settlement.response) is Ok {
                    let middle = updated.control_queued(
                        ControlFrameV::ConfigureResponse {
                            identifier,
                            source_cid: channel.destination_cid,
                            flags: 0,
                            result: settlement.result,
                            options: checked_options(settlement.response)->Ok_0,
                        },
                    );
                    assert(quiet(manager, middle));
                    lemma_opened(manager, middle, destination_cid, polled);
                } else {
                    assert(quiet(manager, after));
                    lemma_quiet_announces(manager, after, polled);
                    lemma_quiet_opens(manager, after, destination_cid);
                }
            } else {
                lemma_quiet_opens(manager, after, destination_cid);
            }
        },
        ControlFrameV::ConfigureResponse { source_cid, result, .. } => {
            reveal(ChannelManagerV::configure_response_received);
            if manager.channels.contains_key(source_cid) {
                let channel = manager.channels[source_cid];
                let updated = if result == CONFIGURATION_SUCCESS {
                    ClassicChannelV { configuration_response_received: true, ..channel }
                } else {
                    ClassicChannelV {
                        connection_result: Some(result),
                        state: ClassicChannelState::Closed,
                        ..channel
                    }
                };
                let middle = manager.with_channel(source_cid, updated);
                assert(quiet(manager, middle));
                lemma_opened(manager, middle, source_cid, polled);
            } else {
                lemma_quiet_opens(manager, after, source_cid);
            }
        },
        ControlFrameV::DisconnectionRequest { .. } => {
            reveal(ChannelManagerV::disconnection_request_received);
            lemma_quiet_announces(manager, after, polled);
        },
        ControlFrameV::DisconnectionResponse { .. } => {
            reveal(ChannelManagerV::disconnection_response_received);
            lemma_quiet_announces(manager, after, polled);
        },
        _ => {
            lemma_quiet_announces(manager, after, polled);
        },
    }
}

proof fn lemma_quiet_opens(before: ChannelManagerV, after: ChannelManagerV, cid: u16)
    requires
        quiet(before, after),
    ensures
        opens_only(before, after, cid),
{
    assert forall|other: u16| other != cid implies (#[trigger] after.is_open(other)
        ==> before.is_open(other)) by {
        if after.is_open(other) {
            assert(after.channels.contains_key(other));
        }
    }
    if after.is_open(cid) {
        assert(after.channels.contains_key(cid));
    }
    assert(after.accepted_channels =~= before.accepted_channels + newly_opened(before, after, cid));
}

/// A new link has announced nothing.
pub proof fn new_link_announces_nothing(information: InformationCapabilities)
    ensures
        ChannelManagerV::initial(information).announces(seq![]),
{
    let manager = ChannelManagerV::initial(information);
    let all = Seq::<u16>::empty() + manager.accepted_channels;
    assert(all =~= seq![]);
}

/// Whatever the peer sends, a channel that it asked for is announced, behind all
/// others, exactly when it opens; no other channel is. So each is announced once, in the order of opening.
pub proof fn opened_channels_are_announced_once(
    manager: ChannelManagerV,
    pdu: L2capPduV,
    polled: Seq<u16>,
)
    requires
        manager.announces(polled),
    ensures
        ({
            let after = manager.pdu_received(pdu).0;
            &&& after.announces(polled)
            &&& after.accepted_channels == manager.accepted_channels + newly_opened(
                manager,
                after,
                configured_channel(pdu),
            )
            &&& forall|cid: u16|
                !manager.is_open(cid) && #[trigger] after.is_open(cid) ==> cid
                    == configured_channel(pdu)
        }),
{
    let after = manager.pdu_received(pdu).0;
    let cid = configured_channel(pdu);
    if pdu.cid == L2CAP_SIGNALING_CID {
        if ControlFrameV::decode(pdu.payload) is Ok {
            let frame = ControlFrameV::decode(pdu.payload)->Ok_0;
            lemma_control_announces(manager, frame, polled);
            if !(frame is ConfigureRequest) && !(frame is ConfigureResponse) {
                lemma_quiet_opens(manager, after, cid);
            }
        } else {
            lemma_quiet_opens(manager, after, cid);
        }
    } else {
        reveal(ChannelManagerV::data_received);
        if manager.has_engine(pdu.cid) {
            let channel = manager.channels[pdu.cid];
            let engine = channel.ertm->0;
            let body = if channel.fcs_enabled {
                fcs_stripped(pdu.cid, pdu.payload)
            } else {
                Ok(pdu.payload)
            };
            if body is Ok {
                lemma_stepped_quiet(manager, pdu.cid, engine.frame_received(body->Ok_0));
            }
        }
        assert(quiet(manager, after));
        lemma_quiet_announces(manager, after, polled);
        lemma_quiet_opens(manager, after, cid);
    }
}

/// Nothing that this end does announces a channel.
pub proof fn requests_announce_nothing(
    manager: ChannelManagerV,
    psm: u32,
    spec: ChannelSpec,
    cid: u16,
    sdu: Seq<u8>,
    ticks: u32,
    busy: bool,
    polled: Seq<u16>,
)
    requires
        manager.announces(polled),
    ensures
        manager.connection_requested(psm, spec).0.announces(polled),
        manager.disconnection_requested(cid).0.announces(polled),
        manager.sdu_sent(cid, sdu).0.announces(polled),
        manager.ticked_from(0, ticks).0.announces(polled),
        manager.busy_set(cid, busy).0.announces(polled),
        manager.connection_requested(psm, spec).0.accepted_channels == manager.accepted_channels,
        manager.disconnection_requested(cid).0.accepted_channels == manager.accepted_channels,
        manager.sdu_sent(cid, sdu).0.accepted_channels == manager.accepted_channels,
        manager.ticked_from(0, ticks).0.accepted_channels == manager.accepted_channels,
        manager.busy_set(cid, busy).0.accepted_channels == manager.accepted_channels,
{
    free_cid_is_least(manager.channels, L2CAP_ACL_U_DYNAMIC_CID_RANGE_START as int);
    lemma_quiet_announces(manager, manager.connection_requested(psm, spec).0, polled);
    lemma_quiet_announces(manager, manager.disconnection_requested(cid).0, polled);
    lemma_ticked_quiet(manager, 0, ticks);
    lemma_quiet_announces(manager, manager.ticked_from(0, ticks).0, polled);
    reveal(ChannelManagerV::sdu_sent);
    if manager.has_engine(cid) {
        let engine = manager.channels[cid].ertm->0;
        lemma_stepped_quiet(manager, cid, engine.sdu_sent(sdu));
        lemma_stepped_quiet(manager, cid, engine.busy_set(busy));
    }
    lemma_quiet_announces(manager, manager.sdu_sent(cid, sdu).0, polled);
    lemma_quiet_announces(manager, manager.busy_set(cid, busy).0, polled);
}

/// Taking an announcement takes the oldest one, and none can be taken twice.
pub proof fn announcements_are_taken_in_order(manager: ChannelManagerV, polled: Seq<u16>)
    requires
        manager.announces(polled),
        manager.accepted_channels.len() > 0,
    ensures
        ({
            let first = manager.accepted_channels[0];
            let after = ChannelManagerV {
                accepted_channels: manager.accepted_channels.skip(1),
                ..manager
            };
            &&& after.announces(polled.push(first))
            &&& manager.was_announced(first)
            &&& !polled.contains(first)
        }),
{
    let first = manager.accepted_channels[0];
    let after = ChannelManagerV {
        accepted_channels: manager.accepted_channels.skip(1),
        ..manager
    };
    let all = polled + manager.accepted_channels;
    assert(polled.push(first) + after.accepted_channels =~= all);
    assert(all[polled.len() as int] == first);
    assert(all.contains(first));
    if polled.contains(first) {
        let at = choose|at: int| 0 <= at < polled.len() && polled[at] == first;
        assert(all[at] == first);
    }
    assert forall|cid: u16| #[trigger] after.is_open(cid)
        && after.channels[cid].incoming implies after.was_announced(cid) by {
        assert(manager.is_open(cid));
        assert(manager.was_announced(cid));
    }
    assert forall|cid: u16| #[trigger] all.contains(cid) <==> after.was_announced(cid) by {
        assert(all.contains(cid) <==> manager.was_announced(cid));
    }
}

} // verus!
