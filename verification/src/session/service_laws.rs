//! Whatever came in on the channels of the service is taken, all of it, and
//! whatever the host has to hand over is handed over.

use vstd::prelude::*;

use super::model::{lemma_output_applied, ProtocolChannel, SessionV};
use crate::api::Channel;
use crate::classic_host::HostV;
use crate::hci::AclPacketV;
use crate::hid_service::HidpBridgeEventV;
use crate::l2cap::manager::ChannelManagerV;

verus! {

/// Whether all channels of a link are basic ones, as those of the service are.
pub open spec fn all_basic(host: HostV) -> bool {
    forall|cid: u16| #[trigger] host.has_channel(cid) ==> host.channel(cid).ertm is None
}

/// Whether a channel is the same, if there is one.
pub open spec fn same_at(before: HostV, after: HostV, cid: u16) -> bool {
    &&& before.has_channel(cid) == after.has_channel(cid)
    &&& before.channel(cid) == after.channel(cid)
}

/// Whether nothing waits on a channel.
pub open spec fn all_taken(host: HostV, cid: u16) -> bool {
    host.has_channel(cid) ==> host.channel(cid).received.len() == 0
}

/// Whether the session knows the same channels of the service.
pub open spec fn same_service(before: SessionV, after: SessionV) -> bool {
    &&& after.protocols.sdp.dom() == before.protocols.sdp.dom()
    &&& after.protocols.control == before.protocols.control
    &&& after.protocols.interrupt == before.protocols.interrupt
}

proof fn lemma_sent(host: HostV, cid: u16, sdu: Seq<u8>)
    requires
        all_basic(host),
    ensures
        ({
            let after = host.sdu_sent(cid, sdu).0;
            &&& all_basic(after)
            &&& forall|other: u16| #[trigger] same_at(host, after, other)
        }),
{
    reveal(ChannelManagerV::sdu_sent);
    let after = host.sdu_sent(cid, sdu).0;
    if host.connection is Some {
        assert(host.has_channel(cid) ==> host.channel(cid).ertm is None);
        assert(after.connection->0.channels.channels == host.connection->0.channels.channels);
    }
    assert forall|other: u16| #[trigger] same_at(host, after, other) by {}
    assert forall|other: u16| #[trigger] after.has_channel(other) implies after.channel(
        other,
    ).ertm is None by {
        assert(host.has_channel(other));
    }
}

proof fn lemma_effect(session: SessionV, event: HidpBridgeEventV)
    requires
        all_basic(session.host),
    ensures
        ({
            let after = session.bridge_event_applied(event).0;
            &&& all_basic(after.host)
            &&& same_service(session, after)
            &&& forall|other: u16| #[trigger] same_at(session.host, after.host, other)
        }),
{
    if let HidpBridgeEventV::ControlResponse(response) = event {
        if let Some(control) = session.protocols.control {
            lemma_sent(session.host, control.cid, response);
        }
    }
}

proof fn lemma_effects(session: SessionV, events: Seq<HidpBridgeEventV>)
    requires
        all_basic(session.host),
    ensures
        ({
            let after = session.bridge_events_applied(events).0;
            &&& all_basic(after.host)
            &&& same_service(session, after)
            &&& forall|other: u16| #[trigger] same_at(session.host, after.host, other)
        }),
    decreases events.len(),
{
    if events.len() > 0 {
        lemma_effects(session, events.drop_last());
        let before = session.bridge_events_applied(events.drop_last()).0;
        lemma_effect(before, events.last());
        let after = session.bridge_events_applied(events).0;
        assert forall|other: u16| #[trigger] same_at(session.host, after.host, other) by {
            assert(same_at(session.host, before.host, other));
            assert(same_at(before.host, before.bridge_event_applied(events.last()).0.host, other));
        }
    }
}

proof fn lemma_message(session: SessionV, channel: Channel, cid: u16, message: Seq<u8>)
    requires
        all_basic(session.host),
    ensures
        ({
            let after = session.message_taken(channel, cid, message).0;
            &&& all_basic(after.host)
            &&& same_service(session, after)
            &&& forall|other: u16| #[trigger] same_at(session.host, after.host, other)
        }),
{
    let mtu = session.protocols.hidp.control_peer_mtu;
    match crate::hid_service::message_handled(channel, message, mtu) {
        Ok(events) => {
            lemma_effects(session, events);
        },
        Err(_) => {
            let refusal = crate::hidp::MessageV::Handshake(
                crate::hidp::Handshake(crate::hidp::Handshake::ERR_INVALID_PARAMETER),
            );
            if let Ok(response) = crate::hid_service::written(Channel::Control, refusal, mtu) {
                lemma_sent(session.host, cid, response);
            }
        },
    }
}

proof fn lemma_request(session: SessionV, cid: u16, request: Seq<u8>)
    requires
        all_basic(session.host),
        session.protocols.sdp.contains_key(cid),
    ensures
        ({
            let after = session.request_answered(cid, request).0;
            &&& all_basic(after.host)
            &&& same_service(session, after)
            &&& forall|other: u16| #[trigger] same_at(session.host, after.host, other)
        }),
{
    let (server, answer) = crate::hid_service::sdu_answered(session.protocols.sdp[cid], request);
    assert(session.protocols.sdp.insert(cid, server).dom() =~= session.protocols.sdp.dom());
    if let Some(response) = answer {
        lemma_sent(session.host, cid, response);
    }
}

proof fn lemma_taken(host: HostV, cid: u16)
    requires
        all_basic(host),
    ensures
        ({
            let (after, sdu) = host.sdu_taken(cid);
            &&& all_basic(after)
            &&& sdu is Some <==> host.backlog(cid) > 0
            &&& sdu is Some ==> after.backlog(cid) == host.backlog(cid) - 1
            &&& forall|other: u16| other != cid ==> #[trigger] same_at(host, after, other)
        }),
{
    let after = host.sdu_taken(cid).0;
    assert forall|other: u16| #[trigger] after.has_channel(other) implies after.channel(
        other,
    ).ertm is None by {
        assert(host.has_channel(other));
    }
    assert(host.has_channel(cid) ==> after.has_channel(cid));
    assert forall|other: u16| other != cid implies #[trigger] same_at(host, after, other) by {}
}

proof fn lemma_discovery(session: SessionV, cid: u16, count: nat)
    requires
        all_basic(session.host),
        session.protocols.sdp.contains_key(cid),
        count >= session.host.backlog(cid),
        session.sdp_served(cid, count).1 is Ok,
    ensures
        ({
            let after = session.sdp_served(cid, count).0;
            &&& all_basic(after.host)
            &&& same_service(session, after)
            &&& all_taken(after.host, cid)
            &&& forall|other: u16|
                other != cid ==> #[trigger] same_at(session.host, after.host, other)
        }),
    decreases count,
{
    lemma_taken(session.host, cid);
    let (host, request) = session.host.sdu_taken(cid);
    if count > 0 && request is Some {
        let taken = SessionV { host, ..session };
        let next = taken.request_answered(cid, request->0).0;
        lemma_request(taken, cid, request->0);
        assert(same_at(taken.host, next.host, cid));
        assert(next.protocols.sdp.dom().contains(cid));
        assert(next.host.has_channel(cid) ==> next.host.channel(cid).ertm is None);
        assert(taken.host.has_channel(cid) ==> taken.host.channel(cid).ertm is None);
        lemma_discovery(next, cid, (count - 1) as nat);
        let after = session.sdp_served(cid, count).0;
        assert forall|other: u16| other != cid implies #[trigger] same_at(
            session.host,
            after.host,
            other,
        ) by {
            assert(same_at(session.host, taken.host, other));
            assert(same_at(taken.host, next.host, other));
            assert(same_at(next.host, after.host, other));
        }
    } else {
        assert(session.host.has_channel(cid) ==> session.host.channel(cid).ertm is None);
    }
}

proof fn lemma_hid(session: SessionV, channel: Channel, cid: u16, count: nat)
    requires
        all_basic(session.host),
        count >= session.host.backlog(cid),
        session.hid_served(channel, cid, count).1 is Ok,
    ensures
        ({
            let after = session.hid_served(channel, cid, count).0;
            &&& all_basic(after.host)
            &&& same_service(session, after)
            &&& all_taken(after.host, cid)
            &&& forall|other: u16|
                other != cid ==> #[trigger] same_at(session.host, after.host, other)
        }),
    decreases count,
{
    lemma_taken(session.host, cid);
    let (host, message) = session.host.sdu_taken(cid);
    if count > 0 && message is Some {
        let taken = SessionV { host, ..session };
        let next = taken.message_taken(channel, cid, message->0).0;
        lemma_message(taken, channel, cid, message->0);
        assert(same_at(taken.host, next.host, cid));
        lemma_hid(next, channel, cid, (count - 1) as nat);
        let after = session.hid_served(channel, cid, count).0;
        assert forall|other: u16| other != cid implies #[trigger] same_at(
            session.host,
            after.host,
            other,
        ) by {
            assert(same_at(session.host, taken.host, other));
            assert(same_at(taken.host, next.host, other));
            assert(same_at(next.host, after.host, other));
        }
    } else {
        assert(session.host.has_channel(cid) ==> session.host.channel(cid).ertm is None);
    }
}

proof fn lemma_discovery_from(session: SessionV, from: int)
    requires
        0 <= from,
        all_basic(session.host),
        session.sdp_served_from(from).1 is Ok,
    ensures
        ({
            let after = session.sdp_served_from(from).0;
            &&& all_basic(after.host)
            &&& same_service(session, after)
            &&& forall|cid: u16|
                cid >= from && session.protocols.sdp.contains_key(cid) ==> #[trigger] all_taken(
                    after.host,
                    cid,
                )
            &&& forall|cid: u16|
                cid < from || !session.protocols.sdp.contains_key(cid) ==> #[trigger] same_at(
                    session.host,
                    after.host,
                    cid,
                )
        }),
    decreases 65536 - from,
{
    let after = session.sdp_served_from(from).0;
    if from <= 65535 {
        let at = from as u16;
        if session.protocols.sdp.contains_key(at) {
            let next = session.sdp_served(at, session.host.backlog(at)).0;
            lemma_discovery(session, at, session.host.backlog(at));
            lemma_discovery_from(next, from + 1);
            assert(same_at(next.host, after.host, at));
            assert forall|cid: u16| session.protocols.sdp.contains_key(cid)
                == #[trigger] next.protocols.sdp.contains_key(cid) by {
                assert(session.protocols.sdp.dom().contains(cid)
                    == next.protocols.sdp.dom().contains(cid));
            }
            assert forall|cid: u16|
                cid >= from && session.protocols.sdp.contains_key(cid) implies #[trigger] all_taken(
                after.host,
                cid,
            ) by {
                assert(next.protocols.sdp.contains_key(cid));
                if cid == at {
                    assert(all_taken(next.host, at));
                }
            }
            assert forall|cid: u16|
                cid < from || !session.protocols.sdp.contains_key(cid) implies #[trigger] same_at(
                session.host,
                after.host,
                cid,
            ) by {
                assert(cid < from + 1 || !next.protocols.sdp.contains_key(cid));
                assert(same_at(session.host, next.host, cid));
                assert(same_at(next.host, after.host, cid));
            }
        } else {
            lemma_discovery_from(session, from + 1);
        }
    }
}

/// Whether a known channel is open and its own.
pub open spec fn in_use(known: Option<ProtocolChannel>, cid: u16) -> bool {
    known matches Some(channel) && channel.open && channel.cid == cid
}

/// Once the session took what came in, nothing waits any more: neither on a
/// discovery channel, nor on the control channel, nor on the interrupt channel,
/// as far as these are open. What came in on any other channel still waits.
pub proof fn input_is_taken_whole(session: SessionV, cid: u16)
    requires
        all_basic(session.host),
        session.input_processed().1 is Ok,
    ensures
        ({
            let after = session.input_processed().0;
            &&& session.protocols.sdp.contains_key(cid) || in_use(session.protocols.control, cid)
                || in_use(session.protocols.interrupt, cid) ==> all_taken(after.host, cid)
            &&& !session.protocols.sdp.contains_key(cid) && !in_use(session.protocols.control, cid)
                && !in_use(session.protocols.interrupt, cid) ==> same_at(
                session.host,
                after.host,
                cid,
            )
            &&& same_service(session, after)
        }),
{
    reveal(SessionV::input_processed);
    lemma_discovery_from(session, 0);
    let first = session.sdp_served_from(0).0;
    let control = first.protocols.control;
    let interrupt = first.protocols.interrupt;
    let second = first.hid_channel_served(Channel::Control, control).0;
    let third = second.hid_channel_served(Channel::Interrupt, interrupt).0;
    if session.protocols.sdp.contains_key(cid) {
        assert(all_taken(first.host, cid));
    } else {
        assert(same_at(session.host, first.host, cid));
    }
    if control is Some && control->0.open {
        lemma_hid(first, Channel::Control, control->0.cid, first.host.backlog(control->0.cid));
        if cid != control->0.cid {
            assert(same_at(first.host, second.host, cid));
        }
    }
    if interrupt is Some && interrupt->0.open {
        let at = interrupt->0.cid;
        lemma_hid(second, Channel::Interrupt, at, second.host.backlog(at));
        if cid != at {
            assert(same_at(second.host, third.host, cid));
        }
    }
}

/// Where nothing fails, all that the host has to hand over is handed over.
pub proof fn output_is_handed_over(session: SessionV)
    requires
        session.output_drained().1 is Ok,
    ensures
        session.output_drained().0.host.output.len() == 0,
    decreases
            super::model::resets(session.host.output),
            session.unknown_channels(),
            session.host.output.len(),
{
    if session.host.output.len() > 0 {
        lemma_output_applied(session);
        output_is_handed_over(session.output_popped().output_applied(session.host.output[0]).0);
    }
}

/// Data of the peer that the session takes leaves nothing with the host to hand
/// over.
pub proof fn data_leaves_nothing_behind(session: SessionV, packet: AclPacketV)
    requires
        session.data_taken(packet).1 is Ok,
    ensures
        session.data_taken(packet).0.host.output.len() == 0,
{
    let next = SessionV { host: session.host.acl_received(packet).0, ..session };
    let processed = next.output_drained().0.channels_refreshed().0.input_processed().0;
    output_is_handed_over(processed);
}

} // verus!
