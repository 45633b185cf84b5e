//! How frames are repeated, how they leave and reach the engine of a channel, and
//! how time goes by for all engines of a link.

use vstd::prelude::*;

use super::classic::{
    fcs_stripped, ChannelSpec, ClassicChannelSpec, ClassicChannelState, ClassicChannelV,
};
use super::ertm::{
    clock_sum, segments, seq_add, window_position, EnhancedControlField, ErtmEngineV,
    SegmentationAndReassembly, SupervisoryFunction, TransmittedFrameV,
};
use super::link_laws::frames_carry_their_check_sequence;
use super::manager::{framed, ChannelManagerV};
use super::{crc, L2capPduV};

verus! {

/// A peer that asks for one frame again gets that frame and no other, and the
/// repetition is counted. A frame that was repeated as often as was agreed ends
/// the engine, and one that is not outstanding is refused. While the peer is busy
/// nothing is repeated.
pub proof fn one_frame_is_repeated(engine: ErtmEngineV, at: int)
    requires
        0 <= at < engine.tx_window.len(),
        forall|i: int|
            0 <= i < at ==> (#[trigger] engine.tx_window[i]).frame.tx_seq
                != engine.tx_window[at].frame.tx_seq,
        engine.tx_window[at].transmissions < 65535,
    ensures
        ({
            let sent = engine.tx_window[at];
            let max = engine.config.max_retransmissions;
            let (after, result) = engine.one_retransmitted(sent.frame.tx_seq);
            &&& engine.remote_busy ==> after == engine && result is Ok
            &&& !engine.remote_busy && max > 0 && sent.transmissions > max ==> result is Err
                && after.failed && after.outbound == engine.outbound
            &&& !engine.remote_busy && (max == 0 || sent.transmissions <= max) ==> {
                &&& result is Ok
                &&& !after.failed || engine.failed
                &&& after.outbound == engine.outbound.push(
                    sent.frame.encode(engine.expected_tx_seq),
                )
                &&& after.tx_window.len() == engine.tx_window.len()
                &&& after.tx_window[at].frame == sent.frame
                &&& after.tx_window[at].transmissions == sent.transmissions + 1
                &&& forall|i: int|
                    0 <= i < engine.tx_window.len() && i != at ==> #[trigger] after.tx_window[i]
                        == engine.tx_window[i]
                &&& after.pending == engine.pending
                &&& after.received == engine.received
            }
        }),
{
    lemma_first_position(engine.tx_window, at);
}

proof fn lemma_first_position(window: Seq<TransmittedFrameV>, at: int)
    requires
        0 <= at < window.len(),
        forall|i: int|
            0 <= i < at ==> (#[trigger] window[i]).frame.tx_seq != window[at].frame.tx_seq,
    ensures
        window_position(window, window[at].frame.tx_seq) == Some(at),
    decreases at,
{
    if at > 0 {
        let rest = window.skip(1);
        assert forall|i: int| 0 <= i < at - 1 implies (#[trigger] rest[i]).frame.tx_seq
            != rest[at - 1].frame.tx_seq by {
            assert(rest[i] == window[i + 1]);
        }
        assert(window[0].frame.tx_seq != window[at].frame.tx_seq);
        lemma_first_position(rest, at - 1);
    }
}

/// A frame that is asked for and is not outstanding is refused, and nothing
/// changes.
pub proof fn unknown_frame_is_not_repeated(engine: ErtmEngineV, tx_seq: u8)
    requires
        !engine.remote_busy,
        forall|i: int|
            0 <= i < engine.tx_window.len() ==> (#[trigger] engine.tx_window[i]).frame.tx_seq
                != tx_seq,
    ensures
        engine.one_retransmitted(tx_seq).1 is Err,
        engine.one_retransmitted(tx_seq).0 == engine,
{
    lemma_nowhere(engine.tx_window, tx_seq);
}

proof fn lemma_nowhere(window: Seq<TransmittedFrameV>, tx_seq: u8)
    requires
        forall|i: int| 0 <= i < window.len() ==> (#[trigger] window[i]).frame.tx_seq != tx_seq,
    ensures
        window_position(window, tx_seq) is None,
    decreases window.len(),
{
    if window.len() > 0 {
        let rest = window.skip(1);
        assert(window[0].frame.tx_seq != tx_seq);
        assert forall|i: int| 0 <= i < rest.len() implies (#[trigger] rest[i]).frame.tx_seq
            != tx_seq by {
            assert(rest[i] == window[i + 1]);
        }
        lemma_nowhere(rest, tx_seq);
    }
}

/// Where all outstanding frames are repeated, each goes out once, the oldest
/// first, and each repetition is counted.
pub proof fn whole_window_is_counted(engine: ErtmEngineV)
    requires
        !engine.remote_busy,
        engine.all_retransmitted().1 is Ok,
        forall|i: int|
            0 <= i < engine.tx_window.len() ==> (#[trigger] engine.tx_window[i]).transmissions
                < 65535,
    ensures
        ({
            let after = engine.all_retransmitted().0;
            let count = engine.tx_window.len();
            &&& after.tx_window.len() == count
            &&& after.outbound.len() == engine.outbound.len() + count
            &&& forall|i: int|
                0 <= i < count ==> (#[trigger] after.tx_window[i]).frame
                    == engine.tx_window[i].frame && after.tx_window[i].transmissions
                    == engine.tx_window[i].transmissions + 1
            &&& forall|i: int|
                0 <= i < count ==> #[trigger] after.outbound[engine.outbound.len() + i]
                    == engine.tx_window[i].frame.encode(engine.expected_tx_seq)
            &&& forall|i: int|
                0 <= i < engine.outbound.len() ==> #[trigger] after.outbound[i]
                    == engine.outbound[i]
        }),
{
}

/// The payload that carries a frame to a channel: the frame, and where it is
/// checked the check sequence behind it.
pub open spec fn carried(frame: Seq<u8>, cid: u16, with_check: bool) -> Seq<u8> {
    let length = frame.len() + 2;
    let check = crc(
        seq![
            (length % 256) as u8,
            (length / 256) as u8,
            (cid % 256) as u8,
            (cid / 256) as u8,
        ] + frame,
    );
    if with_check {
        frame + seq![(check % 256) as u8, (check / 256) as u8]
    } else {
        frame
    }
}

proof fn lemma_framed(frames: Seq<Seq<u8>>, cid: u16, with_check: bool)
    requires
        forall|i: int| 0 <= i < frames.len() ==> (#[trigger] frames[i]).len() + 2 <= 65535,
    ensures
        framed(frames, cid, with_check) == (
            frames.map_values(
                |frame: Seq<u8>| L2capPduV { cid, payload: carried(frame, cid, with_check) },
            ),
            Ok::<(), Seq<char>>(()),
        ),
    decreases frames.len(),
{
    let units = frames.map_values(
        |frame: Seq<u8>| L2capPduV { cid, payload: carried(frame, cid, with_check) },
    );
    if frames.len() == 0 {
        assert(units =~= seq![]);
    } else {
        let rest = frames.skip(1);
        assert forall|i: int| 0 <= i < rest.len() implies (#[trigger] rest[i]).len() + 2
            <= 65535 by {
            assert(rest[i] == frames[i + 1]);
        }
        lemma_framed(rest, cid, with_check);
        frames_carry_their_check_sequence(cid, frames[0], 0, 0);
        assert(seq![
            L2capPduV { cid, payload: carried(frames[0], cid, with_check) },
        ] + rest.map_values(
            |frame: Seq<u8>| L2capPduV { cid, payload: carried(frame, cid, with_check) },
        ) =~= units);
    }
}

/// What an engine has to send leaves it in order, to the peer's end of the channel
/// and with a check sequence where one was agreed on; what it has to deliver goes
/// behind what was delivered before. Neither is left behind.
pub proof fn engine_output_leaves(manager: ChannelManagerV, cid: u16, engine: ErtmEngineV)
    requires
        manager.channels.contains_key(cid),
        manager.channels[cid].ertm == Some(engine),
        forall|i: int|
            0 <= i < engine.outbound.len() ==> (#[trigger] engine.outbound[i]).len() + 2 <= 65535,
    ensures
        ({
            let channel = manager.channels[cid];
            let (after, result) = manager.flushed(cid);
            &&& result is Ok
            &&& after.outbound == manager.outbound + engine.outbound.map_values(
                |frame: Seq<u8>|
                    L2capPduV {
                        cid: channel.destination_cid,
                        payload: carried(frame, channel.destination_cid, channel.fcs_enabled),
                    },
            )
            &&& after.channels[cid].received == channel.received + engine.received
            &&& after.channels[cid].ertm == Some(
                ErtmEngineV { outbound: seq![], received: seq![], ..engine },
            )
            &&& after.channels.dom() =~= manager.channels.dom()
        }),
{
    reveal(ChannelManagerV::flushed);
    let channel = manager.channels[cid];
    lemma_framed(engine.outbound, channel.destination_cid, channel.fcs_enabled);
}

/// What comes on a channel with an engine goes to the engine without its check
/// sequence, where one was agreed on; a frame whose sequence is wrong is refused
/// and changes nothing.
pub proof fn engine_gets_checked_frames(
    manager: ChannelManagerV,
    cid: u16,
    engine: ErtmEngineV,
    frame: Seq<u8>,
    payload: Seq<u8>,
)
    requires
        manager.channels.contains_key(cid),
        manager.channels[cid].state == ClassicChannelState::Open,
        manager.channels[cid].ertm == Some(engine),
        frame.len() + 2 <= 65535,
    ensures
        ({
            let with_check = manager.channels[cid].fcs_enabled;
            manager.data_received(cid, carried(frame, cid, with_check)) == manager.engine_stepped(
                cid,
                engine.frame_received(frame),
            )
        }),
        manager.channels[cid].fcs_enabled && payload.len() <= 65535 && (forall|body: Seq<u8>|
            payload != #[trigger] carried(body, cid, true)) ==> manager.data_received(
            cid,
            payload,
        ).0 == manager && manager.data_received(cid, payload).1 is Err,
{
    reveal(ChannelManagerV::data_received);
    let length = frame.len() + 2;
    let check = crc(
        seq![
            (length % 256) as u8,
            (length / 256) as u8,
            (cid % 256) as u8,
            (cid / 256) as u8,
        ] + frame,
    );
    frames_carry_their_check_sequence(cid, frame, (check % 256) as u8, (check / 256) as u8);
    if manager.channels[cid].fcs_enabled && payload.len() <= 65535 && (forall|body: Seq<u8>|
        payload != #[trigger] carried(body, cid, true)) {
        if payload.len() >= 2 {
            let body = payload.take(payload.len() - 2);
            let low = payload[payload.len() - 2];
            let high = payload[payload.len() - 1];
            assert(body + seq![low, high] =~= payload);
            frames_carry_their_check_sequence(cid, body, low, high);
            assert(payload != carried(body, cid, true));
            if fcs_stripped(cid, payload) is Ok {
                assert(carried(body, cid, true) =~= payload);
            }
        }
    }
}

/// An engine that did something hands out what came of it, and one that failed at
/// it keeps that to itself.
pub proof fn engine_steps_are_kept(
    manager: ChannelManagerV,
    cid: u16,
    engine: ErtmEngineV,
    busy: bool,
)
    requires
        manager.channels.contains_key(cid),
        manager.channels[cid].ertm == Some(engine),
    ensures
        ({
            let (stepped, outcome) = engine.busy_set(busy);
            let (after, result) = manager.busy_set(cid, busy);
            &&& outcome is Err ==> result is Err && after.channels[cid].ertm == Some(stepped)
                && after.outbound == manager.outbound
            &&& outcome is Ok ==> after.channels[cid].ertm == Some(
                ErtmEngineV { outbound: seq![], received: seq![], ..stepped },
            )
        }),
        !manager.channels.contains_key(0) ==> manager.busy_set(0, busy).1 is Err,
{
    reveal(ChannelManagerV::flushed);
}

/// Whether every engine from a channel on is as it would be after that time, with
/// nothing left to hand out.
pub open spec fn all_ticked(
    before: ChannelManagerV,
    after: ChannelManagerV,
    from: int,
    ticks: u32,
) -> bool {
    forall|cid: u16|
        #![trigger after.channels[cid]]
        #![trigger before.channels[cid]]
        before.has_engine(cid) && cid >= from ==> after.has_engine(cid)
            && after.channels[cid].ertm->0 == (ErtmEngineV {
            outbound: seq![],
            received: seq![],
            ..before.channels[cid].ertm->0.ticked(ticks).0
        })
}

/// Whether the channels below an identifier are the same.
pub open spec fn same_below(before: ChannelManagerV, after: ChannelManagerV, from: int) -> bool {
    forall|cid: u16|
        cid < from ==> #[trigger] same_channel(before, after, cid)
}

/// Whether a channel is the same, if there is one.
pub open spec fn same_channel(before: ChannelManagerV, after: ChannelManagerV, cid: u16) -> bool {
    &&& before.channels.contains_key(cid) == after.channels.contains_key(cid)
    &&& before.channels[cid] == after.channels[cid]
}

/// Time goes by for every engine of a link alike: where none fails, each is as it
/// would be alone after that time.
pub proof fn time_goes_by_for_every_engine(manager: ChannelManagerV, from: int, ticks: u32)
    requires
        0 <= from,
        manager.ticked_from(from, ticks).1 is Ok,
    ensures
        all_ticked(manager, manager.ticked_from(from, ticks).0, from, ticks),
        same_below(manager, manager.ticked_from(from, ticks).0, from),
    decreases 65536 - from,
{
    reveal(ChannelManagerV::flushed);
    let after = manager.ticked_from(from, ticks).0;
    if from <= 65535 {
        if manager.has_engine(from as u16) {
            let next = manager.engine_stepped(
                from as u16,
                manager.channels[from as u16].ertm->0.ticked(ticks),
            ).0;
            time_goes_by_for_every_engine(next, from + 1, ticks);
            assert(same_channel(next, after, from as u16));
            assert forall|cid: u16| cid < from implies #[trigger] same_channel(
                manager,
                after,
                cid,
            ) by {
                assert(same_channel(next, after, cid));
                assert(same_channel(manager, next, cid));
            }
        } else {
            time_goes_by_for_every_engine(manager, from + 1, ticks);
        }
    }
}

/// A new channel takes what its specification says; of the peer it assumes the
/// least, 48 bytes, until the peer says otherwise.
pub proof fn new_channels_assume_the_least(psm: u32, cid: u16, peer_cid: u16, mtu: u16)
    ensures
        ({
            let spec = ChannelSpec::Basic(ClassicChannelSpec { mtu });
            let asked = ClassicChannelV::started(psm, cid, spec);
            let accepted = ClassicChannelV::accepted(psm, cid, peer_cid, spec);
            &&& asked.psm == psm && asked.source_cid == cid && asked.destination_cid == 0
            &&& accepted.psm == psm && accepted.source_cid == cid && accepted.destination_cid
                == peer_cid
            &&& asked.mtu == mtu && accepted.mtu == mtu
            &&& asked.peer_mtu == 48 && accepted.peer_mtu == 48
            &&& asked.state == ClassicChannelState::WaitConnectResponse
            &&& accepted.state == ClassicChannelState::Configuring
            &&& !asked.incoming && accepted.incoming
            &&& !asked.fcs_enabled && !accepted.fcs_enabled
            &&& asked.connection_result is None && accepted.connection_result == Some(0u16)
            &&& asked.ertm is None && accepted.ertm is None
            &&& asked.received.len() == 0 && accepted.received.len() == 0
        }),
{
}

/// Whether an engine has told the peer all that it got, if it sent anything.
pub open spec fn told_if_sent(before: ErtmEngineV, after: ErtmEngineV) -> bool {
    &&& after.outbound.len() >= before.outbound.len()
    &&& after.outbound.len() > before.outbound.len() ==> after.last_acked_rx_seq
        == after.expected_tx_seq
    &&& after.outbound.len() == before.outbound.len() ==> after.last_acked_rx_seq
        == before.last_acked_rx_seq
}

proof fn lemma_sending_tells(engine: ErtmEngineV, tx_seq: u8)
    ensures
        told_if_sent(engine, engine.output_processed()),
        engine.output_processed().expected_tx_seq == engine.expected_tx_seq,
        told_if_sent(engine, engine.all_retransmitted().0),
        engine.all_retransmitted().0.expected_tx_seq == engine.expected_tx_seq,
        told_if_sent(engine, engine.one_retransmitted(tx_seq).0),
        engine.one_retransmitted(tx_seq).0.expected_tx_seq == engine.expected_tx_seq,
{
}

proof fn lemma_information_tells(
    engine: ErtmEngineV,
    tx_seq: u8,
    final_bit: bool,
    sar: SegmentationAndReassembly,
    payload: Seq<u8>,
)
    requires
        engine.information_received(tx_seq, final_bit, sar, payload).1 is Ok,
    ensures
        ({
            let after = engine.information_received(tx_seq, final_bit, sar, payload).0;
            &&& told_if_sent(engine, after)
            &&& after.expected_tx_seq != engine.expected_tx_seq ==> after.last_acked_rx_seq
                == after.expected_tx_seq
        }),
{
    let (accepted, result) = ErtmEngineV {
        expected_tx_seq: seq_add(engine.expected_tx_seq, 1),
        ..engine
    }.information_accepted(sar, payload);
    lemma_sending_tells(accepted, 0);
}

proof fn lemma_supervision_tells(
    engine: ErtmEngineV,
    function: SupervisoryFunction,
    poll: bool,
    final_bit: bool,
    req_seq: u8,
    acked: bool,
)
    requires
        engine.supervisory_received(function, poll, final_bit, req_seq, acked).1 is Ok,
    ensures
        ({
            let after = engine.supervisory_received(function, poll, final_bit, req_seq, acked).0;
            told_if_sent(engine, after) && after.expected_tx_seq == engine.expected_tx_seq
        }),
{
    let noted = ErtmEngineV {
        remote_busy: function == SupervisoryFunction::ReceiverNotReady,
        ..engine
    };
    let answered = noted.supervision_answered(function, final_bit, req_seq, acked).0;
    lemma_sending_tells(noted, req_seq);
    let polled = if poll {
        answered.supervised(answered.readiness(), false, true)
    } else {
        answered
    };
    lemma_sending_tells(polled, 0);
}

/// Whatever an engine sends confirms all that it got: with every frame that goes
/// out it is noted that the peer was told. An information frame that is taken in
/// is always confirmed.
#[verifier::spinoff_prover]
pub proof fn everything_sent_confirms(
    engine: ErtmEngineV,
    frame: Seq<u8>,
    sdu: Seq<u8>,
    ticks: u32,
    busy: bool,
)
    ensures
        told_if_sent(engine, engine.sdu_sent(sdu).0),
        told_if_sent(engine, engine.ticked(ticks).0),
        told_if_sent(engine, engine.busy_set(busy).0),
        engine.frame_received(frame).1 is Ok ==> {
            let after = engine.frame_received(frame).0;
            &&& told_if_sent(engine, after)
            &&& after.expected_tx_seq != engine.expected_tx_seq ==> after.last_acked_rx_seq
                == after.expected_tx_seq
        },
{
    let frames = segments(sdu, engine.config.peer_mps as int, engine.next_tx_seq);
    let queued = ErtmEngineV {
        pending: engine.pending + frames,
        next_tx_seq: seq_add(engine.next_tx_seq, frames.len() as int),
        ..engine
    };
    lemma_sending_tells(queued, 0);
    let later = ErtmEngineV { now: clock_sum(engine.now, ticks), ..engine };
    lemma_sending_tells(later, 0);
    if engine.frame_received(frame).1 is Ok {
        lemma_frame_tells(engine, frame);
    }
}

proof fn lemma_frame_tells(engine: ErtmEngineV, frame: Seq<u8>)
    requires
        engine.frame_received(frame).1 is Ok,
    ensures
        ({
            let after = engine.frame_received(frame).0;
            &&& told_if_sent(engine, after)
            &&& after.expected_tx_seq != engine.expected_tx_seq ==> after.last_acked_rx_seq
                == after.expected_tx_seq
        }),
{
    reveal(ErtmEngineV::frame_received);
    let control = EnhancedControlField::decode(frame)->Ok_0;
    let (acknowledged, acked) = engine.acknowledged(control.spec_req_seq());
    match control {
        EnhancedControlField::Information { tx_seq, final_bit, sar, .. } => {
            lemma_information_tells(acknowledged, tx_seq, final_bit, sar, frame.skip(2));
        },
        EnhancedControlField::Supervisory { function, poll, final_bit, req_seq } => {
            lemma_supervision_tells(
                acknowledged,
                function,
                poll,
                final_bit,
                req_seq,
                acked->Ok_0,
            );
        },
    }
}

} // verus!
