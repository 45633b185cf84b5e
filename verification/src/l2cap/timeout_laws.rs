//! What holds of the channels of a link while time goes by: what the peer does
//! not confirm is sent again, at the timeout and not before.

use vstd::prelude::*;

use super::classic::{ClassicChannelState, ClassicChannelV};
use super::ertm::{
    first_exhausted, segments, ErtmEngineV, TransmittedFrameV,
};
use super::ertm_laws::{
    sending_keeps_engine_sound, window_frames, window_is_repeated_at_the_timeout,
};
use super::manager::{framed, ChannelManagerV};

verus! {

/// Where one channel alone has an engine, time goes by for that one.
proof fn lemma_ticked_alone(manager: ChannelManagerV, cid: u16, from: int, ticks: u32)
    requires
        manager.has_engine(cid),
        forall|other: u16| #[trigger] manager.has_engine(other) ==> other == cid,
        0 <= from <= cid,
    ensures
        manager.ticked_from(from, ticks) == manager.engine_stepped(
            cid,
            manager.channels[cid].ertm->0.ticked(ticks),
        ),
    decreases cid - from,
{
    if from < cid {
        assert(!manager.has_engine(from as u16));
        lemma_ticked_alone(manager, cid, from + 1, ticks);
    } else {
        reveal(ChannelManagerV::flushed);
        let (next, result) = manager.engine_stepped(
            cid,
            manager.channels[cid].ertm->0.ticked(ticks),
        );
        assert forall|other: u16| #[trigger] next.has_engine(other) implies other == cid by {
            if other != cid {
                assert(!manager.has_engine(other));
            }
        }
        lemma_ticked_none(next, cid + 1, ticks);
        assert(from as u16 == cid);
        match result {
            Err(reason) => {
                assert(manager.ticked_from(from, ticks) == (next, Err::<(), Seq<char>>(reason)));
            },
            Ok(done) => {
                assert(done == ());
                assert(manager.ticked_from(from, ticks) == next.ticked_from(from + 1, ticks));
            },
        }
    }
}

/// Where no channel from an identifier on has an engine, nothing happens.
proof fn lemma_ticked_none(manager: ChannelManagerV, from: int, ticks: u32)
    requires
        from >= 0,
        forall|other: u16| #[trigger] manager.has_engine(other) ==> other < from,
    ensures
        manager.ticked_from(from, ticks) == (manager, Ok::<(), Seq<char>>(())),
    decreases 65536 - from,
{
    if from <= 65535 {
        assert(!manager.has_engine(from as u16));
        lemma_ticked_none(manager, from + 1, ticks);
    }
}

proof fn lemma_none_exhausted(window: Seq<TransmittedFrameV>, max: u8)
    requires
        forall|i: int| 0 <= i < window.len() ==> (#[trigger] window[i]).transmissions == 1,
    ensures
        first_exhausted(window, max) is None,
    decreases window.len(),
{
    if window.len() > 0 {
        assert(window[0].transmissions == 1);
        assert forall|i: int| 0 <= i < window.skip(1).len() implies (
        #[trigger] window.skip(1)[i]).transmissions == 1 by {
            assert(window.skip(1)[i] == window[i + 1]);
        }
        lemma_none_exhausted(window.skip(1), max);
    }
}

/// What an engine with nothing outstanding holds and puts out for an SDU.
proof fn lemma_first_transmission(engine: ErtmEngineV, sdu: Seq<u8>)
    requires
        engine.sound(),
        !engine.failed,
        !engine.remote_busy,
        engine.pending.len() == 0,
        engine.tx_window.len() == 0,
        engine.outbound.len() == 0,
        sdu.len() <= engine.config.peer_mtu,
        engine.now + engine.config.retransmission_timeout_ticks <= u64::MAX,
    ensures
        ({
            let (sent, result) = engine.sdu_sent(sdu);
            &&& result is Ok
            &&& sent.sound()
            &&& !sent.failed
            &&& !sent.remote_busy
            &&& sent.tx_window.len() > 0
            &&& sent.outbound == window_frames(sent)
            &&& first_exhausted(sent.tx_window, sent.config.max_retransmissions) is None
            &&& sent.now == engine.now
            &&& sent.config == engine.config
            &&& sent.retransmission_deadline == Some(
                (engine.now + engine.config.retransmission_timeout_ticks) as u64,
            )
        }),
{
    let made = segments(sdu, engine.config.peer_mps as int, engine.next_tx_seq);
    let sent = engine.sdu_sent(sdu).0;
    sending_keeps_engine_sound(engine, sdu);
    assert(made.len() > 0);
    assert(engine.pending + made =~= made);
    assert(sent.outbound =~= window_frames(sent));
    assert forall|i: int| 0 <= i < sent.tx_window.len() implies (
    #[trigger] sent.tx_window[i]).transmissions == 1 by {}
    lemma_none_exhausted(sent.tx_window, sent.config.max_retransmissions);
}

/// A lost transmission is made good: the units that sending an SDU put out, and
/// that the peer never confirmed, are put out once more when the timeout is
/// reached, in the same order, and not before, whatever steps the time goes by
/// in. This is for a link on which one channel alone has an engine, with nothing
/// outstanding on it before.
pub proof fn lost_transmission_is_repeated_at_the_timeout(
    manager: ChannelManagerV,
    cid: u16,
    sdu: Seq<u8>,
    first: u32,
    second: u32,
)
    requires
        manager.consistent(),
        manager.has_engine(cid),
        forall|other: u16| #[trigger] manager.has_engine(other) ==> other == cid,
        manager.channels[cid].state == ClassicChannelState::Open,
        manager.outbound.len() == 0,
        ({
            let engine = manager.channels[cid].ertm->0;
            &&& !engine.failed
            &&& !engine.remote_busy
            &&& engine.pending.len() == 0
            &&& engine.tx_window.len() == 0
            &&& sdu.len() <= engine.config.peer_mtu
            &&& engine.now + engine.config.retransmission_timeout_ticks <= u64::MAX
            &&& first < engine.config.retransmission_timeout_ticks
        }),
        manager.sdu_sent(cid, sdu).1 is Ok,
    ensures
        ({
            let timeout = manager.channels[cid].ertm->0.config.retransmission_timeout_ticks;
            let sent = manager.sdu_sent(cid, sdu).0;
            let lost = sent.outbound;
            let taken = ChannelManagerV { outbound: seq![], ..sent };
            let (waiting, waited) = taken.ticked_from(0, first);
            let (after, repeated) = waiting.ticked_from(0, second);
            &&& lost.len() > 0
            &&& waited is Ok
            &&& waiting.outbound.len() == 0
            &&& repeated is Ok
            &&& after.outbound == if first + second >= timeout {
                lost
            } else {
                seq![]
            }
        }),
{
    reveal(ChannelManagerV::sdu_sent);
    reveal(ChannelManagerV::flushed);
    let channel = manager.channels[cid];
    let engine = channel.ertm->0;
    let stepped = engine.sdu_sent(sdu).0;
    lemma_first_transmission(engine, sdu);
    let frames = window_frames(stepped);
    let (pdus, fits) = framed(frames, channel.destination_cid, channel.fcs_enabled);
    let sent = manager.sdu_sent(cid, sdu).0;
    assert(sent.outbound =~= pdus);
    let rested = ErtmEngineV { outbound: seq![], received: seq![], ..stepped };
    let taken = ChannelManagerV { outbound: seq![], ..sent };
    assert(taken.channels[cid] == ClassicChannelV {
        ertm: Some(rested),
        received: channel.received + stepped.received,
        ..channel
    });
    assert forall|other: u16| #[trigger] taken.has_engine(other) implies other == cid by {
        if other != cid {
            assert(!manager.has_engine(other));
        }
    }
    assert(rested.sound());
    assert(window_frames(rested) =~= frames);
    window_is_repeated_at_the_timeout(rested, first, second);
    lemma_ticked_alone(taken, cid, 0, first);
    let (waiting, waited) = taken.ticked_from(0, first);
    let rested_later = ErtmEngineV { now: (rested.now + first) as u64, ..rested };
    assert(framed(Seq::<Seq<u8>>::empty(), channel.destination_cid, channel.fcs_enabled).0
        =~= seq![]);
    assert(waiting.outbound =~= seq![]);
    assert(waiting.channels[cid].ertm == Some(
        ErtmEngineV { outbound: seq![], received: seq![], ..rested_later },
    ));
    assert(ErtmEngineV { outbound: seq![], received: seq![], ..rested_later } == rested_later);
    assert forall|other: u16| #[trigger] waiting.has_engine(other) implies other == cid by {
        if other != cid {
            assert(!taken.has_engine(other));
        }
    }
    lemma_ticked_alone(waiting, cid, 0, second);
    let (after, repeated) = waiting.ticked_from(0, second);
    assert(rested.outbound + frames =~= frames);
    assert(frames.len() > 0);
    assert(pdus.len() > 0);
    if first + second >= engine.config.retransmission_timeout_ticks {
        assert(after.outbound =~= pdus);
    } else {
        assert(after.outbound =~= seq![]);
    }
}

} // verus!
