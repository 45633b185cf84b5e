//! What holds of enhanced retransmission mode as a whole: the numbering of
//! frames, the size of the window, and the delivery of SDUs.

use vstd::prelude::*;

use super::ertm::{
    clock_sum, control_field_reads_back, first_exhausted, later_segments, lemma_seq_add, lemma_seq_distance, segments, seq_add,
    seq_distance, window_position, EnhancedControlField, ErtmConfig, ErtmEngineV, PendingFrameV,
    SegmentationAndReassembly, SupervisoryFunction, TransmittedFrameV,
};

verus! {

impl ErtmEngineV {
    /// The state that every engine keeps: the window holds no more frames than
    /// agreed, unacknowledged and waiting frames have consecutive numbers that
    /// start at the acknowledged one, and the timer runs exactly while a frame
    /// is unacknowledged, for no longer than the timeout.
    pub open spec fn sound(self) -> bool {
        &&& self.config.checked() is Ok
        &&& self.last_acked_tx_seq < 64
        &&& self.expected_tx_seq < 64
        &&& self.last_acked_rx_seq < 64
        &&& self.tx_window.len() <= self.config.tx_window_size
        &&& forall|i: int|
            0 <= i < self.tx_window.len() ==> (#[trigger] self.tx_window[i]).frame.tx_seq == seq_add(
                self.last_acked_tx_seq,
                i,
            )
        &&& forall|i: int|
            0 <= i < self.pending.len() ==> (#[trigger] self.pending[i]).tx_seq == seq_add(
                self.last_acked_tx_seq,
                self.tx_window.len() + i,
            )
        &&& self.next_tx_seq == seq_add(
            self.last_acked_tx_seq,
            (self.tx_window.len() + self.pending.len()) as int,
        )
        &&& self.retransmission_deadline is Some <==> self.tx_window.len() > 0
        &&& self.retransmission_deadline matches Some(deadline) ==> deadline <= clock_sum(
            self.now,
            self.config.retransmission_timeout_ticks,
        )
    }
}

proof fn lemma_output_sound(engine: ErtmEngineV)
    requires
        engine.sound(),
    ensures
        engine.output_processed().sound(),
{
    let after = engine.output_processed();
    if !engine.remote_busy {
        let n = engine.sendable();
        assert forall|i: int| 0 <= i < after.tx_window.len() implies (
        #[trigger] after.tx_window[i]).frame.tx_seq == seq_add(after.last_acked_tx_seq, i) by {
            if i >= engine.tx_window.len() {
                let k = i - engine.tx_window.len();
                assert(after.tx_window[i].frame == engine.pending[k]);
            } else {
                assert(after.tx_window[i] == engine.tx_window[i]);
            }
        }
        assert forall|i: int| 0 <= i < after.pending.len() implies (
        #[trigger] after.pending[i]).tx_seq == seq_add(
            after.last_acked_tx_seq,
            after.tx_window.len() + i,
        ) by {
            assert(after.pending[i] == engine.pending[n + i]);
        }
    }
}

pub proof fn lemma_acknowledged_sound(engine: ErtmEngineV, new_seq: u8)
    requires
        engine.sound(),
    ensures
        engine.acknowledged(new_seq).0.sound(),
{
    let after = engine.acknowledged(new_seq).0;
    if after != engine {
        let count = seq_distance(engine.last_acked_tx_seq, new_seq);
        lemma_seq_distance(engine.last_acked_tx_seq, new_seq);
        lemma_seq_add(
            engine.last_acked_tx_seq,
            count,
            (after.tx_window.len() + after.pending.len()) as int,
        );
        assert forall|i: int| 0 <= i < after.tx_window.len() implies (
        #[trigger] after.tx_window[i]).frame.tx_seq == seq_add(after.last_acked_tx_seq, i) by {
            assert(after.tx_window[i] == engine.tx_window[count + i]);
            lemma_seq_add(engine.last_acked_tx_seq, count, i);
        }
        assert forall|i: int| 0 <= i < after.pending.len() implies (
        #[trigger] after.pending[i]).tx_seq == seq_add(
            after.last_acked_tx_seq,
            after.tx_window.len() + i,
        ) by {
            assert(after.pending[i] == engine.pending[i]);
            lemma_seq_add(engine.last_acked_tx_seq, count, after.tx_window.len() + i);
        }
    }
}

pub proof fn lemma_window_position(window: Seq<TransmittedFrameV>, tx_seq: u8)
    ensures
        window_position(window, tx_seq) matches Some(index) ==> 0 <= index < window.len(),
    decreases window.len(),
{
    if window.len() > 0 {
        lemma_window_position(window.skip(1), tx_seq);
    }
}

proof fn lemma_retransmitted_sound(engine: ErtmEngineV, tx_seq: u8)
    requires
        engine.sound(),
    ensures
        engine.all_retransmitted().0.sound(),
        engine.one_retransmitted(tx_seq).0.sound(),
{
    let all = engine.all_retransmitted().0;
    assert forall|i: int| 0 <= i < all.tx_window.len() implies (
    #[trigger] all.tx_window[i]).frame.tx_seq == seq_add(all.last_acked_tx_seq, i) by {
        assert(all.tx_window[i].frame == engine.tx_window[i].frame);
    }
    assert forall|i: int| 0 <= i < all.pending.len() implies (#[trigger] all.pending[i]).tx_seq
        == seq_add(all.last_acked_tx_seq, all.tx_window.len() + i) by {
        assert(all.pending[i] == engine.pending[i]);
    }
    lemma_window_position(engine.tx_window, tx_seq);
    let one = engine.one_retransmitted(tx_seq).0;
    assert forall|i: int| 0 <= i < one.tx_window.len() implies (
    #[trigger] one.tx_window[i]).frame.tx_seq == seq_add(one.last_acked_tx_seq, i) by {
        assert(one.tx_window[i].frame == engine.tx_window[i].frame);
    }
    assert forall|i: int| 0 <= i < one.pending.len() implies (#[trigger] one.pending[i]).tx_seq
        == seq_add(one.last_acked_tx_seq, one.tx_window.len() + i) by {
        assert(one.pending[i] == engine.pending[i]);
    }
}

proof fn lemma_accepted_keeps_sending_side(
    engine: ErtmEngineV,
    sar: SegmentationAndReassembly,
    payload: Seq<u8>,
)
    ensures
        ({
            let after = engine.information_accepted(sar, payload).0;
            after == (ErtmEngineV {
                received: after.received,
                input_sdu: after.input_sdu,
                input_sdu_length: after.input_sdu_length,
                ..engine
            })
        }),
{
}

proof fn lemma_later_segments_numbered(rest: Seq<u8>, mps: int, tx_seq: u8)
    requires
        tx_seq < 64,
    ensures
        forall|i: int|
            0 <= i < later_segments(rest, mps, tx_seq).len() ==> (#[trigger] later_segments(
                rest,
                mps,
                tx_seq,
            )[i]).tx_seq == seq_add(tx_seq, i),
    decreases rest.len(),
{
    lemma_seq_add(tx_seq, 0, 0);
    if mps > 0 && rest.len() > mps {
        lemma_seq_add(tx_seq, 1, 0);
        let next = later_segments(rest.skip(mps), mps, seq_add(tx_seq, 1));
        lemma_later_segments_numbered(rest.skip(mps), mps, seq_add(tx_seq, 1));
        let all = later_segments(rest, mps, tx_seq);
        assert forall|i: int| 0 <= i < all.len() implies (#[trigger] all[i]).tx_seq == seq_add(
            tx_seq,
            i,
        ) by {
            lemma_seq_add(tx_seq, 1, i - 1);
            if i > 0 {
                assert(all[i] == next[i - 1]);
            }
        }
    }
}

pub proof fn lemma_segments_numbered(sdu: Seq<u8>, mps: int, tx_seq: u8)
    requires
        tx_seq < 64,
    ensures
        forall|i: int|
            0 <= i < segments(sdu, mps, tx_seq).len() ==> (#[trigger] segments(
                sdu,
                mps,
                tx_seq,
            )[i]).tx_seq == seq_add(tx_seq, i),
{
    lemma_seq_add(tx_seq, 0, 0);
    if mps > 0 && sdu.len() > mps {
        lemma_seq_add(tx_seq, 1, 0);
        let next = later_segments(sdu.skip(mps), mps, seq_add(tx_seq, 1));
        lemma_later_segments_numbered(sdu.skip(mps), mps, seq_add(tx_seq, 1));
        let all = segments(sdu, mps, tx_seq);
        assert forall|i: int| 0 <= i < all.len() implies (#[trigger] all[i]).tx_seq == seq_add(
            tx_seq,
            i,
        ) by {
            lemma_seq_add(tx_seq, 1, i - 1);
            if i > 0 {
                assert(all[i] == next[i - 1]);
            }
        }
    }
}

/// An engine starts sound, whatever usable configuration it is given.
pub proof fn new_engine_is_sound(config: ErtmConfig)
    requires
        config.checked() is Ok,
    ensures
        ErtmEngineV::initial(config).sound(),
{
    lemma_seq_add(0, 0, 0);
}

/// Sending an SDU keeps an engine sound, whether it is accepted or refused.
pub proof fn sending_keeps_engine_sound(engine: ErtmEngineV, sdu: Seq<u8>)
    requires
        engine.sound(),
    ensures
        engine.sdu_sent(sdu).0.sound(),
{
    if !engine.failed && sdu.len() <= engine.config.peer_mtu {
        let frames = segments(sdu, engine.config.peer_mps as int, engine.next_tx_seq);
        lemma_seq_add(
            engine.last_acked_tx_seq,
            (engine.tx_window.len() + engine.pending.len()) as int,
            0,
        );
        lemma_segments_numbered(sdu, engine.config.peer_mps as int, engine.next_tx_seq);
        let held = engine.tx_window.len() + engine.pending.len();
        lemma_seq_add(engine.last_acked_tx_seq, held as int, frames.len() as int);
        let queued = ErtmEngineV {
            pending: engine.pending + frames,
            next_tx_seq: seq_add(engine.next_tx_seq, frames.len() as int),
            ..engine
        };
        assert forall|i: int| 0 <= i < queued.pending.len() implies (
        #[trigger] queued.pending[i]).tx_seq == seq_add(
            queued.last_acked_tx_seq,
            queued.tx_window.len() + i,
        ) by {
            if i < engine.pending.len() {
                assert(queued.pending[i] == engine.pending[i]);
            } else {
                let k = i - engine.pending.len();
                assert(queued.pending[i] == frames[k]);
                lemma_seq_add(engine.last_acked_tx_seq, held as int, k);
            }
        }
        assert(forall|i: int| 0 <= i < queued.tx_window.len() ==> queued.tx_window[i] == engine.tx_window[i]);
        lemma_output_sound(queued);
    }
}

proof fn lemma_information_sound(
    engine: ErtmEngineV,
    tx_seq: u8,
    final_bit: bool,
    sar: SegmentationAndReassembly,
    payload: Seq<u8>,
)
    requires
        engine.sound(),
    ensures
        engine.information_received(tx_seq, final_bit, sar, payload).0.sound(),
{
    lemma_seq_add(engine.expected_tx_seq, 1, 0);
    let advanced = ErtmEngineV { expected_tx_seq: seq_add(engine.expected_tx_seq, 1), ..engine };
    lemma_accepted_keeps_sending_side(advanced, sar, payload);
    let accepted = advanced.information_accepted(sar, payload).0;
    assert(accepted.sound());
    lemma_output_sound(accepted);
}

/// Every frame from the peer, well formed or not, leaves an engine sound.
pub proof fn receiving_keeps_engine_sound(engine: ErtmEngineV, frame: Seq<u8>)
    requires
        engine.sound(),
    ensures
        engine.frame_received(frame).0.sound(),
{
    reveal(ErtmEngineV::frame_received);
    if !engine.failed && frame.len() >= 2 {
        let control = EnhancedControlField::decode(frame)->Ok_0;
        lemma_acknowledged_sound(engine, control.spec_req_seq());
        let (acknowledged, acked) = engine.acknowledged(control.spec_req_seq());
        if acked is Ok {
            match control {
                EnhancedControlField::Information { tx_seq, final_bit, sar, .. } => {
                    lemma_information_sound(acknowledged, tx_seq, final_bit, sar, frame.skip(2));
                },
                EnhancedControlField::Supervisory { function, poll, final_bit, req_seq } => {
                    let told = ErtmEngineV {
                        remote_busy: function == SupervisoryFunction::ReceiverNotReady,
                        ..acknowledged
                    };
                    assert(told.sound());
                    lemma_retransmitted_sound(told, req_seq);
                    let (answered, result) = told.supervision_answered(
                        function,
                        final_bit,
                        req_seq,
                        acked->Ok_0,
                    );
                    assert(answered.sound());
                    let ready = if poll {
                        answered.supervised(answered.readiness(), false, true)
                    } else {
                        answered
                    };
                    assert(ready.sound());
                    lemma_output_sound(ready);
                },
            }
        }
    }
}

/// An operation that is refused sends nothing and delivers nothing.
pub proof fn refused_operations_have_no_output(
    engine: ErtmEngineV,
    sdu: Seq<u8>,
    frame: Seq<u8>,
    ticks: u32,
    busy: bool,
)
    ensures
        engine.sdu_sent(sdu).1 is Err ==> same_output(engine, engine.sdu_sent(sdu).0),
        engine.frame_received(frame).1 is Err ==> same_output(
            engine,
            engine.frame_received(frame).0,
        ),
        engine.ticked(ticks).1 is Err ==> same_output(engine, engine.ticked(ticks).0),
        engine.busy_set(busy).1 is Err ==> same_output(engine, engine.busy_set(busy).0),
{
    reveal(ErtmEngineV::frame_received);
}

/// Whether two states of an engine have the same to send and to deliver.
pub open spec fn same_output(before: ErtmEngineV, after: ErtmEngineV) -> bool {
    before.outbound == after.outbound && before.received == after.received
}

/// The passing of time and a change of the local busy state leave an engine sound.
pub proof fn waiting_keeps_engine_sound(engine: ErtmEngineV, ticks: u32, busy: bool)
    requires
        engine.sound(),
    ensures
        engine.ticked(ticks).0.sound(),
        engine.busy_set(busy).0.sound(),
{
    if !engine.failed {
        let later = ErtmEngineV { now: clock_sum(engine.now, ticks), ..engine };
        assert(later.sound());
        lemma_retransmitted_sound(later, 0);
    }
}

/// A frame that is not the next one in sequence delivers nothing: no SDU is
/// lost or handed over twice because a frame was repeated or dropped.
pub proof fn frame_out_of_sequence_delivers_nothing(engine: ErtmEngineV, frame: Seq<u8>)
    requires
        EnhancedControlField::decode(frame) matches Ok(
            EnhancedControlField::Information { tx_seq, .. },
        ) ==> tx_seq != engine.expected_tx_seq,
    ensures
        engine.frame_received(frame).0.received == engine.received,
        engine.frame_received(frame).0.input_sdu == engine.input_sdu,
        engine.frame_received(frame).0.expected_tx_seq == engine.expected_tx_seq,
{
    reveal(ErtmEngineV::frame_received);
}

/// The engine after a list of frames, and whether all of them were accepted.
pub open spec fn frames_received(engine: ErtmEngineV, frames: Seq<Seq<u8>>) -> (ErtmEngineV, bool)
    decreases frames.len(),
{
    if frames.len() == 0 {
        (engine, true)
    } else {
        let (next, result) = engine.frame_received(frames[0]);
        let (end, accepted) = frames_received(next, frames.skip(1));
        (end, accepted && result is Ok)
    }
}

/// The frames as the peer sends them, each acknowledging up to `req_seq`.
pub open spec fn encoded(frames: Seq<PendingFrameV>, req_seq: u8) -> Seq<Seq<u8>> {
    frames.map_values(|frame: PendingFrameV| frame.encode(req_seq))
}

spec fn ready_to_receive(engine: ErtmEngineV) -> bool {
    &&& !engine.failed
    &&& !engine.local_busy
    &&& engine.expected_tx_seq < 64
    &&& engine.last_acked_tx_seq < 64
}

proof fn lemma_frame_accepted(engine: ErtmEngineV, frame: PendingFrameV)
    requires
        ready_to_receive(engine),
        frame.tx_seq == engine.expected_tx_seq,
        engine.information_accepted(frame.sar, frame.body()).1 is Ok,
    ensures
        ({
            let (after, result) = engine.frame_received(frame.encode(engine.last_acked_tx_seq));
            let accepted = engine.information_accepted(frame.sar, frame.body()).0;
            &&& result is Ok
            &&& ready_to_receive(after)
            &&& after.config == engine.config
            &&& after.received == accepted.received
            &&& after.input_sdu == accepted.input_sdu
            &&& after.input_sdu_length == accepted.input_sdu_length
            &&& after.expected_tx_seq == seq_add(engine.expected_tx_seq, 1)
            &&& after.last_acked_tx_seq == engine.last_acked_tx_seq
        }),
{
    reveal(ErtmEngineV::frame_received);
    let bytes = frame.encode(engine.last_acked_tx_seq);
    control_field_reads_back(frame.control(engine.last_acked_tx_seq), frame.body());
    assert(bytes.skip(2) =~= frame.body());
    assert(engine.acknowledged(engine.last_acked_tx_seq) == (engine, Ok::<bool, Seq<char>>(false)));
    lemma_seq_add(engine.expected_tx_seq, 1, 0);
    let advanced = ErtmEngineV { expected_tx_seq: seq_add(engine.expected_tx_seq, 1), ..engine };
    lemma_accepted_keeps_sending_side(advanced, frame.sar, frame.body());
    lemma_accepted_keeps_sending_side(engine, frame.sar, frame.body());
}

proof fn lemma_later_segments_delivered(engine: ErtmEngineV, sdu: Seq<u8>, mps: int, start: int)
    requires
        ready_to_receive(engine),
        mps > 0,
        0 <= start < sdu.len(),
        engine.input_sdu == sdu.take(start),
        engine.input_sdu_length == Some(sdu.len() as int),
    ensures
        ({
            let frames = later_segments(sdu.skip(start), mps, engine.expected_tx_seq);
            let (end, accepted) = frames_received(
                engine,
                encoded(frames, engine.last_acked_tx_seq),
            );
            &&& accepted
            &&& end.received == engine.received.push(sdu)
            &&& end.input_idle()
            &&& end.expected_tx_seq == seq_add(engine.expected_tx_seq, frames.len() as int)
        }),
    decreases sdu.len() - start,
{
    let rest = sdu.skip(start);
    let frames = later_segments(rest, mps, engine.expected_tx_seq);
    let bytes = encoded(frames, engine.last_acked_tx_seq);
    let first = frames[0];
    let (next, result) = engine.frame_received(bytes[0]);
    if rest.len() <= mps {
        assert(sdu.take(start) + rest =~= sdu);
        lemma_frame_accepted(engine, first);
        assert(bytes.skip(1) =~= Seq::<Seq<u8>>::empty());
        assert(frames_received(next, bytes.skip(1)) == (next, true));
    } else {
        assert(sdu.take(start) + rest.take(mps) =~= sdu.take(start + mps));
        lemma_frame_accepted(engine, first);
        assert(rest.skip(mps) =~= sdu.skip(start + mps));
        lemma_later_segments_delivered(next, sdu, mps, start + mps);
        let later = later_segments(sdu.skip(start + mps), mps, next.expected_tx_seq);
        assert(bytes.skip(1) =~= encoded(later, engine.last_acked_tx_seq));
        assert(frames.len() == 1 + later.len());
        lemma_seq_add(engine.expected_tx_seq, 1, later.len() as int);
    }
}

/// Reassembly undoes segmentation: the segments of an SDU, received in order by
/// an engine that is free and in the middle of nothing, are all accepted and
/// deliver exactly that SDU, whatever segment size the sender used.
pub proof fn segments_deliver_the_sdu(engine: ErtmEngineV, sdu: Seq<u8>, mps: int)
    requires
        !engine.failed,
        !engine.local_busy,
        engine.expected_tx_seq < 64,
        engine.last_acked_tx_seq < 64,
        engine.input_idle(),
        sdu.len() <= engine.config.local_mtu,
        mps > 0,
    ensures
        ({
            let frames = segments(sdu, mps, engine.expected_tx_seq);
            let (end, accepted) = frames_received(
                engine,
                encoded(frames, engine.last_acked_tx_seq),
            );
            &&& accepted
            &&& end.received == engine.received.push(sdu)
            &&& end.input_idle()
            &&& end.expected_tx_seq == seq_add(engine.expected_tx_seq, frames.len() as int)
        }),
{
    let frames = segments(sdu, mps, engine.expected_tx_seq);
    let bytes = encoded(frames, engine.last_acked_tx_seq);
    let first = frames[0];
    let (next, result) = engine.frame_received(bytes[0]);
    if sdu.len() <= mps {
        lemma_frame_accepted(engine, first);
        assert(bytes.skip(1) =~= Seq::<Seq<u8>>::empty());
        assert(frames_received(next, bytes.skip(1)) == (next, true));
    } else {
        assert(first.body().skip(2) =~= sdu.take(mps));
        lemma_frame_accepted(engine, first);
        lemma_later_segments_delivered(next, sdu, mps, mps);
        let later = later_segments(sdu.skip(mps), mps, next.expected_tx_seq);
        assert(bytes.skip(1) =~= encoded(later, engine.last_acked_tx_seq));
        assert(frames.len() == 1 + later.len());
        lemma_seq_add(engine.expected_tx_seq, 1, later.len() as int);
    }
}

/// What one end sends the other end delivers: where the two ends agree on the
/// next sequence number and nothing is outstanding, the frames that sending an
/// SDU puts out, received in order, deliver exactly that SDU.
pub proof fn sdu_reaches_the_peer(sender: ErtmEngineV, receiver: ErtmEngineV, sdu: Seq<u8>)
    requires
        sender.sound(),
        receiver.sound(),
        !sender.failed,
        !sender.remote_busy,
        sender.pending.len() == 0,
        sender.tx_window.len() == 0,
        sdu.len() <= sender.config.peer_mtu,
        segments(sdu, sender.config.peer_mps as int, sender.next_tx_seq).len()
            <= sender.config.tx_window_size,
        !receiver.failed,
        !receiver.local_busy,
        receiver.input_idle(),
        receiver.expected_tx_seq == sender.next_tx_seq,
        sender.expected_tx_seq == receiver.last_acked_tx_seq,
        sdu.len() <= receiver.config.local_mtu,
    ensures
        ({
            let (sent, result) = sender.sdu_sent(sdu);
            let frames = sent.outbound.skip(sender.outbound.len() as int);
            let (end, accepted) = frames_received(receiver, frames);
            &&& result is Ok
            &&& sent.outbound == sender.outbound + frames
            &&& accepted
            &&& end.received == receiver.received.push(sdu)
            &&& end.expected_tx_seq == sent.next_tx_seq
        }),
{
    let mps = sender.config.peer_mps as int;
    let made = segments(sdu, mps, sender.next_tx_seq);
    let (sent, result) = sender.sdu_sent(sdu);
    let frames = sent.outbound.skip(sender.outbound.len() as int);
    assert((sender.pending + made).take(made.len() as int) =~= made);
    assert(frames =~= encoded(made, sender.expected_tx_seq));
    assert(sent.outbound =~= sender.outbound + frames);
    segments_deliver_the_sdu(receiver, sdu, mps);
}

/// The unacknowledged frames as they are sent again.
pub open spec fn window_frames(engine: ErtmEngineV) -> Seq<Seq<u8>> {
    engine.tx_window.map_values(
        |sent: TransmittedFrameV| sent.frame.encode(engine.expected_tx_seq),
    )
}

/// The engine after a number of timeouts with nothing else in between.
pub open spec fn timed_out(engine: ErtmEngineV, count: nat) -> ErtmEngineV
    decreases count,
{
    if count == 0 {
        engine
    } else {
        let before = timed_out(engine, (count - 1) as nat);
        before.ticked(engine.config.retransmission_timeout_ticks).0
    }
}

/// Whether every unacknowledged frame was sent this many times.
pub open spec fn sent_times(engine: ErtmEngineV, times: int) -> bool {
    forall|i: int|
        0 <= i < engine.tx_window.len() ==> (#[trigger] engine.tx_window[i]).transmissions == times
}

proof fn lemma_first_exhausted(window: Seq<TransmittedFrameV>, max: u8, times: int)
    requires
        max != 0,
        forall|i: int| 0 <= i < window.len() ==> (#[trigger] window[i]).transmissions == times,
    ensures
        first_exhausted(window, max) is Some <==> window.len() > 0 && times >= 1 + max,
    decreases window.len(),
{
    if window.len() > 0 {
        assert(window[0].transmissions == times);
        assert forall|i: int| 0 <= i < window.skip(1).len() implies (
        #[trigger] window.skip(1)[i]).transmissions == times by {
            assert(window.skip(1)[i] == window[i + 1]);
        }
        lemma_first_exhausted(window.skip(1), max, times);
    }
}

/// One timeout repeats the window, or ends the engine where that was done as
/// often as agreed.
proof fn lemma_timeout(engine: ErtmEngineV, times: int)
    requires
        engine.sound(),
        !engine.failed,
        !engine.remote_busy,
        engine.config.max_retransmissions >= 1,
        engine.tx_window.len() > 0,
        1 <= times <= 1 + engine.config.max_retransmissions,
        sent_times(engine, times),
    ensures
        ({
            let (after, result) = engine.ticked(engine.config.retransmission_timeout_ticks);
            if times <= engine.config.max_retransmissions {
                &&& result is Ok
                &&& after.outbound == engine.outbound + window_frames(engine)
                &&& after.sound()
                &&& !after.failed
                &&& !after.remote_busy
                &&& after.config == engine.config
                &&& after.expected_tx_seq == engine.expected_tx_seq
                &&& window_frames(after) == window_frames(engine)
                &&& sent_times(after, times + 1)
            } else {
                &&& result is Err
                &&& after.outbound == engine.outbound
                &&& after.failed
            }
        }),
{
    let ticks = engine.config.retransmission_timeout_ticks;
    let (after, result) = engine.ticked(ticks);
    let later = ErtmEngineV { now: clock_sum(engine.now, ticks), ..engine };
    assert(engine.ticked(ticks) == later.all_retransmitted());
    lemma_first_exhausted(engine.tx_window, engine.config.max_retransmissions, times);
    waiting_keeps_engine_sound(engine, ticks, false);
    if times <= engine.config.max_retransmissions {
        assert(window_frames(after) =~= window_frames(engine));
        assert(window_frames(later) == window_frames(engine));
        assert forall|i: int| 0 <= i < after.tx_window.len() implies (
        #[trigger] after.tx_window[i]).transmissions == times + 1 by {
            assert(after.tx_window[i] == engine.tx_window[i].repeated());
        }
    }
}

proof fn lemma_timed_out(engine: ErtmEngineV, count: nat)
    requires
        engine.sound(),
        !engine.failed,
        !engine.remote_busy,
        engine.config.max_retransmissions >= 1,
        engine.tx_window.len() > 0,
        sent_times(engine, 1),
        count <= engine.config.max_retransmissions,
    ensures
        ({
            let after = timed_out(engine, count);
            &&& after.sound()
            &&& !after.failed
            &&& !after.remote_busy
            &&& after.config == engine.config
            &&& after.tx_window.len() == engine.tx_window.len()
            &&& window_frames(after) == window_frames(engine)
            &&& sent_times(after, (1 + count) as int)
        }),
    decreases count,
{
    if count > 0 {
        let before = timed_out(engine, (count - 1) as nat);
        lemma_timed_out(engine, (count - 1) as nat);
        lemma_timeout(before, count as int);
        assert(window_frames(timed_out(engine, count)).len() == window_frames(engine).len());
    }
}

/// Where the peer stays silent, the first timeouts, as many as retransmissions
/// are agreed, each send every unacknowledged frame once more, the oldest first.
/// The timeout after them fails, sends nothing and ends the engine.
pub proof fn timeouts_repeat_the_window_and_then_fail(engine: ErtmEngineV, count: nat)
    requires
        engine.sound(),
        !engine.failed,
        !engine.remote_busy,
        engine.config.max_retransmissions >= 1,
        engine.tx_window.len() > 0,
        sent_times(engine, 1),
        count <= engine.config.max_retransmissions,
    ensures
        ({
            let before = timed_out(engine, count);
            let (after, result) = before.ticked(engine.config.retransmission_timeout_ticks);
            if count < engine.config.max_retransmissions {
                &&& result is Ok
                &&& after.outbound == before.outbound + window_frames(engine)
                &&& !after.failed
            } else {
                &&& result is Err
                &&& after.outbound == before.outbound
                &&& after.failed
            }
        }),
{
    lemma_timed_out(engine, count);
    lemma_timeout(timed_out(engine, count), (1 + count) as int);
}

/// An engine that has failed refuses everything from then on, and stays as it is.
pub proof fn failed_engine_refuses(
    engine: ErtmEngineV,
    sdu: Seq<u8>,
    frame: Seq<u8>,
    ticks: u32,
    busy: bool,
)
    requires
        engine.failed,
    ensures
        engine.sdu_sent(sdu).0 == engine && engine.sdu_sent(sdu).1 is Err,
        engine.frame_received(frame).0 == engine && engine.frame_received(frame).1 is Err,
        engine.ticked(ticks).0 == engine && engine.ticked(ticks).1 is Err,
        engine.busy_set(busy).0 == engine && engine.busy_set(busy).1 is Err,
{
    reveal(ErtmEngineV::frame_received);
}

/// Nothing is sent again before the timeout, and at the timeout everything that
/// is unacknowledged is, whatever steps the time goes by in.
pub proof fn window_is_repeated_at_the_timeout(engine: ErtmEngineV, first: u32, second: u32)
    requires
        engine.sound(),
        !engine.failed,
        !engine.remote_busy,
        engine.tx_window.len() > 0,
        first_exhausted(engine.tx_window, engine.config.max_retransmissions) is None,
        engine.now + first < engine.retransmission_deadline->0,
    ensures
        ({
            let (waiting, result) = engine.ticked(first);
            let (after, repeated) = waiting.ticked(second);
            &&& result is Ok
            &&& waiting == (ErtmEngineV { now: (engine.now + first) as u64, ..engine })
            &&& repeated is Ok
            &&& after.outbound == if engine.now + first + second
                >= engine.retransmission_deadline->0 {
                engine.outbound + window_frames(engine)
            } else {
                engine.outbound
            }
        }),
{
    let waiting = engine.ticked(first).0;
    let later = ErtmEngineV { now: clock_sum(waiting.now, second), ..waiting };
    assert(window_frames(later) =~= window_frames(engine));
}

} // verus!
