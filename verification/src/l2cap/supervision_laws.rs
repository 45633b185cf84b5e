//! What the frames of enhanced retransmission mode make an engine send, in their
//! bytes: answers to polls, acknowledgments, rejections and repetitions.

use vstd::prelude::*;

use super::ertm_laws::{lemma_window_position, receiving_keeps_engine_sound};
use super::ertm::{
    later_segments, lemma_seq_add, lemma_seq_distance, segments, seq_add, window_position,
    EnhancedControlField, ErtmEngineV, PendingFrameV, SegmentationAndReassembly,
    SupervisoryFunction, TransmittedFrameV,
};

verus! {

/// The bytes of a supervisory frame. The functions are 0, receiver ready, 1,
/// reject, 2, receiver not ready, and 3, selective reject.
pub open spec fn supervisory_bytes(function: int, poll: bool, last: bool, req_seq: u8) -> Seq<u8> {
    seq![
        (1 + 4 * function + (if poll {
            16int
        } else {
            0
        }) + (if last {
            128int
        } else {
            0
        })) as u8,
        req_seq,
    ]
}

/// Whether bytes are an information frame.
pub open spec fn is_information(frame: Seq<u8>) -> bool {
    frame.len() >= 2 && frame[0] % 2 == 0
}

/// Whether bytes are a supervisory frame.
pub open spec fn is_supervisory(frame: Seq<u8>) -> bool {
    frame.len() >= 2 && frame[0] % 2 == 1
}

/// Whether a supervisory frame polls.
pub open spec fn polls(frame: Seq<u8>) -> bool {
    frame[0] / 16 % 2 == 1
}

/// The bytes of an information frame: its number in bits 1 to 6 of the first
/// byte; the number that this end expects next and, in the top two bits, the
/// place of the segment in the second; the length of the SDU in front of a first
/// segment; and the segment.
pub proof fn information_frame_has_its_numbers_in_front(frame: PendingFrameV, req_seq: u8)
    requires
        frame.tx_seq < 64,
        req_seq < 64,
    ensures
        ({
            let bytes = frame.encode(req_seq);
            let place = match frame.sar {
                SegmentationAndReassembly::Unsegmented => 0int,
                SegmentationAndReassembly::Start => 1,
                SegmentationAndReassembly::End => 2,
                SegmentationAndReassembly::Continuation => 3,
            };
            &&& is_information(bytes)
            &&& bytes[0] == 2 * frame.tx_seq
            &&& bytes[1] == req_seq + 64 * place
            &&& frame.sdu_length is None ==> bytes.skip(2) == frame.payload
            &&& frame.sdu_length matches Some(length) ==> bytes[2] == length % 256 && bytes[3]
                == length / 256 && bytes.skip(4) == frame.payload
        }),
{
    let bytes = frame.encode(req_seq);
    if frame.sdu_length is None {
        assert(bytes.skip(2) =~= frame.payload);
    } else {
        assert(bytes.skip(4) =~= frame.payload);
    }
}

/// The segments of an SDU: none longer than the peer takes, one after the other
/// they are the SDU, and they are numbered one by one from the next number on. An
/// SDU that fits goes in one piece; any other has a first segment that tells the
/// length, a last one, and others in between.
pub proof fn segments_are_the_sdu(sdu: Seq<u8>, mps: int, tx_seq: u8)
    requires
        mps > 0,
        sdu.len() <= 65535,
        tx_seq < 64,
    ensures
        ({
            let frames = segments(sdu, mps, tx_seq);
            &&& frames.len() > 0
            &&& payloads(frames) == sdu
            &&& forall|i: int|
                0 <= i < frames.len() ==> (#[trigger] frames[i]).payload.len() <= mps
                    && frames[i].tx_seq == (tx_seq + i) % 64
            &&& sdu.len() <= mps ==> frames.len() == 1 && frames[0].sar
                == SegmentationAndReassembly::Unsegmented && frames[0].sdu_length is None
            &&& sdu.len() > mps ==> frames.len() > 1 && frames[0].sar
                == SegmentationAndReassembly::Start && frames[0].sdu_length == Some(
                sdu.len() as u16,
            ) && frames.last().sar == SegmentationAndReassembly::End && forall|i: int|
                0 < i < frames.len() ==> (#[trigger] frames[i]).sdu_length is None && (i
                    < frames.len() - 1 ==> frames[i].sar
                    == SegmentationAndReassembly::Continuation && frames[i].payload.len() == mps)
        }),
{
    reveal(seq_add);
    let frames = segments(sdu, mps, tx_seq);
    if sdu.len() <= mps {
        reveal_with_fuel(payloads, 2);
        assert(frames.drop_first() =~= Seq::<PendingFrameV>::empty());
        assert(payloads(frames) =~= sdu);
    } else {
        let later = later_segments(sdu.skip(mps), mps, seq_add(tx_seq, 1));
        lemma_later_segments(sdu.skip(mps), mps, seq_add(tx_seq, 1));
        assert(frames.drop_first() =~= later);
        assert(payloads(frames) == frames[0].payload + payloads(later));
        assert(sdu.take(mps) + sdu.skip(mps) =~= sdu);
        assert forall|i: int| 0 < i < frames.len() implies (#[trigger] frames[i]).payload.len()
            <= mps && frames[i].tx_seq == (tx_seq + i) % 64 && frames[i].sdu_length is None && (i
            < frames.len() - 1 ==> frames[i].sar == SegmentationAndReassembly::Continuation
            && frames[i].payload.len() == mps) by {
            assert(frames[i] == later[i - 1]);
        }
        assert(frames.last() == later.last());
    }
}

/// The payloads of frames one after the other.
pub open spec fn payloads(frames: Seq<PendingFrameV>) -> Seq<u8>
    decreases frames.len(),
{
    if frames.len() == 0 {
        seq![]
    } else {
        frames[0].payload + payloads(frames.drop_first())
    }
}

proof fn lemma_later_segments(rest: Seq<u8>, mps: int, tx_seq: u8)
    requires
        mps > 0,
        tx_seq < 64,
    ensures
        ({
            let frames = later_segments(rest, mps, tx_seq);
            &&& frames.len() > 0
            &&& payloads(frames) == rest
            &&& frames.last().sar == SegmentationAndReassembly::End
            &&& forall|i: int|
                0 <= i < frames.len() ==> (#[trigger] frames[i]).payload.len() <= mps
                    && frames[i].tx_seq == (tx_seq + i) % 64 && frames[i].sdu_length is None && (i
                    < frames.len() - 1 ==> frames[i].sar
                    == SegmentationAndReassembly::Continuation && frames[i].payload.len() == mps)
        }),
    decreases rest.len(),
{
    reveal(seq_add);
    let frames = later_segments(rest, mps, tx_seq);
    if rest.len() <= mps {
        reveal_with_fuel(payloads, 2);
        assert(frames.drop_first() =~= Seq::<PendingFrameV>::empty());
        assert(payloads(frames) =~= rest);
    } else {
        let next = later_segments(rest.skip(mps), mps, seq_add(tx_seq, 1));
        lemma_later_segments(rest.skip(mps), mps, seq_add(tx_seq, 1));
        assert(frames.drop_first() =~= next);
        assert(rest.take(mps) + rest.skip(mps) =~= rest);
        assert(frames.last() == next.last());
        assert forall|i: int| 0 <= i < frames.len() implies (#[trigger] frames[i]).payload.len()
            <= mps && frames[i].tx_seq == (tx_seq + i) % 64 && frames[i].sdu_length is None && (i
            < frames.len() - 1 ==> frames[i].sar == SegmentationAndReassembly::Continuation
            && frames[i].payload.len() == mps) by {
            if i > 0 {
                assert(frames[i] == next[i - 1]);
            }
        }
    }
}

/// How many frames a frame of the peer confirms: those from the oldest
/// unconfirmed one up to the number that the peer expects next.
pub open spec fn confirmed(engine: ErtmEngineV, frame: Seq<u8>) -> int {
    (frame[1] % 64 - engine.last_acked_tx_seq) % 64
}

/// A number that the peer cannot expect yet, since no such frame was sent, is
/// refused, and changes nothing.
pub proof fn impossible_acknowledgment_is_refused(engine: ErtmEngineV, frame: Seq<u8>)
    requires
        engine.sound(),
        !engine.failed,
        frame.len() >= 2,
        confirmed(engine, frame) > engine.tx_window.len(),
    ensures
        engine.frame_received(frame).0 == engine,
        engine.frame_received(frame).1 is Err,
{
    reveal(ErtmEngineV::frame_received);
}

/// Any frame of the peer that is accepted, whatever else it says, takes exactly
/// the frames that it confirms out of the window, the oldest first; frames that
/// still wait follow them in order, never more than the window holds.
pub proof fn accepted_frame_confirms(engine: ErtmEngineV, frame: Seq<u8>)
    requires
        engine.sound(),
        frame.len() >= 2,
        engine.frame_received(frame).1 is Ok,
    ensures
        ({
            let after = engine.frame_received(frame).0;
            let count = confirmed(engine, frame);
            let kept = engine.tx_window.len() - count;
            let moved = engine.pending.len() - after.pending.len();
            &&& 0 <= count <= engine.tx_window.len()
            &&& after.last_acked_tx_seq == frame[1] % 64
            &&& after.tx_window.len() == kept + moved
            &&& after.tx_window.len() <= engine.config.tx_window_size
            &&& forall|i: int|
                0 <= i < kept ==> (#[trigger] after.tx_window[i]).frame == engine.tx_window[count
                    + i].frame
            &&& forall|i: int|
                0 <= i < moved ==> (#[trigger] after.tx_window[kept + i]).frame
                    == engine.pending[i]
            &&& after.pending == engine.pending.skip(moved)
            &&& !after.remote_busy && !(is_information(frame) && (engine.local_busy || frame[0] / 2
                % 64 != engine.expected_tx_seq)) ==> after.pending.len() == 0
                || after.tx_window.len() == engine.config.tx_window_size
        }),
{
    receiving_keeps_engine_sound(engine, frame);
    reveal(ErtmEngineV::frame_received);
    let field = EnhancedControlField::decode(frame)->Ok_0;
    let number = field.spec_req_seq();
    let (told, acked) = engine.acknowledged(number);
    let count = confirmed(engine, frame);
    assert(number == frame[1] % 64);
    lemma_told(engine, number);
    match field {
        EnhancedControlField::Information { tx_seq, final_bit, sar, .. } => {
            lemma_information_window(told, tx_seq, final_bit, sar, frame.skip(2));
        },
        EnhancedControlField::Supervisory { function, poll, final_bit, req_seq } => {
            lemma_supervisory_window(told, function, poll, final_bit, req_seq, acked->Ok_0);
        },
    }
}

/// What an acknowledgment leaves of the window.
proof fn lemma_told(engine: ErtmEngineV, number: u8)
    requires
        engine.sound(),
        number < 64,
        engine.acknowledged(number).1 is Ok,
    ensures
        ({
            let told = engine.acknowledged(number).0;
            let count = (number - engine.last_acked_tx_seq) % 64;
            &&& 0 <= count <= engine.tx_window.len()
            &&& told.tx_window == engine.tx_window.skip(count)
            &&& told.last_acked_tx_seq == number
            &&& told == (ErtmEngineV {
                tx_window: told.tx_window,
                last_acked_tx_seq: number,
                retransmission_deadline: told.retransmission_deadline,
                ..engine
            })
        }),
{
    let told = engine.acknowledged(number).0;
    let count = (number - engine.last_acked_tx_seq) % 64;
    lemma_seq_distance(engine.last_acked_tx_seq, number);
    lemma_seq_add(engine.last_acked_tx_seq, 0, 0);
    if count == 0 {
        assert(told.tx_window =~= engine.tx_window.skip(0));
    }
}

/// Whether an engine has moved waiting frames into the window, in order, and kept
/// the frames that were in it.
spec fn moved_on(before: ErtmEngineV, after: ErtmEngineV) -> bool {
    let moved = before.pending.len() - after.pending.len();
    let kept = before.tx_window.len() as int;
    &&& 0 <= moved
    &&& after.tx_window.len() == kept + moved
    &&& forall|i: int|
        0 <= i < kept ==> (#[trigger] after.tx_window[i]).frame == before.tx_window[i].frame
    &&& forall|i: int|
        0 <= i < moved ==> (#[trigger] after.tx_window[kept + i]).frame == before.pending[i]
    &&& after.pending == before.pending.skip(moved)
    &&& after.last_acked_tx_seq == before.last_acked_tx_seq
    &&& after.config == before.config
}

proof fn lemma_output_window(engine: ErtmEngineV)
    ensures
        moved_on(engine, engine.output_processed()),
        engine.output_processed().remote_busy == engine.remote_busy,
        !engine.remote_busy ==> engine.output_processed().pending.len() == 0
            || engine.output_processed().tx_window.len() >= engine.config.tx_window_size,
{
    let after = engine.output_processed();
    if engine.remote_busy {
        assert(engine.pending =~= engine.pending.skip(0));
    } else {
        let n = engine.sendable();
        assert forall|i: int| 0 <= i < n implies (#[trigger] after.tx_window[
            engine.tx_window.len() + i
        ]).frame == engine.pending[i] by {
            assert(engine.pending.take(n)[i] == engine.pending[i]);
        }
    }
}

proof fn lemma_information_window(
    told: ErtmEngineV,
    tx_seq: u8,
    final_bit: bool,
    sar: SegmentationAndReassembly,
    payload: Seq<u8>,
)
    requires
        told.information_received(tx_seq, final_bit, sar, payload).1 is Ok,
    ensures
        ({
            let after = told.information_received(tx_seq, final_bit, sar, payload).0;
            &&& moved_on(told, after)
            &&& after.remote_busy == told.remote_busy
            &&& !told.local_busy && tx_seq == told.expected_tx_seq && !told.remote_busy
                ==> after.pending.len() == 0 || after.tx_window.len()
                >= told.config.tx_window_size
        }),
{
    let after = told.information_received(tx_seq, final_bit, sar, payload).0;
    if !told.local_busy && tx_seq == told.expected_tx_seq {
        let advanced = ErtmEngineV { expected_tx_seq: seq_add(told.expected_tx_seq, 1), ..told };
        let accepted = advanced.information_accepted(sar, payload).0;
        assert(accepted.pending == told.pending && accepted.tx_window == told.tx_window);
        lemma_output_window(accepted);
        let sent = accepted.output_processed();
        assert(after.tx_window == sent.tx_window && after.pending == sent.pending);
        assert(moved_on(told, sent));
    } else {
        assert(told.pending =~= told.pending.skip(0));
    }
}

proof fn lemma_answered_window(
    told: ErtmEngineV,
    function: SupervisoryFunction,
    final_bit: bool,
    req_seq: u8,
    acked: bool,
)
    ensures
        ({
            let after = told.supervision_answered(function, final_bit, req_seq, acked).0;
            &&& after.pending == told.pending
            &&& after.tx_window.len() == told.tx_window.len()
            &&& forall|i: int|
                0 <= i < told.tx_window.len() ==> (#[trigger] after.tx_window[i]).frame
                    == told.tx_window[i].frame
            &&& after.last_acked_tx_seq == told.last_acked_tx_seq
            &&& after.config == told.config
            &&& after.remote_busy == told.remote_busy
            &&& after.local_busy == told.local_busy
            &&& after.expected_tx_seq == told.expected_tx_seq
        }),
{
    lemma_window_position(told.tx_window, req_seq);
}

proof fn lemma_supervisory_window(
    told: ErtmEngineV,
    function: SupervisoryFunction,
    poll: bool,
    final_bit: bool,
    req_seq: u8,
    acked: bool,
)
    requires
        told.supervisory_received(function, poll, final_bit, req_seq, acked).1 is Ok,
    ensures
        ({
            let after = told.supervisory_received(function, poll, final_bit, req_seq, acked).0;
            &&& moved_on(told, after)
            &&& !after.remote_busy ==> after.pending.len() == 0 || after.tx_window.len()
                >= told.config.tx_window_size
        }),
{
    let listening = ErtmEngineV {
        remote_busy: function == SupervisoryFunction::ReceiverNotReady,
        ..told
    };
    lemma_answered_window(listening, function, final_bit, req_seq, acked);
    let answered = listening.supervision_answered(function, final_bit, req_seq, acked).0;
    let ready = if poll {
        answered.supervised(answered.readiness(), false, true)
    } else {
        answered
    };
    lemma_output_window(ready);
    let after = told.supervisory_received(function, poll, final_bit, req_seq, acked).0;
    assert(after == ready.output_processed());
    assert(moved_on(told, after));
}

/// The frames as they are sent, each telling the number expected next.
pub open spec fn with_number(frames: Seq<PendingFrameV>, req_seq: u8) -> Seq<Seq<u8>> {
    frames.map_values(|frame: PendingFrameV| frame.encode(req_seq))
}

/// The frames of a window.
pub open spec fn frames_of(window: Seq<TransmittedFrameV>) -> Seq<PendingFrameV> {
    window.map_values(|sent: TransmittedFrameV| sent.frame)
}

proof fn lemma_output_frames(engine: ErtmEngineV)
    ensures
        ({
            let after = engine.output_processed();
            let moved = engine.pending.len() - after.pending.len();
            &&& 0 <= moved <= engine.pending.len()
            &&& after.outbound == engine.outbound + with_number(
                engine.pending.take(moved),
                engine.expected_tx_seq,
            )
            &&& after.expected_tx_seq == engine.expected_tx_seq
            &&& after.local_busy == engine.local_busy
            &&& after.remote_busy == engine.remote_busy
            &&& after.received == engine.received
            &&& after.last_acked_rx_seq == if moved > 0 {
                engine.expected_tx_seq
            } else {
                engine.last_acked_rx_seq
            }
        }),
{
    let after = engine.output_processed();
    if engine.remote_busy {
        assert(engine.pending.take(0) =~= Seq::<PendingFrameV>::empty());
        assert(with_number(engine.pending.take(0), engine.expected_tx_seq) =~= seq![]);
        assert(after.outbound =~= engine.outbound + with_number(
            engine.pending.take(0),
            engine.expected_tx_seq,
        ));
    } else {
        let n = engine.sendable();
        assert(after.pending.len() == engine.pending.len() - n);
        assert(after.outbound =~= engine.outbound + with_number(
            engine.pending.take(n),
            engine.expected_tx_seq,
        ));
    }
}

/// What a supervisory frame makes an engine send again, once its acknowledgment
/// is taken in: all that is unconfirmed for a reject, the frame asked for, which
/// is the oldest, for a selective reject, and all for the answer to a poll that
/// confirms nothing, unless the peer is not ready.
pub open spec fn repeated_for(engine: ErtmEngineV, frame: Seq<u8>) -> Seq<PendingFrameV> {
    let kept = frames_of(engine.tx_window).skip(confirmed(engine, frame));
    let function = frame[0] / 4 % 4;
    if function == 1 {
        kept
    } else if function == 3 {
        kept.take(1)
    } else if function == 0 && frame[0] >= 128 && confirmed(engine, frame) == 0 {
        kept
    } else {
        seq![]
    }
}

/// A supervisory frame that is accepted is answered by what it asks to be sent
/// again; then, where it polls, by exactly one supervisory frame with the final
/// bit, which says whether this end is ready and which number it expects; then by
/// the waiting frames that may go out now. Nothing is answered to a frame that
/// asks for nothing. The peer is taken to be busy exactly after it said that it is
/// not ready.
#[verifier::spinoff_prover]
pub proof fn supervisory_frame_is_answered(engine: ErtmEngineV, frame: Seq<u8>)
    requires
        engine.sound(),
        is_supervisory(frame),
        engine.frame_received(frame).1 is Ok,
    ensures
        ({
            let after = engine.frame_received(frame).0;
            let moved = engine.pending.len() - after.pending.len();
            let answer = if polls(frame) {
                seq![
                    supervisory_bytes(
                        if engine.local_busy {
                            2
                        } else {
                            0
                        },
                        false,
                        true,
                        engine.expected_tx_seq,
                    ),
                ]
            } else {
                seq![]
            };
            &&& 0 <= moved <= engine.pending.len()
            &&& after.outbound == engine.outbound + with_number(
                repeated_for(engine, frame),
                engine.expected_tx_seq,
            ) + answer + with_number(engine.pending.take(moved), engine.expected_tx_seq)
            &&& after.remote_busy == (frame[0] / 4 % 4 == 2)
            &&& after.remote_busy ==> moved == 0
            &&& after.received == engine.received
            &&& after.expected_tx_seq == engine.expected_tx_seq
            &&& after.local_busy == engine.local_busy
        }),
{
    reveal(ErtmEngineV::frame_received);
    let field = EnhancedControlField::decode(frame)->Ok_0;
    let number = (frame[1] % 64) as u8;
    let (told, acked) = engine.acknowledged(number);
    lemma_told(engine, number);
    lemma_told_sound(engine, number);
    let count = confirmed(engine, frame);
    let function = field->function;
    let poll = polls(frame);
    let final_bit = frame[0] >= 128;
    assert(field == EnhancedControlField::Supervisory {
        function,
        poll,
        final_bit,
        req_seq: number,
    });
    assert(acked == Ok::<bool, Seq<char>>(count != 0));
    assert(frames_of(engine.tx_window).skip(count) =~= frames_of(told.tx_window));
    lemma_supervisory_frames(told, function, poll, final_bit, number, count != 0);
    assert(repeated_for(engine, frame) == repetition(told, function, final_bit, count != 0));
}

/// The frames that a supervisory frame brings out.
#[verifier::spinoff_prover]
proof fn lemma_supervisory_frames(
    told: ErtmEngineV,
    function: SupervisoryFunction,
    poll: bool,
    final_bit: bool,
    number: u8,
    acked: bool,
)
    requires
        told.sound(),
        told.last_acked_tx_seq == number,
        told.supervisory_received(function, poll, final_bit, number, acked).1 is Ok,
    ensures
        ({
            let after = told.supervisory_received(function, poll, final_bit, number, acked).0;
            let moved = told.pending.len() - after.pending.len();
            &&& 0 <= moved <= told.pending.len()
            &&& after.outbound == told.outbound + with_number(
                repetition(told, function, final_bit, acked),
                told.expected_tx_seq,
            ) + poll_answer(told, poll) + with_number(
                told.pending.take(moved),
                told.expected_tx_seq,
            )
            &&& after.remote_busy == (function == SupervisoryFunction::ReceiverNotReady)
            &&& after.remote_busy ==> moved == 0
            &&& after.received == told.received
            &&& after.expected_tx_seq == told.expected_tx_seq
            &&& after.local_busy == told.local_busy
        }),
{
    let listening = ErtmEngineV {
        remote_busy: function == SupervisoryFunction::ReceiverNotReady,
        ..told
    };
    lemma_repetition(listening, function, final_bit, number, acked);
    lemma_answered_window(listening, function, final_bit, number, acked);
    let answered = listening.supervision_answered(function, final_bit, number, acked).0;
    let ready = if poll {
        answered.supervised(answered.readiness(), false, true)
    } else {
        answered
    };
    lemma_output_frames(ready);
    let after = told.supervisory_received(function, poll, final_bit, number, acked).0;
    assert(after == ready.output_processed());
    assert(ready.pending == told.pending);
    assert(answered.expected_tx_seq == told.expected_tx_seq && told.expected_tx_seq < 64);
    assert(ready.outbound =~= answered.outbound + poll_answer(told, poll));
}

/// What answers a poll.
spec fn poll_answer(engine: ErtmEngineV, poll: bool) -> Seq<Seq<u8>> {
    if poll {
        seq![
            supervisory_bytes(
                if engine.local_busy {
                    2
                } else {
                    0
                },
                false,
                true,
                engine.expected_tx_seq,
            ),
        ]
    } else {
        seq![]
    }
}

proof fn lemma_told_sound(engine: ErtmEngineV, number: u8)
    requires
        engine.sound(),
    ensures
        engine.acknowledged(number).0.sound(),
{
    super::ertm_laws::lemma_acknowledged_sound(engine, number);
}

/// What an engine sends again for a supervisory frame.
spec fn repetition(
    engine: ErtmEngineV,
    function: SupervisoryFunction,
    final_bit: bool,
    acked: bool,
) -> Seq<PendingFrameV> {
    let kept = frames_of(engine.tx_window);
    match function {
        SupervisoryFunction::Reject => kept,
        SupervisoryFunction::SelectiveReject => kept.take(1),
        SupervisoryFunction::ReceiverReady => if final_bit && !acked {
            kept
        } else {
            seq![]
        },
        SupervisoryFunction::ReceiverNotReady => seq![],
    }
}

proof fn lemma_repetition(
    engine: ErtmEngineV,
    function: SupervisoryFunction,
    final_bit: bool,
    req_seq: u8,
    acked: bool,
)
    requires
        engine.sound(),
        engine.last_acked_tx_seq == req_seq,
        engine.remote_busy == (function == SupervisoryFunction::ReceiverNotReady),
        engine.supervision_answered(function, final_bit, req_seq, acked).1 is Ok,
    ensures
        ({
            let after = engine.supervision_answered(function, final_bit, req_seq, acked).0;
            &&& after.outbound == engine.outbound + with_number(
                repetition(engine, function, final_bit, acked),
                engine.expected_tx_seq,
            )
            &&& after.received == engine.received
        }),
{
    let after = engine.supervision_answered(function, final_bit, req_seq, acked).0;
    let repeated = repetition(engine, function, final_bit, acked);
    let frames = with_number(repeated, engine.expected_tx_seq);
    lemma_seq_add(engine.last_acked_tx_seq, 0, 0);
    match function {
        SupervisoryFunction::SelectiveReject => {
            assert(engine.tx_window.len() > 0);
            assert(engine.tx_window[0].frame.tx_seq == req_seq);
            assert(window_position(engine.tx_window, req_seq) == Some(0int));
            assert(frames =~= seq![engine.tx_window[0].frame.encode(engine.expected_tx_seq)]);
            assert(after.outbound =~= engine.outbound + frames);
        },
        _ => {
            assert(after.outbound =~= engine.outbound + frames);
        },
    }
}

/// An information frame that comes while this end is busy is answered by
/// "receiver not ready", and one that is not the next in sequence by a reject;
/// both name the number that this end expects, and nothing is taken in. The next
/// one in sequence moves that number on by one, and is confirmed by the waiting
/// frames that go out now, or else by "receiver ready".
pub proof fn information_frame_is_answered(engine: ErtmEngineV, frame: Seq<u8>)
    requires
        engine.sound(),
        is_information(frame),
        engine.frame_received(frame).1 is Ok,
    ensures
        ({
            let after = engine.frame_received(frame).0;
            let last = frame[0] >= 128;
            let next = ((engine.expected_tx_seq + 1) % 64) as u8;
            let moved = engine.pending.len() - after.pending.len();
            if engine.local_busy {
                &&& after.outbound == engine.outbound.push(
                    supervisory_bytes(2, false, last, engine.expected_tx_seq),
                )
                &&& after.expected_tx_seq == engine.expected_tx_seq
                &&& after.received == engine.received
                &&& moved == 0
            } else if frame[0] / 2 % 64 != engine.expected_tx_seq {
                &&& after.outbound == engine.outbound.push(
                    supervisory_bytes(1, false, last, engine.expected_tx_seq),
                )
                &&& after.expected_tx_seq == engine.expected_tx_seq
                &&& after.received == engine.received
                &&& moved == 0
            } else {
                &&& after.expected_tx_seq == next
                &&& moved > 0 ==> after.outbound == engine.outbound + with_number(
                    engine.pending.take(moved),
                    next,
                )
                &&& moved == 0 && engine.last_acked_rx_seq != next ==> after.outbound
                    == engine.outbound.push(supervisory_bytes(0, false, last, next))
                &&& moved >= 0
            }
        }),
{
    reveal(ErtmEngineV::frame_received);
    reveal(seq_add);
    let field = EnhancedControlField::decode(frame)->Ok_0;
    let number = field.spec_req_seq();
    let told = engine.acknowledged(number).0;
    lemma_told(engine, number);
    let tx_seq = field->tx_seq;
    let sar = field->sar;
    let final_bit = field->Information_final_bit;
    let after = engine.frame_received(frame).0;
    if !told.local_busy && tx_seq == told.expected_tx_seq {
        let advanced = ErtmEngineV { expected_tx_seq: seq_add(told.expected_tx_seq, 1), ..told };
        let accepted = advanced.information_accepted(sar, frame.skip(2)).0;
        assert(accepted.pending == told.pending && accepted.outbound == told.outbound
            && accepted.last_acked_rx_seq == told.last_acked_rx_seq && accepted.expected_tx_seq
            == advanced.expected_tx_seq);
        lemma_output_frames(accepted);
        let sent = accepted.output_processed();
        let moved = engine.pending.len() - sent.pending.len();
        if moved == 0 {
            assert(sent.outbound =~= engine.outbound);
        }
    }
}

/// An end that becomes busy says that it is not ready, one that is free again
/// that it is, each with the number that it expects and neither polling nor
/// answering a poll. Nothing is said where nothing changes.
pub proof fn busy_state_is_told(engine: ErtmEngineV, busy: bool)
    requires
        engine.sound(),
        !engine.failed,
    ensures
        engine.busy_set(busy).1 is Ok,
        engine.busy_set(busy).0.local_busy == busy,
        engine.busy_set(busy).0.outbound == if busy == engine.local_busy {
            engine.outbound
        } else {
            engine.outbound.push(
                supervisory_bytes(
                    if busy {
                        2
                    } else {
                        0
                    },
                    false,
                    false,
                    engine.expected_tx_seq,
                ),
            )
        },
{
}

/// A busy peer gets nothing new: what is sent while it is busy waits, and goes
/// out, in order and as far as the window lets it, once the peer is ready.
pub proof fn busy_peer_gets_nothing(engine: ErtmEngineV, sdu: Seq<u8>, ticks: u32)
    requires
        engine.sound(),
        !engine.failed,
        engine.remote_busy,
        sdu.len() <= engine.config.peer_mtu,
    ensures
        engine.sdu_sent(sdu).1 is Ok,
        engine.sdu_sent(sdu).0.outbound == engine.outbound,
        engine.sdu_sent(sdu).0.pending == engine.pending + segments(
            sdu,
            engine.config.peer_mps as int,
            engine.next_tx_seq,
        ),
        engine.ticked(ticks).1 is Ok,
        engine.ticked(ticks).0.outbound == engine.outbound,
{
}

/// An SDU that is larger than the peer takes is refused, and changes nothing.
pub proof fn oversized_sdu_is_refused(engine: ErtmEngineV, sdu: Seq<u8>)
    requires
        sdu.len() > engine.config.peer_mtu,
    ensures
        engine.sdu_sent(sdu).1 is Err,
        engine.sdu_sent(sdu).0 == engine,
{
}

/// A frame with nothing but its control field missing is refused, and so is a
/// segment that does not fit what came before it: one that starts an SDU in the
/// middle of another, one that continues or ends an SDU that was not started, one
/// that makes an SDU longer than it was to be, or an SDU larger than this end
/// takes. None of them delivers anything.
pub proof fn misplaced_segments_deliver_nothing(
    engine: ErtmEngineV,
    sar: SegmentationAndReassembly,
    payload: Seq<u8>,
)
    requires
        match sar {
            SegmentationAndReassembly::Unsegmented => engine.input_sdu_length is Some
                || payload.len() > engine.config.local_mtu,
            SegmentationAndReassembly::Start => engine.input_sdu_length is Some || payload.len() < 2
                || payload[0] + 256 * payload[1] > engine.config.local_mtu || payload.len() - 2
                >= payload[0] + 256 * payload[1],
            SegmentationAndReassembly::Continuation => engine.input_sdu_length is None
                || engine.input_sdu.len() + payload.len() >= engine.input_sdu_length->0,
            SegmentationAndReassembly::End => engine.input_sdu_length is None
                || engine.input_sdu.len() + payload.len() != engine.input_sdu_length->0,
        },
    ensures
        engine.information_accepted(sar, payload).1 is Err,
        engine.information_accepted(sar, payload).0.received == engine.received,
{
}

} // verus!
