//! What holds of a whole transfer in enhanced retransmission mode: any number of
//! SDUs, over any number of windows, whatever way the frames of the two ends
//! cross each other.

use vstd::prelude::*;

use super::ertm::{
    control_field_reads_back, later_segments, lemma_seq_add, segments, seq_add, seq_distance,
    transmitted, EnhancedControlField, ErtmConfig, ErtmEngineV, Outcome, PendingFrameV,
    SupervisoryFunction,
};
use super::ertm_laws::{encoded, lemma_segments_numbered};

verus! {

/// What an engine makes of the payloads of information frames in sequence, up to
/// the first that it refuses.
pub open spec fn absorbed(engine: ErtmEngineV, frames: Seq<PendingFrameV>) -> Outcome
    decreases frames.len(),
{
    if frames.len() == 0 {
        (engine, Ok(()))
    } else {
        let (next, result) = engine.information_accepted(frames[0].sar, frames[0].body());
        match result {
            Err(reason) => (next, Err(reason)),
            Ok(_) => absorbed(next, frames.skip(1)),
        }
    }
}

proof fn lemma_absorbed_concat(
    engine: ErtmEngineV,
    left: Seq<PendingFrameV>,
    right: Seq<PendingFrameV>,
)
    requires
        absorbed(engine, left).1 is Ok,
    ensures
        absorbed(engine, left + right) == absorbed(absorbed(engine, left).0, right),
    decreases left.len(),
{
    let all = left + right;
    if left.len() == 0 {
        assert(all =~= right);
    } else {
        let next = engine.information_accepted(left[0].sar, left[0].body()).0;
        assert(all[0] == left[0]);
        assert(all.skip(1) =~= left.skip(1) + right);
        lemma_absorbed_concat(next, left.skip(1), right);
    }
}

proof fn lemma_absorbed_prefix(engine: ErtmEngineV, frames: Seq<PendingFrameV>, count: int)
    requires
        absorbed(engine, frames).1 is Ok,
        0 <= count <= frames.len(),
    ensures
        absorbed(engine, frames.take(count)).1 is Ok,
    decreases frames.len(),
{
    if count > 0 {
        let part = frames.take(count);
        let next = engine.information_accepted(frames[0].sar, frames[0].body()).0;
        assert(part[0] == frames[0]);
        assert(part.skip(1) =~= frames.skip(1).take(count - 1));
        lemma_absorbed_prefix(next, frames.skip(1), count - 1);
    }
}

/// The engine that holds these SDUs more and is in the middle of nothing.
spec fn delivered(engine: ErtmEngineV, sdus: Seq<Seq<u8>>) -> ErtmEngineV {
    ErtmEngineV { received: engine.received + sdus, ..engine.input_reset() }
}

proof fn lemma_later_segments_absorbed(
    engine: ErtmEngineV,
    sdu: Seq<u8>,
    mps: int,
    start: int,
    tx_seq: u8,
)
    requires
        mps > 0,
        0 <= start < sdu.len(),
        engine.input_sdu == sdu.take(start),
        engine.input_sdu_length == Some(sdu.len() as int),
    ensures
        absorbed(engine, later_segments(sdu.skip(start), mps, tx_seq)) == (
            delivered(engine, seq![sdu]),
            Ok::<(), Seq<char>>(()),
        ),
    decreases sdu.len() - start,
{
    let rest = sdu.skip(start);
    let frames = later_segments(rest, mps, tx_seq);
    let next = engine.information_accepted(frames[0].sar, frames[0].body()).0;
    if rest.len() <= mps {
        assert(sdu.take(start) + rest =~= sdu);
        assert(frames.skip(1) =~= Seq::<PendingFrameV>::empty());
        assert(engine.received.push(sdu) =~= engine.received + seq![sdu]);
        assert(absorbed(next, frames.skip(1)) == (next, Ok::<(), Seq<char>>(())));
    } else {
        assert(sdu.take(start) + rest.take(mps) =~= sdu.take(start + mps));
        assert(rest.skip(mps) =~= sdu.skip(start + mps));
        lemma_later_segments_absorbed(next, sdu, mps, start + mps, seq_add(tx_seq, 1));
        assert(frames.skip(1) =~= later_segments(rest.skip(mps), mps, seq_add(tx_seq, 1)));
        assert(delivered(next, seq![sdu]) == delivered(engine, seq![sdu]));
    }
}

proof fn lemma_segments_absorbed(engine: ErtmEngineV, sdu: Seq<u8>, mps: int, tx_seq: u8)
    requires
        mps > 0,
        engine.input_idle(),
        sdu.len() <= engine.config.local_mtu,
    ensures
        absorbed(engine, segments(sdu, mps, tx_seq)) == (
            delivered(engine, seq![sdu]),
            Ok::<(), Seq<char>>(()),
        ),
{
    let frames = segments(sdu, mps, tx_seq);
    let next = engine.information_accepted(frames[0].sar, frames[0].body()).0;
    assert(engine.input_sdu =~= seq![]);
    assert(engine.received.push(sdu) =~= engine.received + seq![sdu]);
    if sdu.len() <= mps {
        assert(frames.skip(1) =~= Seq::<PendingFrameV>::empty());
        assert(absorbed(next, frames.skip(1)) == (next, Ok::<(), Seq<char>>(())));
    } else {
        assert(frames[0].body().skip(2) =~= sdu.take(mps));
        lemma_later_segments_absorbed(next, sdu, mps, mps, seq_add(tx_seq, 1));
        assert(frames.skip(1) =~= later_segments(sdu.skip(mps), mps, seq_add(tx_seq, 1)));
        assert(delivered(next, seq![sdu]) == delivered(engine, seq![sdu]));
    }
}

/// The frames that carry SDUs one after the other, numbered from `origin` on.
pub open spec fn stream(sdus: Seq<Seq<u8>>, mps: int, origin: u8) -> Seq<PendingFrameV>
    decreases sdus.len(),
{
    if sdus.len() == 0 {
        seq![]
    } else {
        let before = stream(sdus.drop_last(), mps, origin);
        before + segments(sdus.last(), mps, seq_add(origin, before.len() as int))
    }
}

proof fn lemma_stream_numbered(sdus: Seq<Seq<u8>>, mps: int, origin: u8)
    ensures
        forall|i: int|
            0 <= i < stream(sdus, mps, origin).len() ==> (#[trigger] stream(sdus, mps, origin)[i]).tx_seq
                == seq_add(origin, i),
    decreases sdus.len(),
{
    if sdus.len() > 0 {
        lemma_stream_numbered(sdus.drop_last(), mps, origin);
        let before = stream(sdus.drop_last(), mps, origin);
        let number = seq_add(origin, before.len() as int);
        lemma_seq_add(origin, before.len() as int, 0);
        lemma_segments_numbered(sdus.last(), mps, number);
        let all = stream(sdus, mps, origin);
        assert forall|i: int| 0 <= i < all.len() implies (#[trigger] all[i]).tx_seq == seq_add(
            origin,
            i,
        ) by {
            if i >= before.len() {
                lemma_seq_add(origin, before.len() as int, i - before.len());
                assert(all[i] == segments(sdus.last(), mps, number)[i - before.len()]);
            } else {
                assert(all[i] == before[i]);
            }
        }
    }
}

proof fn lemma_stream_absorbed(engine: ErtmEngineV, sdus: Seq<Seq<u8>>, mps: int, origin: u8)
    requires
        mps > 0,
        engine.input_idle(),
        forall|i: int| 0 <= i < sdus.len() ==> (#[trigger] sdus[i]).len() <= engine.config.local_mtu,
    ensures
        absorbed(engine, stream(sdus, mps, origin)) == (
            delivered(engine, sdus),
            Ok::<(), Seq<char>>(()),
        ),
    decreases sdus.len(),
{
    if sdus.len() == 0 {
        assert(engine.input_sdu =~= seq![]);
        assert(engine.received + sdus =~= engine.received);
    } else {
        let earlier = sdus.drop_last();
        let before = stream(earlier, mps, origin);
        assert forall|i: int| 0 <= i < earlier.len() implies (#[trigger] earlier[i]).len()
            <= engine.config.local_mtu by {
            assert(earlier[i] == sdus[i]);
        }
        lemma_stream_absorbed(engine, earlier, mps, origin);
        let middle = delivered(engine, earlier);
        let number = seq_add(origin, before.len() as int);
        lemma_absorbed_concat(engine, before, segments(sdus.last(), mps, number));
        lemma_segments_absorbed(middle, sdus.last(), mps, number);
        assert((engine.received + earlier) + seq![sdus.last()] =~= engine.received + sdus);
    }
}

/// Where a transfer starts from: the number of the sender's first frame, that of
/// the receiver's, and the SDUs that the receiver held before.
pub struct LinkV {
    pub origin: u8,
    pub back: u8,
    pub held: Seq<Seq<u8>>,
}

impl LinkV {
    /// An engine that has taken in what the receiver held before, and no more.
    pub open spec fn fresh(self, config: ErtmConfig) -> ErtmEngineV {
        ErtmEngineV { received: self.held, ..ErtmEngineV::initial(config) }
    }
}

/// The acknowledgments of a receiver that got `taken` frames, for a sender that
/// has seen `acked` of them: one for each frame.
pub open spec fn acknowledgments(link: LinkV, acked: int, taken: int) -> Seq<Seq<u8>> {
    Seq::new(
        (taken - acked) as nat,
        |i: int|
            EnhancedControlField::Supervisory {
                function: SupervisoryFunction::ReceiverReady,
                poll: false,
                final_bit: false,
                req_seq: seq_add(link.origin, acked + 1 + i),
            }.bytes(),
    )
}

/// The sender's side of a transfer: of a stream of frames, the first `acked` are
/// acknowledged, those up to `sent` are sent and those from `taken` on are still
/// on their way. As many are sent as the window lets go.
pub open spec fn sends(
    link: LinkV,
    sender: ErtmEngineV,
    frames: Seq<PendingFrameV>,
    acked: int,
    taken: int,
    sent: int,
) -> bool {
    &&& 0 <= acked <= taken <= sent <= frames.len()
    &&& sender.config.checked() is Ok
    &&& !sender.failed
    &&& !sender.remote_busy
    &&& !sender.local_busy
    &&& sender.input_idle()
    &&& sender.expected_tx_seq == link.back
    &&& sender.last_acked_rx_seq == link.back
    &&& sender.next_tx_seq == seq_add(link.origin, frames.len() as int)
    &&& sender.last_acked_tx_seq == seq_add(link.origin, acked)
    &&& sender.pending == frames.skip(sent)
    &&& sender.tx_window == frames.subrange(acked, sent).map_values(
        |frame: PendingFrameV| transmitted(frame),
    )
    &&& sender.outbound == encoded(frames.subrange(taken, sent), link.back)
    &&& sent - acked <= sender.config.tx_window_size
    &&& sent - acked == sender.config.tx_window_size || sent == frames.len()
}

/// The receiver's side of a transfer: the first `taken` frames of a stream came,
/// each was acknowledged, and the acknowledgments from `acked` on are still on
/// their way.
pub open spec fn receives(
    link: LinkV,
    receiver: ErtmEngineV,
    frames: Seq<PendingFrameV>,
    acked: int,
    taken: int,
) -> bool {
    let (model, result) = absorbed(link.fresh(receiver.config), frames.take(taken));
    &&& receiver.config.checked() is Ok
    &&& !receiver.failed
    &&& !receiver.local_busy
    &&& !receiver.remote_busy
    &&& receiver.pending.len() == 0
    &&& receiver.tx_window.len() == 0
    &&& link.back < 64
    &&& receiver.last_acked_tx_seq == link.back
    &&& receiver.next_tx_seq == link.back
    &&& receiver.expected_tx_seq == seq_add(link.origin, taken)
    &&& receiver.last_acked_rx_seq == seq_add(link.origin, taken)
    &&& receiver.outbound == acknowledgments(link, acked, taken)
    &&& result is Ok
    &&& receiver.received == model.received
    &&& receiver.input_sdu == model.input_sdu
    &&& receiver.input_sdu_length == model.input_sdu_length
}

/// Whether two ends are in the middle of the transfer of these SDUs, with nothing
/// lost on the way.
pub open spec fn in_step(
    link: LinkV,
    sender: ErtmEngineV,
    receiver: ErtmEngineV,
    sdus: Seq<Seq<u8>>,
) -> bool {
    let frames = stream(sdus, sender.config.peer_mps as int, link.origin);
    let sent = frames.len() - sender.pending.len();
    let acked = sent - sender.tx_window.len();
    let taken = sent - sender.outbound.len();
    &&& sends(link, sender, frames, acked, taken, sent)
    &&& receives(link, receiver, frames, acked, taken)
    &&& sender.config.peer_mtu <= receiver.config.local_mtu
    &&& forall|i: int| 0 <= i < sdus.len() ==> (#[trigger] sdus[i]).len() <= sender.config.peer_mtu
}

/// Sending as much as the window lets go.
proof fn lemma_output_sends(
    link: LinkV,
    sender: ErtmEngineV,
    frames: Seq<PendingFrameV>,
    acked: int,
    taken: int,
    sent: int,
)
    requires
        0 <= acked <= taken <= sent <= frames.len(),
        sender.config.checked() is Ok,
        !sender.failed,
        !sender.remote_busy,
        !sender.local_busy,
        sender.input_idle(),
        sender.expected_tx_seq == link.back,
        sender.last_acked_rx_seq == link.back,
        sender.next_tx_seq == seq_add(link.origin, frames.len() as int),
        sender.last_acked_tx_seq == seq_add(link.origin, acked),
        sender.pending == frames.skip(sent),
        sender.tx_window == frames.subrange(acked, sent).map_values(
            |frame: PendingFrameV| transmitted(frame),
        ),
        sender.outbound == encoded(frames.subrange(taken, sent), link.back),
        sent - acked <= sender.config.tx_window_size,
    ensures
        sends(link, sender.output_processed(), frames, acked, taken, sent + sender.sendable()),
        sender.output_processed().config == sender.config,
{
    let count = sender.sendable();
    let after = sender.output_processed();
    let moved = sender.pending.take(count);
    assert(moved =~= frames.subrange(sent, sent + count));
    assert(after.pending =~= frames.skip(sent + count));
    assert(after.tx_window =~= frames.subrange(acked, sent + count).map_values(
        |frame: PendingFrameV| transmitted(frame),
    ));
    assert(after.outbound =~= encoded(frames.subrange(taken, sent + count), link.back));
}

/// What a transfer says of itself is what its sender's queues say.
proof fn lemma_in_step(
    link: LinkV,
    sender: ErtmEngineV,
    receiver: ErtmEngineV,
    sdus: Seq<Seq<u8>>,
    acked: int,
    taken: int,
    sent: int,
)
    requires
        sends(link, sender, stream(sdus, sender.config.peer_mps as int, link.origin), acked, taken, sent),
        receives(link, receiver, stream(sdus, sender.config.peer_mps as int, link.origin), acked, taken),
        sender.config.peer_mtu <= receiver.config.local_mtu,
        forall|i: int|
            0 <= i < sdus.len() ==> (#[trigger] sdus[i]).len() <= sender.config.peer_mtu,
    ensures
        in_step(link, sender, receiver, sdus),
{
    let frames = stream(sdus, sender.config.peer_mps as int, link.origin);
    assert(sender.pending.len() == frames.len() - sent);
    assert(sender.tx_window.len() == sent - acked);
    assert(sender.outbound.len() == sent - taken);
}

/// Whether nothing is under way between two ends, and each expects the number
/// that the other will use next.
pub open spec fn at_rest(one: ErtmEngineV, two: ErtmEngineV) -> bool {
    &&& idle(one)
    &&& idle(two)
    &&& one.expected_tx_seq == two.next_tx_seq
    &&& two.expected_tx_seq == one.next_tx_seq
}

/// Whether an engine is free and has nothing to send.
pub open spec fn idle(engine: ErtmEngineV) -> bool {
    &&& engine.config.checked() is Ok
    &&& !engine.failed
    &&& !engine.local_busy
    &&& !engine.remote_busy
    &&& engine.pending.len() == 0
    &&& engine.tx_window.len() == 0
    &&& engine.outbound.len() == 0
    &&& engine.input_idle()
    &&& engine.next_tx_seq < 64
    &&& engine.last_acked_tx_seq == engine.next_tx_seq
    &&& engine.last_acked_rx_seq == engine.expected_tx_seq
}

/// Where a transfer between two ends at rest starts from.
pub open spec fn link_of(sender: ErtmEngineV, receiver: ErtmEngineV) -> LinkV {
    LinkV { origin: sender.next_tx_seq, back: receiver.next_tx_seq, held: receiver.received }
}

/// New ends are at rest.
pub proof fn new_ends_are_at_rest(one: ErtmConfig, two: ErtmConfig)
    requires
        one.checked() is Ok,
        two.checked() is Ok,
    ensures
        at_rest(ErtmEngineV::initial(one), ErtmEngineV::initial(two)),
{
}

/// Two ends at rest can begin a transfer, where the one takes SDUs as large as
/// the other sends them.
pub proof fn ends_at_rest_are_in_step(sender: ErtmEngineV, receiver: ErtmEngineV)
    requires
        at_rest(sender, receiver),
        sender.config.peer_mtu <= receiver.config.local_mtu,
    ensures
        in_step(link_of(sender, receiver), sender, receiver, seq![]),
{
    let link = link_of(sender, receiver);
    let sdus = Seq::<Seq<u8>>::empty();
    let frames = stream(sdus, sender.config.peer_mps as int, link.origin);
    lemma_seq_add(link.origin, 0, 0);
    assert(frames =~= seq![]);
    assert(sender.pending =~= frames.skip(0));
    assert(sender.tx_window =~= frames.subrange(0, 0).map_values(
        |frame: PendingFrameV| transmitted(frame),
    ));
    assert(sender.outbound =~= encoded(frames.subrange(0, 0), link.back));
    assert(receiver.outbound =~= acknowledgments(link, 0, 0));
    assert(frames.take(0) =~= seq![]);
    assert(receiver.input_sdu =~= seq![]);
    lemma_in_step(link, sender, receiver, sdus, 0, 0, 0);
}

/// One more SDU is accepted in the middle of a transfer, and becomes part of it.
#[verifier::spinoff_prover]
pub proof fn sending_stays_in_step(
    link: LinkV,
    sender: ErtmEngineV,
    receiver: ErtmEngineV,
    sdus: Seq<Seq<u8>>,
    sdu: Seq<u8>,
)
    requires
        in_step(link, sender, receiver, sdus),
        sdu.len() <= sender.config.peer_mtu,
    ensures
        sender.sdu_sent(sdu).1 is Ok,
        in_step(link, sender.sdu_sent(sdu).0, receiver, sdus.push(sdu)),
        sender.sdu_sent(sdu).0.config == sender.config,
{
    let mps = sender.config.peer_mps as int;
    let origin = link.origin;
    let frames = stream(sdus, mps, origin);
    let sent = frames.len() - sender.pending.len();
    let acked = sent - sender.tx_window.len();
    let taken = sent - sender.outbound.len();
    let more = sdus.push(sdu);
    assert(more.drop_last() =~= sdus);
    let made = segments(sdu, mps, sender.next_tx_seq);
    let all = stream(more, mps, origin);
    assert(all == frames + made);
    lemma_seq_add(link.origin, frames.len() as int, made.len() as int);
    let queued = ErtmEngineV {
        pending: sender.pending + made,
        next_tx_seq: seq_add(sender.next_tx_seq, made.len() as int),
        ..sender
    };
    assert(queued.pending =~= all.skip(sent));
    assert(all.subrange(acked, sent) =~= frames.subrange(acked, sent));
    assert(all.subrange(taken, sent) =~= frames.subrange(taken, sent));
    lemma_output_sends(link, queued, all, acked, taken, sent);
    assert(all.take(taken) =~= frames.take(taken));
    let after = sender.sdu_sent(sdu).0;
    assert(after == queued.output_processed());
    assert forall|i: int| 0 <= i < more.len() implies (#[trigger] more[i]).len()
        <= sender.config.peer_mtu by {
        if i < sdus.len() {
            assert(more[i] == sdus[i]);
        }
    }
    lemma_in_step(link, after, receiver, more, acked, taken, sent + queued.sendable());
}

/// The same payloads make the same of what an engine has taken in.
proof fn lemma_same_intake(left: ErtmEngineV, right: ErtmEngineV, frame: PendingFrameV)
    requires
        left.config == right.config,
        left.received == right.received,
        left.input_sdu == right.input_sdu,
        left.input_sdu_length == right.input_sdu_length,
    ensures
        ({
            let (one, first) = left.information_accepted(frame.sar, frame.body());
            let (two, second) = right.information_accepted(frame.sar, frame.body());
            &&& first == second
            &&& one.received == two.received
            &&& one.input_sdu == two.input_sdu
            &&& one.input_sdu_length == two.input_sdu_length
            &&& one == (ErtmEngineV {
                received: one.received,
                input_sdu: one.input_sdu,
                input_sdu_length: one.input_sdu_length,
                ..left
            })
        }),
{
}

proof fn lemma_numbers_differ(origin: u8, count: int)
    requires
        count >= 0,
    ensures
        seq_add(origin, count) != seq_add(origin, count + 1),
        seq_add(origin, count) < 64,
        seq_distance(seq_add(origin, count), seq_add(origin, count + 1)) == 1,
{
    reveal(seq_add);
}

/// What the receiver does with the next frame.
#[verifier::spinoff_prover]
proof fn lemma_frame_taken(
    link: LinkV,
    receiver: ErtmEngineV,
    frames: Seq<PendingFrameV>,
    acked: int,
    taken: int,
)
    requires
        receives(link, receiver, frames, acked, taken),
        0 <= acked <= taken < frames.len(),
        frames[taken].tx_seq == seq_add(link.origin, taken),
        absorbed(link.fresh(receiver.config), frames.take(taken + 1)).1 is Ok,
    ensures
        receiver.frame_received(frames[taken].encode(link.back)).1 is Ok,
        receives(link, receiver.frame_received(frames[taken].encode(link.back)).0, frames, acked, taken + 1),
        receiver.frame_received(frames[taken].encode(link.back)).0.config == receiver.config,
{
    reveal(ErtmEngineV::frame_received);
    let frame = frames[taken];
    let bytes = frame.encode(link.back);
    let fresh = link.fresh(receiver.config);
    let model = absorbed(fresh, frames.take(taken)).0;
    lemma_numbers_differ(link.origin, taken);
    lemma_seq_add(link.origin, taken, 1);
    control_field_reads_back(frame.control(link.back), frame.body());
    assert(bytes.skip(2) =~= frame.body());
    assert(receiver.acknowledged(link.back) == (receiver, Ok::<bool, Seq<char>>(false)));
    let one = seq![frame];
    assert(frames.take(taken + 1) =~= frames.take(taken) + one);
    lemma_absorbed_concat(fresh, frames.take(taken), one);
    lemma_absorbed_config(fresh, frames.take(taken));
    let taken_in = model.information_accepted(frame.sar, frame.body());
    assert(one.skip(1) =~= Seq::<PendingFrameV>::empty());
    assert(absorbed(taken_in.0, one.skip(1)) == (taken_in.0, Ok::<(), Seq<char>>(())));
    assert(absorbed(fresh, frames.take(taken + 1)).0 == taken_in.0);
    let advanced = ErtmEngineV {
        expected_tx_seq: seq_add(receiver.expected_tx_seq, 1),
        ..receiver
    };
    lemma_same_intake(advanced, model, frame);
    let (accepted, result) = advanced.information_accepted(frame.sar, frame.body());
    assert(result is Ok);
    let idle = accepted.output_processed();
    assert(accepted.pending.take(0) =~= Seq::<PendingFrameV>::empty());
    assert(idle.outbound =~= receiver.outbound);
    assert(idle.pending =~= receiver.pending);
    assert(idle.tx_window =~= receiver.tx_window);
    let after = receiver.frame_received(bytes).0;
    assert(after == idle.supervised(SupervisoryFunction::ReceiverReady, false, false));
    assert(after.outbound =~= acknowledgments(link, acked, taken + 1));
}

proof fn lemma_absorbed_config(engine: ErtmEngineV, frames: Seq<PendingFrameV>)
    ensures
        absorbed(engine, frames).0.config == engine.config,
    decreases frames.len(),
{
    if frames.len() > 0 {
        let (next, result) = engine.information_accepted(frames[0].sar, frames[0].body());
        assert(next.config == engine.config);
        if result is Ok {
            lemma_absorbed_config(next, frames.skip(1));
        }
    }
}

/// The next frame of the sender is accepted, and the transfer goes on.
#[verifier::spinoff_prover]
pub proof fn frame_crosses(link: LinkV, sender: ErtmEngineV, receiver: ErtmEngineV, sdus: Seq<Seq<u8>>)
    requires
        in_step(link, sender, receiver, sdus),
        sender.outbound.len() > 0,
    ensures
        receiver.frame_received(sender.outbound[0]).1 is Ok,
        in_step(
            link,
            ErtmEngineV { outbound: sender.outbound.skip(1), ..sender },
            receiver.frame_received(sender.outbound[0]).0,
            sdus,
        ),
        receiver.frame_received(sender.outbound[0]).0.outbound.len() == receiver.outbound.len() + 1,
{
    let mps = sender.config.peer_mps as int;
    let origin = link.origin;
    let frames = stream(sdus, mps, origin);
    let sent = frames.len() - sender.pending.len();
    let acked = sent - sender.tx_window.len();
    let taken = sent - sender.outbound.len();
    let fresh = link.fresh(receiver.config);
    assert(sender.outbound[0] == frames[taken].encode(link.back));
    lemma_stream_numbered(sdus, mps, origin);
    lemma_stream_absorbed(fresh, sdus, mps, origin);
    lemma_absorbed_prefix(fresh, frames, taken + 1);
    lemma_frame_taken(link, receiver, frames, acked, taken);
    let rest = ErtmEngineV { outbound: sender.outbound.skip(1), ..sender };
    assert(rest.outbound =~= encoded(frames.subrange(taken + 1, sent), link.back));
    lemma_in_step(
        link,
        rest,
        receiver.frame_received(sender.outbound[0]).0,
        sdus,
        acked,
        taken + 1,
        sent,
    );
}

/// The next acknowledgment of the receiver is accepted, and the transfer goes on.
#[verifier::spinoff_prover]
pub proof fn acknowledgment_crosses(
    link: LinkV,
    sender: ErtmEngineV,
    receiver: ErtmEngineV,
    sdus: Seq<Seq<u8>>,
)
    requires
        in_step(link, sender, receiver, sdus),
        receiver.outbound.len() > 0,
    ensures
        sender.frame_received(receiver.outbound[0]).1 is Ok,
        in_step(
            link,
            sender.frame_received(receiver.outbound[0]).0,
            ErtmEngineV { outbound: receiver.outbound.skip(1), ..receiver },
            sdus,
        ),
        ({
            let after = sender.frame_received(receiver.outbound[0]).0;
            after.pending.len() + after.outbound.len() == sender.pending.len()
                + sender.outbound.len()
        }),
{
    reveal(ErtmEngineV::frame_received);
    let frames = stream(sdus, sender.config.peer_mps as int, link.origin);
    let sent = frames.len() - sender.pending.len();
    let acked = sent - sender.tx_window.len();
    let taken = sent - sender.outbound.len();
    let number = seq_add(link.origin, acked + 1);
    let field = EnhancedControlField::Supervisory {
        function: SupervisoryFunction::ReceiverReady,
        poll: false,
        final_bit: false,
        req_seq: number,
    };
    let bytes = receiver.outbound[0];
    assert(bytes == field.bytes());
    lemma_numbers_differ(link.origin, acked);
    lemma_numbers_differ(link.origin, acked + 1);
    control_field_reads_back(field, seq![]);
    assert(bytes + Seq::<u8>::empty() =~= bytes);
    let (told, acknowledged) = sender.acknowledged(number);
    assert(acknowledged == Ok::<bool, Seq<char>>(true));
    assert(told.tx_window =~= frames.subrange(acked + 1, sent).map_values(
        |frame: PendingFrameV| transmitted(frame),
    ));
    let after = sender.frame_received(bytes).0;
    assert(after == told.output_processed());
    lemma_output_sends(link, told, frames, acked + 1, taken, sent);
    let rest = ErtmEngineV { outbound: receiver.outbound.skip(1), ..receiver };
    assert(rest.outbound =~= acknowledgments(link, acked + 1, taken));
    lemma_in_step(link, after, rest, sdus, acked + 1, taken, sent + told.sendable());
}

/// Once no frame is on its way any more, all SDUs are delivered, in order, and
/// nothing waits or is unacknowledged.
pub proof fn transfer_is_complete(
    link: LinkV,
    sender: ErtmEngineV,
    receiver: ErtmEngineV,
    sdus: Seq<Seq<u8>>,
)
    requires
        in_step(link, sender, receiver, sdus),
        sender.outbound.len() == 0,
        receiver.outbound.len() == 0,
    ensures
        receiver.received == link.held + sdus,
        at_rest(receiver, sender),
{
    let mps = sender.config.peer_mps as int;
    let origin = link.origin;
    let frames = stream(sdus, mps, origin);
    let fresh = link.fresh(receiver.config);
    let sent = frames.len() - sender.pending.len();
    lemma_seq_add(link.origin, frames.len() as int, 0);
    assert(frames.take(frames.len() as int) =~= frames);
    lemma_stream_absorbed(fresh, sdus, mps, origin);
}

/// The two ends after frames crossed as a schedule says: `true` for the next
/// frame of the first end, `false` for the next one of the second, nothing where
/// there is none. Also whether all frames were accepted.
pub open spec fn relayed(first: ErtmEngineV, second: ErtmEngineV, schedule: Seq<bool>) -> (
    ErtmEngineV,
    ErtmEngineV,
    bool,
)
    decreases schedule.len(),
{
    if schedule.len() == 0 {
        (first, second, true)
    } else {
        let (one, two, accepted) = relayed(first, second, schedule.drop_last());
        if schedule.last() {
            if one.outbound.len() == 0 {
                (one, two, accepted)
            } else {
                let (after, result) = two.frame_received(one.outbound[0]);
                (
                    ErtmEngineV { outbound: one.outbound.skip(1), ..one },
                    after,
                    accepted && result is Ok,
                )
            }
        } else {
            if two.outbound.len() == 0 {
                (one, two, accepted)
            } else {
                let (after, result) = one.frame_received(two.outbound[0]);
                (
                    after,
                    ErtmEngineV { outbound: two.outbound.skip(1), ..two },
                    accepted && result is Ok,
                )
            }
        }
    }
}

/// An engine after SDUs were handed to it, and whether it accepted all of them.
pub open spec fn all_sent(engine: ErtmEngineV, sdus: Seq<Seq<u8>>) -> (ErtmEngineV, bool)
    decreases sdus.len(),
{
    if sdus.len() == 0 {
        (engine, true)
    } else {
        let (before, accepted) = all_sent(engine, sdus.drop_last());
        let (after, result) = before.sdu_sent(sdus.last());
        (after, accepted && result is Ok)
    }
}

/// How many frames have yet to cross, counting the acknowledgment of each.
pub open spec fn left_to_cross(sender: ErtmEngineV, receiver: ErtmEngineV) -> nat {
    2 * (sender.pending.len() + sender.outbound.len()) + receiver.outbound.len()
}

proof fn lemma_all_sent(
    link: LinkV,
    sender: ErtmEngineV,
    receiver: ErtmEngineV,
    sdus: Seq<Seq<u8>>,
)
    requires
        in_step(link, sender, receiver, seq![]),
        forall|i: int|
            0 <= i < sdus.len() ==> (#[trigger] sdus[i]).len() <= sender.config.peer_mtu,
    ensures
        all_sent(sender, sdus).1,
        in_step(link, all_sent(sender, sdus).0, receiver, sdus),
        all_sent(sender, sdus).0.config == sender.config,
    decreases sdus.len(),
{
    if sdus.len() == 0 {
        assert(sdus =~= seq![]);
    } else {
        let earlier = sdus.drop_last();
        assert forall|i: int| 0 <= i < earlier.len() implies (#[trigger] earlier[i]).len()
            <= sender.config.peer_mtu by {
            assert(earlier[i] == sdus[i]);
        }
        lemma_all_sent(link, sender, receiver, earlier);
        let before = all_sent(sender, earlier).0;
        sending_stays_in_step(link, before, receiver, earlier, sdus.last());
        assert(earlier.push(sdus.last()) =~= sdus);
    }
}

proof fn lemma_relayed(
    link: LinkV,
    sender: ErtmEngineV,
    receiver: ErtmEngineV,
    sdus: Seq<Seq<u8>>,
    schedule: Seq<bool>,
)
    requires
        in_step(link, sender, receiver, sdus),
    ensures
        ({
            let (one, two, accepted) = relayed(sender, receiver, schedule);
            accepted && in_step(link, one, two, sdus)
        }),
    decreases schedule.len(),
{
    if schedule.len() > 0 {
        lemma_relayed(link, sender, receiver, sdus, schedule.drop_last());
        let (one, two, accepted) = relayed(sender, receiver, schedule.drop_last());
        if schedule.last() {
            if one.outbound.len() > 0 {
                frame_crosses(link, one, two, sdus);
            }
        } else if two.outbound.len() > 0 {
            acknowledgment_crosses(link, one, two, sdus);
        }
    }
}

/// What one end sends the other end delivers, however many SDUs there are and
/// however many windows they take: ends at rest accept all SDUs and, in whatever
/// order their frames cross, every frame; once none is on its way any more, the
/// receiver has exactly the SDUs more, in order, the sender holds nothing, and
/// both are at rest again, so that the next transfer can go either way.
pub proof fn sdus_reach_the_peer(
    sender: ErtmEngineV,
    receiver: ErtmEngineV,
    sdus: Seq<Seq<u8>>,
    schedule: Seq<bool>,
)
    requires
        at_rest(sender, receiver),
        sender.config.peer_mtu <= receiver.config.local_mtu,
        forall|i: int|
            0 <= i < sdus.len() ==> (#[trigger] sdus[i]).len() <= sender.config.peer_mtu,
    ensures
        ({
            let (sending, sent) = all_sent(sender, sdus);
            let (one, two, accepted) = relayed(sending, receiver, schedule);
            &&& sent
            &&& accepted
            &&& one.outbound.len() == 0 && two.outbound.len() == 0 ==> two.received
                == receiver.received + sdus && one.pending.len() == 0 && one.tx_window.len() == 0
                && at_rest(two, one)
        }),
{
    let link = link_of(sender, receiver);
    ends_at_rest_are_in_step(sender, receiver);
    lemma_all_sent(link, sender, receiver, sdus);
    let sending = all_sent(sender, sdus).0;
    lemma_relayed(link, sending, receiver, sdus, schedule);
    let (one, two, accepted) = relayed(sending, receiver, schedule);
    if one.outbound.len() == 0 && two.outbound.len() == 0 {
        transfer_is_complete(link, one, two, sdus);
    }
}

/// A transfer comes to its end: every frame that crosses leaves one less to
/// cross.
pub proof fn transfer_comes_to_an_end(
    link: LinkV,
    sender: ErtmEngineV,
    receiver: ErtmEngineV,
    sdus: Seq<Seq<u8>>,
)
    requires
        in_step(link, sender, receiver, sdus),
    ensures
        sender.outbound.len() > 0 ==> left_to_cross(
            ErtmEngineV { outbound: sender.outbound.skip(1), ..sender },
            receiver.frame_received(sender.outbound[0]).0,
        ) == left_to_cross(sender, receiver) - 1,
        receiver.outbound.len() > 0 ==> left_to_cross(
            sender.frame_received(receiver.outbound[0]).0,
            ErtmEngineV { outbound: receiver.outbound.skip(1), ..receiver },
        ) == left_to_cross(sender, receiver) - 1,
        left_to_cross(sender, receiver) == 0 ==> sender.outbound.len() == 0
            && receiver.outbound.len() == 0,
{
    if sender.outbound.len() > 0 {
        frame_crosses(link, sender, receiver, sdus);
    }
    if receiver.outbound.len() > 0 {
        acknowledgment_crosses(link, sender, receiver, sdus);
    }
}

} // verus!
