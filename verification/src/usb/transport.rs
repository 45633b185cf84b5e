//! How HCI packets travel in USB transfers.

use std::collections::VecDeque;
use vstd::prelude::*;

use super::device::UsbLayout;
use super::{UsbError, UsbErrorV, UsbTransferError, UsbTransferErrorV};
use crate::bytes::{append_bytes, copy_range, le16, le16_at, le16_reads_back, read_le16};
use crate::hci::{
    packet_reads_back, CodecError, Packet, PacketV, ACL_PACKET_TYPE, EVENT_PACKET_TYPE,
};

verus! {

pub const MAX_HCI_PACKET_SIZE: usize = 4096;

/// The contents of a list of packets.
pub open spec fn packet_views(packets: Seq<Packet>) -> Seq<PacketV> {
    packets.map_values(|packet: Packet| packet@)
}

/// How long the first packet in some bytes is, without its type, once its header
/// is there.
pub open spec fn raw_length(packet_type: u8, bytes: Seq<u8>) -> Option<int> {
    if packet_type == EVENT_PACKET_TYPE && bytes.len() >= 2 {
        Some(2 + bytes[1])
    } else if packet_type == ACL_PACKET_TYPE && bytes.len() >= 4 {
        Some(4 + le16_at(bytes, 2))
    } else {
        None
    }
}

/// The packets in some bytes of one type, and the bytes that are left.
pub open spec fn framed(packet_type: u8, bytes: Seq<u8>) -> (Seq<u8>, Result<Seq<PacketV>, UsbErrorV>)
    decreases bytes.len(),
{
    if packet_type != EVENT_PACKET_TYPE && packet_type != ACL_PACKET_TYPE {
        (bytes, Err(UsbErrorV::Codec(CodecError::UnsupportedPacketType(packet_type))))
    } else {
        match raw_length(packet_type, bytes) {
            None => (bytes, Ok(seq![])),
            Some(length) => if length + 1 > MAX_HCI_PACKET_SIZE {
                (
                    seq![],
                    Err(
                        UsbErrorV::PacketTooLarge {
                            declared: (length + 1) as usize,
                            maximum: MAX_HCI_PACKET_SIZE,
                        },
                    ),
                )
            } else if bytes.len() < length || length <= 0 {
                (bytes, Ok(seq![]))
            } else {
                let rest = bytes.skip(length);
                match PacketV::decode(seq![packet_type] + bytes.take(length)) {
                    Err(error) => (rest, Err(UsbErrorV::Codec(error))),
                    Ok(packet) => {
                        let (left, result) = framed(packet_type, rest);
                        (
                            left,
                            match result {
                                Ok(packets) => Ok(seq![packet] + packets),
                                Err(error) => Err(error),
                            },
                        )
                    },
                }
            },
        }
    }
}

/// Takes all complete packets of one type out of a buffer.
#[verifier::spinoff_prover]
pub fn frame_packets(packet_type: u8, buffered: &mut Vec<u8>) -> (result: Result<
    Vec<Packet>,
    UsbError,
>)
    ensures
        final(buffered)@ == framed(packet_type, old(buffered)@).0,
        match (result, framed(packet_type, old(buffered)@).1) {
            (Ok(packets), Ok(models)) => packet_views(packets@) == models,
            (Err(error), Err(model)) => error@ == model,
            _ => false,
        },
{
    if packet_type != EVENT_PACKET_TYPE && packet_type != ACL_PACKET_TYPE {
        return Err(UsbError::Codec(CodecError::UnsupportedPacketType(packet_type)));
    }
    let ghost goal = framed(packet_type, buffered@);
    let mut packets: Vec<Packet> = Vec::new();
    let mut more: bool = true;
    proof {
        if goal.1 is Ok {
            assert(packet_views(packets@) + goal.1->Ok_0 =~= goal.1->Ok_0);
        }
    }
    while more
        invariant
            packet_type == EVENT_PACKET_TYPE || packet_type == ACL_PACKET_TYPE,
            goal == framed(packet_type, old(buffered)@),
            more ==> goal.0 == framed(packet_type, buffered@).0,
            more ==> goal.1 == match framed(packet_type, buffered@).1 {
                Ok(rest) => Ok(packet_views(packets@) + rest),
                Err(error) => Err(error),
            },
            !more ==> goal == (
                buffered@,
                Ok::<Seq<PacketV>, UsbErrorV>(packet_views(packets@)),
            ),
        decreases
                buffered@.len() + if more {
                    1int
                } else {
                    0int
                },
    {
        let length: Option<usize> = if packet_type == EVENT_PACKET_TYPE {
            if buffered.len() >= 2 {
                Some(2 + buffered[1] as usize)
            } else {
                None
            }
        } else {
            if buffered.len() >= 4 {
                Some(4 + read_le16(buffered, 2) as usize)
            } else {
                None
            }
        };
        match length {
            None => {
                assert(packet_views(packets@) + seq![] =~= packet_views(packets@));
                more = false;
            },
            Some(length) => {
                if length + 1 > MAX_HCI_PACKET_SIZE {
                    *buffered = Vec::new();
                    assert(buffered@ =~= seq![]);
                    return Err(
                        UsbError::PacketTooLarge {
                            declared: length + 1,
                            maximum: MAX_HCI_PACKET_SIZE,
                        },
                    );
                }
                if buffered.len() < length {
                    assert(packet_views(packets@) + seq![] =~= packet_views(packets@));
                    more = false;
                } else {
                    let mut bytes: Vec<u8> = Vec::new();
                    bytes.push(packet_type);
                    let head = copy_range(buffered, 0, length);
                    append_bytes(&mut bytes, &head);
                    let rest = copy_range(buffered, length, buffered.len());
                    proof {
                        assert(bytes@ =~= seq![packet_type] + buffered@.take(length as int));
                        assert(rest@ =~= buffered@.skip(length as int));
                    }
                    *buffered = rest;
                    match Packet::from_bytes(&bytes) {
                        Err(error) => {
                            return Err(UsbError::Codec(error));
                        },
                        Ok(packet) => {
                            let ghost before = packet_views(packets@);
                            let ghost model = packet@;
                            packets.push(packet);
                            proof {
                                assert(packet_views(packets@) =~= before.push(model));
                                if let Ok(others) = framed(packet_type, buffered@).1 {
                                    assert(before + (seq![model] + others) =~= packet_views(
                                        packets@,
                                    ) + others);
                                }
                            }
                        },
                    }
                }
            },
        }
    }
    Ok(packets)
}

/// What is to be done to get the next packet.
pub enum PollStepV {
    Idle,
    Ready(PacketV),
    Read { events: bool, endpoint: u8 },
}

/// What is to be done to get the next packet: nothing, since the transport is
/// shut down; nothing, since there is one; or a read from an endpoint.
#[derive(Clone, Debug, PartialEq, Eq)]
pub enum PollStep {
    Idle,
    Ready(Packet),
    Read { events: bool, endpoint: u8 },
}

impl View for PollStep {
    type V = PollStepV;

    open spec fn view(&self) -> PollStepV {
        match *self {
            PollStep::Idle => PollStepV::Idle,
            PollStep::Ready(packet) => PollStepV::Ready(packet@),
            PollStep::Read { events, endpoint } => PollStepV::Read { events, endpoint },
        }
    }
}

/// How a packet is to be written.
pub enum WritePlanV {
    Control { request_type: u8, payload: Seq<u8> },
    Bulk { endpoint: u8, payload: Seq<u8> },
}

/// How a packet is to be written: as a control transfer, or to an endpoint.
#[derive(Clone, Debug, PartialEq, Eq)]
pub enum WritePlan {
    Control { request_type: u8, payload: Vec<u8> },
    Bulk { endpoint: u8, payload: Vec<u8> },
}

impl View for WritePlan {
    type V = WritePlanV;

    open spec fn view(&self) -> WritePlanV {
        match *self {
            WritePlan::Control { request_type, payload } => WritePlanV::Control {
                request_type,
                payload: payload@,
            },
            WritePlan::Bulk { endpoint, payload } => WritePlanV::Bulk {
                endpoint,
                payload: payload@,
            },
        }
    }
}

/// The state of a transport.
pub struct UsbTransportV {
    pub layout: UsbLayout,
    pub last_was_event: bool,
    pub event_bytes: Seq<u8>,
    pub acl_bytes: Seq<u8>,
    pub pending: Seq<PacketV>,
    pub shutdown: bool,
}

/// The request type of a control transfer that carries a command: to the device,
/// of the device's class.
pub const COMMAND_REQUEST_TYPE: u8 = 0x20;

/// A result of the transport and the one its model gives.
pub open spec fn polled_agrees(
    result: Result<Option<Packet>, UsbError>,
    expected: Result<Option<PacketV>, UsbErrorV>,
) -> bool {
    match (result, expected) {
        (Ok(Some(packet)), Ok(Some(model))) => packet@ == model,
        (Ok(None), Ok(None)) => true,
        (Err(error), Err(model)) => error@ == model,
        _ => false,
    }
}

impl UsbTransportV {
    pub open spec fn initial(layout: UsbLayout) -> UsbTransportV {
        UsbTransportV {
            layout,
            last_was_event: false,
            event_bytes: seq![],
            acl_bytes: seq![],
            pending: seq![],
            shutdown: false,
        }
    }

    /// The first waiting packet, and the state without it.
    pub open spec fn popped(self) -> (UsbTransportV, Option<PacketV>) {
        if self.pending.len() == 0 {
            (self, None)
        } else {
            (UsbTransportV { pending: self.pending.skip(1), ..self }, Some(self.pending[0]))
        }
    }

    /// The next packet is asked for. Events and data are read in turn.
    pub open spec fn poll_begun(self) -> (UsbTransportV, PollStepV) {
        if self.shutdown {
            (self, PollStepV::Idle)
        } else if self.pending.len() > 0 {
            (self.popped().0, PollStepV::Ready(self.pending[0]))
        } else {
            let events = !self.last_was_event;
            (
                UsbTransportV { last_was_event: events, ..self },
                PollStepV::Read {
                    events,
                    endpoint: if events {
                        self.layout.interrupt_in
                    } else {
                        self.layout.bulk_in
                    },
                },
            )
        }
    }

    /// Some bytes were read.
    pub open spec fn bytes_read(self, events: bool, bytes: Seq<u8>) -> (
        UsbTransportV,
        Result<Option<PacketV>, UsbErrorV>,
    ) {
        let (left, result) = if events {
            framed(EVENT_PACKET_TYPE, self.event_bytes + bytes)
        } else {
            framed(ACL_PACKET_TYPE, self.acl_bytes + bytes)
        };
        let next = if events {
            UsbTransportV { event_bytes: left, ..self }
        } else {
            UsbTransportV { acl_bytes: left, ..self }
        };
        match result {
            Err(error) => (next, Err(error)),
            Ok(packets) => {
                let filled = UsbTransportV { pending: next.pending + packets, ..next };
                (filled.popped().0, Ok(filled.popped().1))
            },
        }
    }

    /// A read ended.
    pub open spec fn read_done(
        self,
        events: bool,
        buffer: Seq<u8>,
        outcome: Result<usize, UsbTransferErrorV>,
    ) -> (UsbTransportV, Result<Option<PacketV>, UsbErrorV>) {
        match outcome {
            Err(UsbTransferErrorV::Timeout) => (self, Ok(None)),
            Err(error) => (self, Err(UsbErrorV::Transfer(error))),
            Ok(count) => if count == 0 {
                (self, Ok(None))
            } else if count > buffer.len() {
                (
                    self,
                    Err(
                        UsbErrorV::Transfer(
                            UsbTransferErrorV::Other(
                                "USB backend returned a count larger than its buffer"@,
                            ),
                        ),
                    ),
                )
            } else {
                self.bytes_read(events, buffer.take(count as int))
            },
        }
    }

    /// How a packet is to be written. Commands go to the device, data to its
    /// endpoint; events never go out.
    pub open spec fn write_plan(self, packet: PacketV) -> Result<WritePlanV, UsbErrorV> {
        if self.shutdown {
            Err(UsbErrorV::Closed)
        } else {
            match packet {
                PacketV::Command(_) => Ok(
                    WritePlanV::Control {
                        request_type: COMMAND_REQUEST_TYPE,
                        payload: packet.encode().skip(1),
                    },
                ),
                PacketV::Acl(_) => Ok(
                    WritePlanV::Bulk {
                        endpoint: self.layout.bulk_out,
                        payload: packet.encode().skip(1),
                    },
                ),
                PacketV::Event(_) => Err(
                    UsbErrorV::Codec(CodecError::UnsupportedPacketType(EVENT_PACKET_TYPE)),
                ),
            }
        }
    }
}

/// The request type that `rusb::request_type` builds for a request to the device
/// that is of its class and goes out: the class bit alone.
#[verifier::external_body]
fn class_request_to_device() -> (request_type: u8)
    ensures
        request_type == COMMAND_REQUEST_TYPE,
{
    rusb::request_type(
        rusb::Direction::Out,
        rusb::RequestType::Class,
        rusb::Recipient::Device,
    )
}

/// The packets that travel over one adapter.
#[derive(Debug)]
pub struct UsbTransport {
    layout: UsbLayout,
    last_was_event: bool,
    event_bytes: Vec<u8>,
    acl_bytes: Vec<u8>,
    pending: VecDeque<Packet>,
    shutdown: bool,
}

impl View for UsbTransport {
    type V = UsbTransportV;

    closed spec fn view(&self) -> UsbTransportV {
        UsbTransportV {
            layout: self.layout,
            last_was_event: self.last_was_event,
            event_bytes: self.event_bytes@,
            acl_bytes: self.acl_bytes@,
            pending: packet_views(self.pending@),
            shutdown: self.shutdown,
        }
    }
}

impl UsbTransport {
    pub fn new(layout: UsbLayout) -> (transport: Self)
        ensures
            transport@ == UsbTransportV::initial(layout),
    {
        let transport = UsbTransport {
            layout,
            last_was_event: false,
            event_bytes: Vec::new(),
            acl_bytes: Vec::new(),
            pending: VecDeque::new(),
            shutdown: false,
        };
        assert(transport@.pending =~= seq![]);
        assert(transport@.event_bytes =~= seq![]);
        assert(transport@.acl_bytes =~= seq![]);
        transport
    }

    /// Nothing is read or written any more.
    pub fn shut_down(&mut self)
        ensures
            final(self)@ == (UsbTransportV { shutdown: true, ..old(self)@ }),
    {
        self.shutdown = true;
    }

    fn pop(&mut self) -> (packet: Option<Packet>)
        ensures
            final(self)@ == old(self)@.popped().0,
            match (packet, old(self)@.popped().1) {
                (Some(packet), Some(model)) => packet@ == model,
                (None, None) => true,
                _ => false,
            },
    {
        assert(self@.pending.len() == self.pending@.len());
        let packet = self.pending.pop_front();
        if packet.is_some() {
            assert(packet_views(self.pending@) =~= old(self)@.pending.skip(1));
        }
        packet
    }

    /// Asks for the next packet.
    pub fn begin_poll(&mut self) -> (step: PollStep)
        ensures
            (final(self)@, step@) == old(self)@.poll_begun(),
    {
        if self.shutdown {
            return PollStep::Idle;
        }
        match self.pop() {
            Some(packet) => PollStep::Ready(packet),
            None => {
                let events = !self.last_was_event;
                self.last_was_event = events;
                PollStep::Read {
                    events,
                    endpoint: if events {
                        self.layout.interrupt_in
                    } else {
                        self.layout.bulk_in
                    },
                }
            },
        }
    }

    /// Takes the outcome of a read into `buffer`.
    pub fn finish_poll(
        &mut self,
        events: bool,
        buffer: &[u8],
        outcome: Result<usize, UsbTransferError>,
    ) -> (result: Result<Option<Packet>, UsbError>)
        ensures
            final(self)@ == old(self)@.read_done(events, buffer@, outcome_view(outcome)).0,
            polled_agrees(
                result,
                old(self)@.read_done(events, buffer@, outcome_view(outcome)).1,
            ),
    {
        let count: usize = match outcome {
            Ok(count) => count,
            Err(UsbTransferError::Timeout) => {
                return Ok(None);
            },
            Err(error) => {
                return Err(UsbError::Transfer(error));
            },
        };
        if count == 0 {
            return Ok(None);
        }
        if count > buffer.len() {
            return Err(
                UsbError::Transfer(
                    UsbTransferError::Other(
                        "USB backend returned a count larger than its buffer".to_owned(),
                    ),
                ),
            );
        }
        let bytes = copy_range(buffer, 0, count);
        assert(bytes@ =~= buffer@.take(count as int));
        let framed = if events {
            append_bytes(&mut self.event_bytes, &bytes);
            frame_packets(EVENT_PACKET_TYPE, &mut self.event_bytes)
        } else {
            append_bytes(&mut self.acl_bytes, &bytes);
            frame_packets(ACL_PACKET_TYPE, &mut self.acl_bytes)
        };
        match framed {
            Err(error) => Err(error),
            Ok(packets) => {
                self.add_pending(packets);
                Ok(self.pop())
            },
        }
    }

    fn add_pending(&mut self, packets: Vec<Packet>)
        ensures
            final(self)@ == (UsbTransportV {
                pending: old(self)@.pending + packet_views(packets@),
                ..old(self)@
            }),
    {
        let ghost start = self@;
        let ghost all = packet_views(packets@);
        assert(start.pending + all.take(0) =~= start.pending);
        for packet in steps: packets
            invariant
                all == packet_views(packets@),
                steps.seq() == packets@,
                self@ == (UsbTransportV {
                    pending: start.pending + all.take(steps.index() as int),
                    ..start
                }),
        {
            let ghost waiting = packet_views(self.pending@);
            let ghost at = steps.index() as int;
            self.pending.push_back(packet);
            assert(packet_views(self.pending@) =~= waiting.push(all[at]));
            assert(all.take(at + 1) =~= all.take(at).push(all[at]));
            assert(self@.pending =~= start.pending + all.take(at + 1));
        }
        assert(all.take(all.len() as int) =~= all);
    }

    /// Says how a packet is to be written.
    pub fn plan_write(&self, packet: &Packet) -> (result: Result<WritePlan, UsbError>)
        ensures
            match (result, self@.write_plan(packet@)) {
                (Ok(plan), Ok(model)) => plan@ == model,
                (Err(error), Err(model)) => error@ == model,
                _ => false,
            },
    {
        if self.shutdown {
            return Err(UsbError::Closed);
        }
        let bytes = packet.to_bytes();
        let payload = copy_range(&bytes, 1, bytes.len());
        assert(payload@ =~= packet@.encode().skip(1));
        match packet {
            Packet::Command(_) => Ok(
                WritePlan::Control { request_type: class_request_to_device(), payload },
            ),
            Packet::Acl(_) => Ok(WritePlan::Bulk { endpoint: self.layout.bulk_out, payload }),
            Packet::Event(_) => Err(
                UsbError::Codec(CodecError::UnsupportedPacketType(EVENT_PACKET_TYPE)),
            ),
        }
    }

    /// Says whether a write of `expected` bytes that wrote `actual` went well.
    pub fn finish_write(expected: usize, actual: usize) -> (result: Result<(), UsbError>)
        ensures
            match result {
                Ok(_) => actual == expected,
                Err(error) => actual != expected && error@ == (UsbErrorV::PartialWrite {
                    expected,
                    actual,
                }),
            },
    {
        if actual != expected {
            return Err(UsbError::PartialWrite { expected, actual });
        }
        Ok(())
    }
}

pub open spec fn outcome_view(outcome: Result<usize, UsbTransferError>) -> Result<
    usize,
    UsbTransferErrorV,
> {
    match outcome {
        Ok(count) => Ok(count),
        Err(error) => Err(error@),
    }
}

/// It does not matter where transfers cut the bytes: what is framed out of one
/// piece and then out of the rest is what is framed out of the whole.
pub proof fn framing_ignores_cuts(packet_type: u8, first: Seq<u8>, second: Seq<u8>)
    requires
        framed(packet_type, first).1 is Ok,
    ensures
        ({
            let (left, packets) = framed(packet_type, first);
            let (end, more) = framed(packet_type, left + second);
            framed(packet_type, first + second) == (
                end,
                match more {
                    Ok(more) => Ok(packets->Ok_0 + more),
                    Err(error) => Err(error),
                },
            )
        }),
    decreases first.len(),
{
    let (left, packets) = framed(packet_type, first);
    let whole = first + second;
    match raw_length(packet_type, first) {
        Some(length) if first.len() >= length && length > 0 => {
            let rest = first.skip(length);
            assert(whole.take(length) =~= first.take(length));
            assert(whole.skip(length) =~= rest + second);
            framing_ignores_cuts(packet_type, rest, second);
            let packet = PacketV::decode(seq![packet_type] + first.take(length))->Ok_0;
            let (end, more) = framed(packet_type, left + second);
            if let Ok(more) = more {
                let others = framed(packet_type, rest).1->Ok_0;
                assert(seq![packet] + (others + more) =~= (seq![packet] + others) + more);
            }
        },
        _ => {
            let (end, more) = framed(packet_type, whole);
            if let Ok(more) = more {
                assert(seq![] + more =~= more);
            }
        },
    }
}

/// The bytes of packets as they travel over an endpoint, without their type.
pub open spec fn on_the_wire(packets: Seq<PacketV>) -> Seq<u8>
    decreases packets.len(),
{
    if packets.len() == 0 {
        seq![]
    } else {
        packets[0].encode().skip(1) + on_the_wire(packets.skip(1))
    }
}

/// Whether a packet is valid, of a type and no larger than a transport takes.
pub open spec fn travels(packet_type: u8, packet: PacketV) -> bool {
    &&& packet.valid()
    &&& packet.encode().len() <= MAX_HCI_PACKET_SIZE
    &&& packet is Event && packet_type == EVENT_PACKET_TYPE || packet is Acl && packet_type
        == ACL_PACKET_TYPE
}

/// The packets that a controller sends over an endpoint come out of the framing
/// as they were, and nothing is left.
pub proof fn framing_reads_back(packet_type: u8, packets: Seq<PacketV>)
    requires
        forall|i: int| 0 <= i < packets.len() ==> travels(packet_type, #[trigger] packets[i]),
        packet_type == EVENT_PACKET_TYPE || packet_type == ACL_PACKET_TYPE,
    ensures
        framed(packet_type, on_the_wire(packets)) == (
            Seq::<u8>::empty(),
            Ok::<Seq<PacketV>, UsbErrorV>(packets),
        ),
    decreases packets.len(),
{
    let bytes = on_the_wire(packets);
    if packets.len() == 0 {
        assert(packets =~= seq![]);
    } else {
        let packet = packets[0];
        let rest = packets.skip(1);
        assert(travels(packet_type, packet));
        assert forall|i: int| 0 <= i < rest.len() implies travels(
            packet_type,
            #[trigger] rest[i],
        ) by {
            assert(rest[i] == packets[i + 1]);
        }
        framing_reads_back(packet_type, rest);
        let raw = packet.encode().skip(1);
        let length = raw.len() as int;
        lemma_raw_length(packet_type, packet, on_the_wire(rest));
        assert(bytes.take(length) =~= raw);
        assert(bytes.skip(length) =~= on_the_wire(rest));
        assert(seq![packet_type] + raw =~= packet.encode());
        packet_reads_back(packet);
        assert(seq![packet] + rest =~= packets);
    }
}

proof fn lemma_raw_length(packet_type: u8, packet: PacketV, rest: Seq<u8>)
    requires
        travels(packet_type, packet),
    ensures
        packet.encode()[0] == packet_type,
        packet.encode().len() > 1,
        raw_length(packet_type, packet.encode().skip(1) + rest) == Some(
            packet.encode().len() - 1,
        ),
{
    let bytes = packet.encode().skip(1) + rest;
    match packet {
        PacketV::Event(event) => {
            assert(bytes[1] == packet.encode()[2]);
        },
        PacketV::Acl(acl) => {
            let length = (acl.data.len() % 65536) as u16;
            assert(bytes[2] == packet.encode()[3]);
            assert(bytes[3] == packet.encode()[4]);
            assert(bytes.subrange(2, 4) =~= le16(length));
            le16_reads_back(length, bytes, 2);
        },
        PacketV::Command(_) => {},
    }
}

} // verus!
