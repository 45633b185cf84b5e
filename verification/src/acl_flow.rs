//! Flow control towards the controller: how many ACL packets it holds for each
//! connection, and which ones wait until it has room.

use std::collections::VecDeque;
use vstd::prelude::*;

use crate::classic_host::{HostError, HostErrorV};
use crate::hci::{acl_views, AclPacket, AclPacketV, CommandPacket, CommandPacketV};
use crate::l2cap::table::Table;
use crate::values::BluetoothAddress;

verus! {

/// What the session learns from the host.
#[derive(Clone, Copy, Debug, PartialEq, Eq)]
pub enum SessionEvent {
    Connected { peer: BluetoothAddress, connection_handle: u16 },
    BondStored { peer: BluetoothAddress },
    Encrypted { peer: BluetoothAddress },
    ChannelOpened { psm: u32, source_cid: u16 },
    Disconnected { peer: BluetoothAddress, reason: u8 },
}

/// What the host wants done.
pub enum HostOutputV {
    Command(CommandPacketV),
    Acl(AclPacketV),
    Event(SessionEvent),
}

/// What the host wants done: a command or data for the controller, or an event
/// for the session.
#[derive(Clone, Debug, PartialEq, Eq)]
pub enum HostOutput {
    Command(CommandPacket),
    Acl(AclPacket),
    Event(SessionEvent),
}

impl View for HostOutput {
    type V = HostOutputV;

    open spec fn view(&self) -> HostOutputV {
        match *self {
            HostOutput::Command(packet) => HostOutputV::Command(packet@),
            HostOutput::Acl(packet) => HostOutputV::Acl(packet@),
            HostOutput::Event(event) => HostOutputV::Event(event),
        }
    }
}

/// The contents of a list of outputs.
pub open spec fn queue_views(outputs: Seq<HostOutput>) -> Seq<HostOutputV> {
    outputs.map_values(|output: HostOutput| output@)
}

/// The packets of the connections with a handle below `bound` that the
/// controller holds.
pub open spec fn held_below(in_flight: Map<u16, u16>, bound: int) -> int
    decreases bound,
{
    if bound <= 0 {
        0
    } else {
        held_below(in_flight, bound - 1) + if in_flight.contains_key((bound - 1) as u16) {
            in_flight[(bound - 1) as u16] as int
        } else {
            0
        }
    }
}

/// The packets that the controller holds of one connection.
pub open spec fn held_of(in_flight: Map<u16, u16>, handle: u16) -> u16 {
    if in_flight.contains_key(handle) {
        in_flight[handle]
    } else {
        0
    }
}

/// What the controller holds after it was given some more packets.
pub open spec fn handed_over(in_flight: Map<u16, u16>, packets: Seq<AclPacketV>) -> Map<u16, u16>
    decreases packets.len(),
{
    if packets.len() == 0 {
        in_flight
    } else {
        let before = handed_over(in_flight, packets.drop_last());
        let handle = packets.last().connection_handle;
        before.insert(handle, (held_of(before, handle) + 1) as u16)
    }
}

/// Packets without those of one connection.
pub open spec fn without_handle(packets: Seq<AclPacketV>, handle: u16) -> Seq<AclPacketV>
    decreases packets.len(),
{
    if packets.len() == 0 {
        seq![]
    } else {
        let before = without_handle(packets.drop_last(), handle);
        if packets.last().connection_handle == handle {
            before
        } else {
            before.push(packets.last())
        }
    }
}

/// Outputs without the data of one connection.
pub open spec fn without_data(outputs: Seq<HostOutputV>, handle: u16) -> Seq<HostOutputV>
    decreases outputs.len(),
{
    if outputs.len() == 0 {
        seq![]
    } else {
        let before = without_data(outputs.drop_last(), handle);
        if outputs.last() matches HostOutputV::Acl(packet) && packet.connection_handle == handle {
            before
        } else {
            before.push(outputs.last())
        }
    }
}

/// The state of flow control.
pub struct AclFlowV {
    pub payload_size: usize,
    pub total_packets: u16,
    pub in_flight: Map<u16, u16>,
    pub queued: Seq<AclPacketV>,
}

pub open spec fn acl_outputs(packets: Seq<AclPacketV>) -> Seq<HostOutputV> {
    packets.map_values(|packet: AclPacketV| HostOutputV::Acl(packet))
}

impl AclFlowV {
    /// How many packets the controller holds.
    pub open spec fn held(self) -> int {
        held_below(self.in_flight, 65536)
    }

    /// How many waiting packets the controller has room for.
    pub open spec fn sendable(self) -> int {
        let room = if self.held() < self.total_packets {
            self.total_packets - self.held()
        } else {
            0
        };
        if self.queued.len() < room {
            self.queued.len() as int
        } else {
            room
        }
    }

    /// The packets that are handed to the controller now.
    pub open spec fn ready(self) -> Seq<AclPacketV> {
        self.queued.take(self.sendable())
    }

    /// Flow control after those packets were handed over.
    pub open spec fn flushed(self) -> AclFlowV {
        AclFlowV {
            in_flight: handed_over(self.in_flight, self.ready()),
            queued: self.queued.skip(self.sendable()),
            ..self
        }
    }

    /// The controller is done with some packets of a connection.
    pub open spec fn completed(self, handle: u16, completed: u16) -> Result<AclFlowV, HostErrorV> {
        let in_flight = held_of(self.in_flight, handle);
        if completed > in_flight {
            Err(HostErrorV::AclCreditUnderflow { in_flight, completed })
        } else if completed == in_flight {
            Ok(AclFlowV { in_flight: self.in_flight.remove(handle), ..self })
        } else {
            Ok(
                AclFlowV {
                    in_flight: self.in_flight.insert(handle, (in_flight - completed) as u16),
                    ..self
                },
            )
        }
    }

    /// Nothing of a connection is held or waits any more.
    pub open spec fn handle_cleared(self, handle: u16) -> AclFlowV {
        AclFlowV {
            in_flight: self.in_flight.remove(handle),
            queued: without_handle(self.queued, handle),
            ..self
        }
    }

    /// Nothing waits, and the controller has room.
    pub open spec fn has_room(self) -> bool {
        self.queued.len() == 0 && self.held() < self.total_packets
    }

    /// The controller holds no more packets than it has room for.
    pub open spec fn within_capacity(self) -> bool {
        self.held() <= self.total_packets
    }
}

/// Flow control towards the controller.
pub struct AclFlow {
    pub payload_size: usize,
    pub total_packets: u16,
    pub in_flight: Table<u16>,
    pub queued: VecDeque<AclPacket>,
}

impl View for AclFlow {
    type V = AclFlowV;

    open spec fn view(&self) -> AclFlowV {
        AclFlowV {
            payload_size: self.payload_size,
            total_packets: self.total_packets,
            in_flight: self.in_flight@,
            queued: acl_views(self.queued@),
        }
    }
}

proof fn lemma_held_skip(in_flight: Map<u16, u16>, from: int, to: int)
    requires
        0 <= from <= to <= 65536,
        forall|handle: u16| from <= handle < to ==> !in_flight.contains_key(handle),
    ensures
        held_below(in_flight, to) == held_below(in_flight, from),
    decreases to - from,
{
    if from < to {
        lemma_held_skip(in_flight, from, to - 1);
        assert(!in_flight.contains_key((to - 1) as u16));
    }
}

proof fn lemma_held_change(before: Map<u16, u16>, after: Map<u16, u16>, handle: u16, bound: int)
    requires
        0 <= bound <= 65536,
        forall|other: u16|
            other != handle ==> (#[trigger] before.contains_key(other) <==> after.contains_key(
                other,
            )) && (before.contains_key(other) ==> before[other] == after[other]),
    ensures
        held_below(after, bound) == held_below(before, bound) + if handle < bound {
            held_of(after, handle) - held_of(before, handle)
        } else {
            0
        },
    decreases bound,
{
    if bound > 0 {
        lemma_held_change(before, after, handle, bound - 1);
        let last = (bound - 1) as u16;
        if last != handle {
            assert(before.contains_key(last) <==> after.contains_key(last));
        }
    }
}

proof fn lemma_held_of(in_flight: Map<u16, u16>, handle: u16, bound: int)
    requires
        0 <= bound <= 65536,
    ensures
        held_below(in_flight, bound) >= 0,
        handle < bound ==> held_of(in_flight, handle) <= held_below(in_flight, bound),
    decreases bound,
{
    if bound > 0 {
        lemma_held_of(in_flight, handle, bound - 1);
    }
}

impl AclFlow {
    pub fn new(payload_size: usize, total_packets: u16) -> (flow: Self)
        ensures
            flow@ == (AclFlowV {
                payload_size,
                total_packets,
                in_flight: Map::empty(),
                queued: seq![],
            }),
    {
        let flow = AclFlow {
            payload_size,
            total_packets,
            in_flight: Table::new(),
            queued: VecDeque::new(),
        };
        assert(flow@.queued =~= seq![]);
        flow
    }

    /// How many packets the controller holds.
    pub fn in_flight_total(&self) -> (total: u64)
        ensures
            total == self@.held(),
    {
        let handles = self.in_flight.keys();
        let ghost map = self.in_flight@;
        let mut total: u64 = 0;
        let mut index: usize = 0;
        let ghost mut next: int = 0;
        while index < handles.len()
            invariant
                index <= handles@.len(),
                map == self.in_flight@,
                forall|i: int, j: int| 0 <= i < j < handles@.len() ==> handles@[i] < handles@[j],
                forall|handle: u16| #[trigger] map.contains_key(handle) <==> handles@.contains(handle),
                0 <= next <= 65536,
                index > 0 ==> next == handles@[index - 1] + 1,
                index == 0 ==> next == 0,
                total == held_below(map, next),
                total <= next * 65535,
            decreases handles@.len() - index,
        {
            let handle: u16 = handles[index];
            proof {
                assert forall|other: u16| next <= other < handle implies !map.contains_key(
                    other,
                ) by {
                    if map.contains_key(other) {
                        let i = choose|i: int| 0 <= i < handles@.len() && handles@[i] == other;
                        assert(i < index);
                        assert(i == index - 1 || handles@[i] < handles@[index - 1]);
                    }
                }
                lemma_held_skip(map, next, handle as int);
                assert(handles@.contains(handle));
                assert(map.contains_key(handle));
                if index > 0 {
                    assert(handles@[index - 1] < handles@[index as int]);
                }
                next = handle + 1;
            }
            match self.in_flight.get(handle) {
                None => {},
                Some(count) => {
                    total = total + *count as u64;
                },
            }
            index = index + 1;
        }
        proof {
            assert forall|other: u16| next <= other < 65536 implies !map.contains_key(other) by {
                if map.contains_key(other) {
                    let i = choose|i: int| 0 <= i < handles@.len() && handles@[i] == other;
                    assert(i == index - 1 || handles@[i] < handles@[index - 1]);
                }
            }
            lemma_held_skip(map, next, 65536);
        }
        total
    }

    /// Adds packets to those that wait.
    pub fn enqueue(&mut self, packets: Vec<AclPacket>)
        ensures
            final(self)@ == (AclFlowV {
                queued: old(self)@.queued + acl_views(packets@),
                ..old(self)@
            }),
    {
        let ghost all = acl_views(packets@);
        let ghost start = self@;
        let mut index: usize = 0;
        assert(start.queued + all.take(0) =~= start.queued);
        while index < packets.len()
            invariant
                index <= packets@.len(),
                all == acl_views(packets@),
                self@ == (AclFlowV { queued: start.queued + all.take(index as int), ..start }),
            decreases packets@.len() - index,
        {
            let ghost before = self@;
            self.queued.push_back(packets[index].copy());
            assert(self@.queued =~= before.queued.push(all[index as int]));
            assert(all.take(index + 1) =~= all.take(index as int).push(all[index as int]));
            assert(self@.queued =~= start.queued + all.take(index + 1));
            index = index + 1;
        }
        assert(all.take(index as int) =~= all);
    }

    /// Hands waiting packets to the controller, in order, as far as it has room.
    pub fn flush(&mut self, output: &mut VecDeque<HostOutput>)
        ensures
            final(self)@ == old(self)@.flushed(),
            queue_views(final(output)@) == queue_views(old(output)@) + acl_outputs(
                old(self)@.ready(),
            ),
    {
        let ghost start = self@;
        let ghost sent = queue_views(output@);
        let ghost total = start.sendable();
        let ghost mut done: int = 0;
        let mut held: u64 = self.in_flight_total();
        proof {
            lemma_held_of(start.in_flight, 0, 65536);
            assert(start.queued.skip(0) =~= start.queued);
            assert(start.queued.take(0) =~= Seq::<AclPacketV>::empty());
            assert(sent + acl_outputs(start.queued.take(0)) =~= sent);
        }
        while held < self.total_packets as u64 && self.queued.len() > 0
            invariant
                0 <= done <= total,
                total == start.sendable(),
                held == start.held() + done,
                held == self@.held(),
                self@ == (AclFlowV {
                    in_flight: handed_over(start.in_flight, start.queued.take(done)),
                    queued: start.queued.skip(done),
                    ..start
                }),
                queue_views(output@) == sent + acl_outputs(start.queued.take(done)),
            decreases self.queued@.len(),
        {
            let ghost before = *self;
            let ghost before_output = queue_views(output@);
            assert(before@.queued.len() == before.queued@.len());
            match self.queued.pop_front() {
                None => {},
                Some(packet) => {
                    let ghost model = packet@;
                    let handle: u16 = packet.connection_handle;
                    let count: u16 = match self.in_flight.get(handle) {
                        None => 0,
                        Some(count) => *count,
                    };
                    proof {
                        lemma_held_of(before@.in_flight, handle, 65536);
                        assert(model == before@.queued[0]);
                        assert(model == start.queued[done]);
                        assert(start.queued.take(done + 1) =~= start.queued.take(done).push(model));
                        assert(start.queued.take(done + 1).drop_last() =~= start.queued.take(done));
                        lemma_held_change(
                            before@.in_flight,
                            before@.in_flight.insert(handle, (count + 1) as u16),
                            handle,
                            65536,
                        );
                    }
                    self.in_flight.put(handle, count + 1);
                    output.push_back(HostOutput::Acl(packet));
                    held = held + 1;
                    proof {
                        assert(self.queued@ =~= before.queued@.skip(1));
                        assert(acl_views(self.queued@) =~= before@.queued.skip(1));
                        assert(before@.queued.skip(1) =~= start.queued.skip(done + 1));
                        assert(queue_views(output@) =~= before_output.push(HostOutputV::Acl(model)));
                        assert(queue_views(output@) =~= sent + acl_outputs(
                            start.queued.take(done + 1),
                        ));
                        done = done + 1;
                    }
                },
            }
        }
        assert(self@.queued.len() == self.queued@.len());
        assert(done == total);
    }

    /// Takes back credit for packets that the controller is done with.
    pub fn complete(&mut self, connection_handle: u16, completed: u16) -> (result: Result<
        (),
        HostError,
    >)
        ensures
            match (result, old(self)@.completed(connection_handle, completed)) {
                (Ok(_), Ok(flow)) => final(self)@ == flow,
                (Err(error), Err(model)) => error@ == model && final(self)@ == old(self)@,
                _ => false,
            },
    {
        let in_flight: u16 = match self.in_flight.get(connection_handle) {
            None => 0,
            Some(count) => *count,
        };
        if completed > in_flight {
            return Err(HostError::AclCreditUnderflow { in_flight, completed });
        }
        let remaining: u16 = in_flight - completed;
        if remaining == 0 {
            self.in_flight.take(connection_handle);
        } else {
            self.in_flight.put(connection_handle, remaining);
        }
        Ok(())
    }

    /// Forgets all packets of a connection.
    pub fn clear_handle(&mut self, connection_handle: u16)
        ensures
            final(self)@ == old(self)@.handle_cleared(connection_handle),
    {
        self.in_flight.take(connection_handle);
        let ghost all = self@.queued;
        let mut kept: VecDeque<AclPacket> = VecDeque::new();
        let ghost mut done: int = 0;
        assert(all.take(0) =~= Seq::<AclPacketV>::empty());
        assert(all.skip(0) =~= all);
        assert(acl_views(kept@) =~= Seq::<AclPacketV>::empty());
        let ghost start = self@;
        while self.queued.len() > 0
            invariant
                0 <= done <= all.len(),
                all == start.queued,
                self@ == (AclFlowV { queued: all.skip(done), ..start }),
                acl_views(kept@) == without_handle(all.take(done), connection_handle),
            decreases self.queued@.len(),
        {
            let ghost before = self.queued@;
            assert(acl_views(before) == all.skip(done));
            let ghost before_kept = kept@;
            assert(self@.queued.len() == self.queued@.len());
            match self.queued.pop_front() {
                None => {},
                Some(packet) => {
                    let ghost model = packet@;
                    proof {
                        assert(model == acl_views(before)[0]);
                        assert(model == all[done]);
                        assert(all.take(done + 1).drop_last() =~= all.take(done));
                        assert(self.queued@ =~= before.skip(1));
                        assert(acl_views(self.queued@) =~= acl_views(before).skip(1));
                        assert(all.skip(done).skip(1) =~= all.skip(done + 1));
                    }
                    if packet.connection_handle != connection_handle {
                        kept.push_back(packet);
                        assert(acl_views(kept@) =~= acl_views(before_kept).push(model));
                    }
                    proof {
                        done = done + 1;
                    }
                },
            }
        }
        assert(self@.queued.len() == self.queued@.len());
        assert(all.take(done) =~= all);
        self.queued = kept;
    }
}

/// Drops the data of one connection from the outputs.
pub(crate) fn drop_data(output: &mut VecDeque<HostOutput>, connection_handle: u16)
    ensures
        queue_views(final(output)@) == without_data(queue_views(old(output)@), connection_handle),
{
    let ghost all = queue_views(output@);
    let mut kept: VecDeque<HostOutput> = VecDeque::new();
    let ghost mut done: int = 0;
    assert(all.take(0) =~= Seq::<HostOutputV>::empty());
    assert(all.skip(0) =~= all);
    assert(queue_views(kept@) =~= Seq::<HostOutputV>::empty());
    while output.len() > 0
        invariant
            0 <= done <= all.len(),
            queue_views(output@) == all.skip(done),
            queue_views(kept@) == without_data(all.take(done), connection_handle),
        decreases output@.len(),
    {
        let ghost before = output@;
        let ghost before_kept = kept@;
        assert(queue_views(output@).len() == output@.len());
        match output.pop_front() {
            None => {},
            Some(item) => {
                let ghost model = item@;
                proof {
                    assert(model == queue_views(before)[0]);
                    assert(model == all[done]);
                    assert(all.take(done + 1).drop_last() =~= all.take(done));
                    assert(output@ =~= before.skip(1));
                    assert(queue_views(output@) =~= queue_views(before).skip(1));
                    assert(all.skip(done).skip(1) =~= all.skip(done + 1));
                }
                let dropped = match &item {
                    HostOutput::Acl(packet) => packet.connection_handle == connection_handle,
                    _ => false,
                };
                if !dropped {
                    kept.push_back(item);
                    assert(queue_views(kept@) =~= queue_views(before_kept).push(model));
                }
                proof {
                    done = done + 1;
                }
            },
        }
    }
    assert(queue_views(output@).len() == output@.len());
    assert(all.take(done) =~= all);
    *output = kept;
}

/// Handing over packets keeps within the controller's capacity, and takes as
/// much of what waits as fits.
pub proof fn flush_keeps_capacity(flow: AclFlowV)
    requires
        flow.within_capacity(),
    ensures
        flow.flushed().within_capacity(),
        flow.flushed().queued.len() == 0 || flow.flushed().held() == flow.total_packets,
        flow.ready() + flow.flushed().queued == flow.queued,
{
    lemma_held_of(flow.in_flight, 0, 65536);
    lemma_handed_over(flow.in_flight, flow.ready(), flow.total_packets as int);
    assert(flow.ready() + flow.flushed().queued =~= flow.queued);
}

proof fn lemma_handed_over(in_flight: Map<u16, u16>, packets: Seq<AclPacketV>, total: int)
    requires
        held_below(in_flight, 65536) + packets.len() <= total <= 65535,
    ensures
        held_below(handed_over(in_flight, packets), 65536) == held_below(in_flight, 65536)
            + packets.len(),
    decreases packets.len(),
{
    if packets.len() > 0 {
        lemma_handed_over(in_flight, packets.drop_last(), total);
        let before = handed_over(in_flight, packets.drop_last());
        let handle = packets.last().connection_handle;
        lemma_held_of(before, handle, 65536);
        lemma_held_change(
            before,
            before.insert(handle, (held_of(before, handle) + 1) as u16),
            handle,
            65536,
        );
    }
}

/// Completed packets give credit back, exactly as many as were completed, and
/// never more than the controller held of that connection.
pub proof fn completion_returns_credit(flow: AclFlowV, handle: u16, completed: u16)
    requires
        flow.completed(handle, completed) is Ok,
    ensures
        completed <= held_of(flow.in_flight, handle),
        flow.completed(handle, completed)->Ok_0.held() == flow.held() - completed,
        flow.within_capacity() ==> flow.completed(handle, completed)->Ok_0.within_capacity(),
{
    let after = flow.completed(handle, completed)->Ok_0;
    lemma_held_change(flow.in_flight, after.in_flight, handle, 65536);
}

/// A connection that is gone holds no credit, and nothing of it waits.
pub proof fn cleared_handle_holds_nothing(flow: AclFlowV, handle: u16)
    ensures
        held_of(flow.handle_cleared(handle).in_flight, handle) == 0,
        flow.handle_cleared(handle).held() == flow.held() - held_of(flow.in_flight, handle),
        flow.within_capacity() ==> flow.handle_cleared(handle).within_capacity(),
        forall|i: int|
            0 <= i < flow.handle_cleared(handle).queued.len() ==> (
            #[trigger] flow.handle_cleared(handle).queued[i]).connection_handle != handle,
{
    lemma_held_change(flow.in_flight, flow.in_flight.remove(handle), handle, 65536);
    lemma_without_handle(flow.queued, handle);
}

proof fn lemma_without_handle(packets: Seq<AclPacketV>, handle: u16)
    ensures
        forall|i: int|
            0 <= i < without_handle(packets, handle).len() ==> (#[trigger] without_handle(
                packets,
                handle,
            )[i]).connection_handle != handle,
    decreases packets.len(),
{
    if packets.len() > 0 {
        lemma_without_handle(packets.drop_last(), handle);
        let kept = without_handle(packets, handle);
        let before = without_handle(packets.drop_last(), handle);
        assert forall|i: int| 0 <= i < kept.len() implies (
        #[trigger] kept[i]).connection_handle != handle by {
            if i < before.len() {
                assert(kept[i] == before[i]);
            }
        }
    }
}

} // verus!
