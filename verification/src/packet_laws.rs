//! What packets look like byte for byte, how units are cut into packets and put
//! together again, and how packets wait for room.

use vstd::prelude::*;

use crate::acl_flow::{
    handed_over, held_of, without_data, without_handle, AclFlowV, HostOutputV,
};
use crate::hci::{
    acl_pieces, checked_acl, fed, l2cap_fragments, parameter_fault, AclPacketV, CodecError,
    CommandPacketV, EventPacketV, PacketV, PendingAclV,
};

verus! {

/// A command is its type, its code and its length followed by its parameters; an
/// event likewise; data is its type, its connection with the two flags above it,
/// and its length followed by the bytes. Numbers of two bytes have the least
/// significant one first.
pub proof fn packets_have_their_bytes(
    opcode: u16,
    event_code: u8,
    handle: u16,
    boundary: u8,
    broadcast: u8,
    data: Seq<u8>,
)
    requires
        handle <= 0x0FFF,
        boundary <= 3,
        broadcast <= 3,
        data.len() <= 65535,
    ensures
        data.len() <= 255 ==> PacketV::Command(CommandPacketV { opcode, parameters: data }).encode()
            == seq![0x01u8, (opcode % 256) as u8, (opcode / 256) as u8, data.len() as u8] + data,
        data.len() <= 255 ==> PacketV::Event(
            EventPacketV { event_code, parameters: data },
        ).encode() == seq![0x04u8, event_code, data.len() as u8] + data,
        PacketV::Acl(
            AclPacketV {
                connection_handle: handle,
                packet_boundary: boundary,
                broadcast_flag: broadcast,
                data,
            },
        ).encode() == seq![
            0x02u8,
            (handle % 256) as u8,
            (handle / 256 + 16 * boundary + 64 * broadcast) as u8,
            (data.len() % 256) as u8,
            (data.len() / 256) as u8,
        ] + data,
{
    let first = boundary as u16;
    let flag = broadcast as u16;
    assert(handle | (first << 12) | (flag << 14) == handle + 4096 * first + 16384 * flag)
        by (bit_vector)
        requires
            handle <= 0x0FFFu16,
            first <= 3u16,
            flag <= 3u16,
    ;
    let command = PacketV::Command(CommandPacketV { opcode, parameters: data });
    let event = PacketV::Event(EventPacketV { event_code, parameters: data });
    let acl = PacketV::Acl(
        AclPacketV {
            connection_handle: handle,
            packet_boundary: boundary,
            broadcast_flag: broadcast,
            data,
        },
    );
    let total = handle + 4096 * first + 16384 * flag;
    assert(total / 256 == handle / 256 + 16 * boundary + 64 * broadcast);
    assert(total % 256 == handle % 256);
    if data.len() <= 255 {
        assert(command.encode() =~= seq![
            0x01u8,
            (opcode % 256) as u8,
            (opcode / 256) as u8,
            data.len() as u8,
        ] + data);
        assert(event.encode() =~= seq![0x04u8, event_code, data.len() as u8] + data);
    }
    assert(acl.encode() =~= seq![
        0x02u8,
        (handle % 256) as u8,
        (handle / 256 + 16 * boundary + 64 * broadcast) as u8,
        (data.len() % 256) as u8,
        (data.len() / 256) as u8,
    ] + data);
}

/// Bytes that are no packet are refused: none at all, an unknown type, too few
/// for a header, and fewer or more than the header declares.
pub proof fn broken_packets_are_refused(bytes: Seq<u8>)
    requires
        bytes.len() <= usize::MAX,
    ensures
        ({
            let length = bytes.len();
            let result = PacketV::decode(bytes);
            let least: int = if bytes[0] == 1 { 4 } else if bytes[0] == 4 { 3 } else { 5 };
            let declared = if bytes[0] == 1 {
                4 + bytes[3]
            } else if bytes[0] == 4 {
                3 + bytes[2]
            } else {
                5 + bytes[3] + 256 * bytes[4]
            };
            let known = bytes[0] == 1 || bytes[0] == 2 || bytes[0] == 4;
            &&& length == 0 ==> result == Err::<PacketV, CodecError>(CodecError::EmptyPacket)
            &&& length > 0 && !known ==> result == Err::<PacketV, CodecError>(
                CodecError::UnsupportedPacketType(bytes[0]),
            )
            &&& length > 0 && known && length < least ==> (result matches Err(
                CodecError::Truncated { .. },
            ))
            &&& length >= least && known && length < declared ==> (result matches Err(
                CodecError::Truncated { .. },
            ))
            &&& length >= least && known && length > declared ==> result == Err::<
                PacketV,
                CodecError,
            >(
                CodecError::TrailingBytes {
                    expected: declared as usize,
                    actual: length as usize,
                },
            )
            &&& length >= least && known && length == declared ==> result is Ok
        }),
{
}

/// All data of a list of packets, one after the other.
pub open spec fn data_of(packets: Seq<AclPacketV>) -> Seq<u8>
    decreases packets.len(),
{
    if packets.len() == 0 {
        seq![]
    } else {
        packets[0].data + data_of(packets.skip(1))
    }
}

/// The pieces of some data hold it in order. All but the last are of the full
/// size, and the last is no larger; the first has the boundary flag that was
/// asked for and every other one the flag 1, which marks a continuation.
pub proof fn pieces_hold_the_data(
    handle: u16,
    boundary: u8,
    broadcast: u8,
    size: int,
    data: Seq<u8>,
)
    requires
        size > 0,
    ensures
        ({
            let pieces = acl_pieces(handle, boundary, broadcast, size, data);
            &&& pieces.len() >= 1
            &&& data_of(pieces) == data
            &&& pieces[0].packet_boundary == boundary
            &&& forall|i: int| 1 <= i < pieces.len() ==> (#[trigger] pieces[i]).packet_boundary == 1
            &&& forall|i: int|
                0 <= i < pieces.len() ==> (#[trigger] pieces[i]).connection_handle == handle
                    && pieces[i].broadcast_flag == broadcast
            &&& forall|i: int|
                0 <= i < pieces.len() - 1 ==> (#[trigger] pieces[i]).data.len() == size
            &&& pieces.last().data.len() <= size
            &&& data.len() > 0 ==> pieces.last().data.len() > 0
        }),
    decreases data.len(),
{
    reveal_with_fuel(data_of, 2);
    let pieces = acl_pieces(handle, boundary, broadcast, size, data);
    if data.len() <= size {
        assert(pieces.skip(1) =~= seq![]);
        assert(data_of(pieces) =~= data);
    } else {
        let rest = acl_pieces(handle, 1, broadcast, size, data.skip(size));
        pieces_hold_the_data(handle, 1, broadcast, size, data.skip(size));
        assert(pieces.skip(1) =~= rest);
        assert(data.take(size) + data.skip(size) =~= data);
        assert forall|i: int| 1 <= i < pieces.len() implies (
        #[trigger] pieces[i]).packet_boundary == 1 && pieces[i].connection_handle == handle
            && pieces[i].broadcast_flag == broadcast && (i < pieces.len() - 1 ==>
            pieces[i].data.len() == size) by {
            assert(pieces[i] == rest[i - 1]);
        }
        assert(pieces.last() == rest.last());
    }
}

/// A unit is cut where it is one unit, as its first two bytes tell, and where the
/// connection exists: the first fragment has the flag 2 where it may be flushed
/// and 0 otherwise.
pub proof fn units_are_cut(handle: u16, broadcast: u8, size: int, unit: Seq<u8>, flushable: bool)
    ensures
        ({
            let result = l2cap_fragments(handle, broadcast, size, unit, flushable);
            let whole = unit.len() >= 4 && unit.len() == 4 + unit[0] + 256 * unit[1];
            &&& size <= 0 || !whole ==> result == Err::<Seq<AclPacketV>, CodecError>(
                CodecError::InvalidL2capPdu,
            )
            &&& size > 0 && whole && handle > 0x0FFF ==> result == Err::<
                Seq<AclPacketV>,
                CodecError,
            >(CodecError::InvalidConnectionHandle(handle))
            &&& size > 0 && whole && handle <= 0x0FFF && broadcast > 3 ==> result == Err::<
                Seq<AclPacketV>,
                CodecError,
            >(CodecError::InvalidBroadcastFlag(broadcast))
            &&& 0 < size <= 65535 && whole && handle <= 0x0FFF && broadcast <= 3 ==> (
            result matches Ok(fragments) && data_of(fragments) == unit
                && fragments[0].packet_boundary == (if flushable {
                2u8
            } else {
                0u8
            }))
        }),
{
    if size > 0 {
        let boundary = if flushable {
            2u8
        } else {
            0u8
        };
        pieces_hold_the_data(handle, boundary, broadcast, size, unit);
    }
}

/// How units are put together again. A first fragment says how long its unit is,
/// and takes the place of one that was still incomplete; a continuation adds to
/// the unit of its connection. A unit is handed out when it is complete. Too many
/// bytes, a continuation of nothing, and a first fragment without a whole header
/// are refused. Other connections are untouched.
pub proof fn fragments_are_put_together(
    pending: Map<u16, PendingAclV>,
    packet: AclPacketV,
    other: u16,
)
    requires
        other != packet.connection_handle,
    ensures
        ({
            let handle = packet.connection_handle;
            let data = packet.data;
            let (after, result) = fed(pending, packet);
            let declared = 4 + data[0] + 256 * data[1];
            let grown = pending[handle].data + data;
            let expected = pending[handle].expected;
            let nothing = Ok::<Option<Seq<u8>>, CodecError>(None);
            &&& pending.contains_key(other) ==> after.contains_key(other) && after[other]
                == pending[other]
            &&& after.contains_key(other) ==> pending.contains_key(other)
            &&& packet.packet_boundary != 1 && data.len() < 4 ==> after == pending && result
                is Err
            &&& packet.packet_boundary != 1 && data.len() >= 4 && data.len() > declared ==> after
                == pending && result is Err
            &&& packet.packet_boundary != 1 && data.len() >= 4 && data.len() == declared
                ==> !after.contains_key(handle) && result == Ok::<Option<Seq<u8>>, CodecError>(
                Some(data),
            )
            &&& packet.packet_boundary != 1 && data.len() >= 4 && data.len() < declared
                ==> after.contains_key(handle) && after[handle].data == data
                && after[handle].expected == declared && result == nothing
            &&& packet.packet_boundary == 1 && !pending.contains_key(handle) ==> after == pending
                && result is Err
            &&& packet.packet_boundary == 1 && pending.contains_key(handle) ==> {
                &&& grown.len() > expected ==> !after.contains_key(handle) && result is Err
                &&& grown.len() == expected ==> !after.contains_key(handle) && result == Ok::<
                    Option<Seq<u8>>,
                    CodecError,
                >(Some(grown))
                &&& grown.len() < expected ==> after.contains_key(handle) && after[handle].data
                    == grown && after[handle].expected == expected && result == nothing
            }
        }),
{
}

/// Packets leave in the order in which they came, as many as there is room for:
/// what leaves and what stays are together what waited, and where anything stays
/// there is no room left. There is room for a report exactly where nothing waits and
/// the controller can take a packet more.
pub proof fn packets_leave_in_order(flow: AclFlowV)
    requires
        flow.within_capacity(),
    ensures
        flow.ready() + flow.flushed().queued == flow.queued,
        flow.ready().len() + flow.held() <= flow.total_packets,
        flow.flushed().queued.len() > 0 ==> flow.ready().len() + flow.held()
            == flow.total_packets,
        flow.flushed().payload_size == flow.payload_size,
        flow.flushed().total_packets == flow.total_packets,
        flow.has_room() <==> flow.queued.len() == 0 && flow.held() < flow.total_packets,
{
    assert(flow.ready() + flow.flushed().queued =~= flow.queued);
}

/// Each packet that leaves is held against its own connection, until the
/// controller reports that it is done with it. No report gives back more than a
/// connection holds.
pub proof fn packets_are_held_per_connection(
    in_flight: Map<u16, u16>,
    packet: AclPacketV,
    flow: AclFlowV,
    handle: u16,
    completed: u16,
)
    requires
        held_of(in_flight, packet.connection_handle) < 65535,
    ensures
        ({
            let after = handed_over(in_flight, seq![packet]);
            held_of(after, handle) == held_of(in_flight, handle) + (if handle
                == packet.connection_handle {
                1int
            } else {
                0
            })
        }),
        completed > held_of(flow.in_flight, handle) ==> flow.completed(handle, completed) is Err,
        completed <= held_of(flow.in_flight, handle) ==> (flow.completed(
            handle,
            completed,
        ) matches Ok(after) && after.queued == flow.queued && forall|link: u16| #[trigger]
            held_of(after.in_flight, link) == held_of(flow.in_flight, link) - (if link == handle {
            completed as int
        } else {
            0
        })),
{
    reveal_with_fuel(handed_over, 2);
    let one = seq![packet];
    assert(one.drop_last() =~= seq![]);
    assert(one.skip(1) =~= seq![]);
}

/// With a connection goes the data that was meant for it, and no other: what waits
/// for other connections stays, in order, and so does all that is no data.
pub proof fn clearing_keeps_the_rest(
    packets: Seq<AclPacketV>,
    outputs: Seq<HostOutputV>,
    handle: u16,
)
    ensures
        without_handle(packets, handle) == packets.filter(
            |packet: AclPacketV| packet.connection_handle != handle,
        ),
        without_data(outputs, handle) == outputs.filter(
            |output: HostOutputV|
                !(output matches HostOutputV::Acl(packet) && packet.connection_handle == handle),
        ),
    decreases packets.len() + outputs.len(),
{
    reveal(Seq::filter);
    if packets.len() > 0 {
        clearing_keeps_the_rest(packets.drop_last(), seq![], handle);
    }
    if outputs.len() > 0 {
        clearing_keeps_the_rest(seq![], outputs.drop_last(), handle);
    }
}

/// Commands and events carry up to 255 bytes and data packets up to 65535; a
/// handle has twelve bits and each flag two. Everything else is refused, the handle
/// first, then the flags, then the length.
pub proof fn packets_keep_within_their_fields(packet: AclPacketV, length: int)
    requires
        packet.data.len() <= usize::MAX,
        0 <= length <= usize::MAX,
    ensures
        length <= 255 ==> parameter_fault(length) is None,
        length > 255 ==> parameter_fault(length) == Some(
            CodecError::ParameterTooLong { actual: length as usize, maximum: 255 },
        ),
        packet.fault() is None <==> packet.connection_handle < 4096 && packet.packet_boundary < 4
            && packet.broadcast_flag < 4 && packet.data.len() < 65536,
        packet.connection_handle >= 4096 ==> packet.fault() == Some(
            CodecError::InvalidConnectionHandle(packet.connection_handle),
        ),
        packet.connection_handle < 4096 && packet.packet_boundary >= 4 ==> packet.fault() == Some(
            CodecError::InvalidPacketBoundary(packet.packet_boundary),
        ),
        packet.connection_handle < 4096 && packet.packet_boundary < 4 && packet.broadcast_flag >= 4
            ==> packet.fault() == Some(CodecError::InvalidBroadcastFlag(packet.broadcast_flag)),
        checked_acl(packet) is Ok <==> packet.fault() is None,
        checked_acl(packet) matches Ok(checked) ==> checked == packet,
{
}

} // verus!
