//! How selectors are spelled, which devices carry HCI, and how packets travel.

use vstd::prelude::*;
use vstd::utf8::decode_utf8;

use super::device::{
    endpoint_of, fits, is_controller, layout_in, layout_of, skipped_before, DeviceInfoV,
    Direction, TransferType, UsbEndpointInfo, UsbInterfaceInfo, UsbInterfaceInfoV, UsbLayout,
};
use super::selector::{dotted_numbers, first_at, selector_of, split_text, UsbSelectorV};
use super::transport::{framed, PollStepV, UsbTransportV, WritePlanV};
use super::{UsbErrorV, UsbTransferErrorV};
use crate::hci::{AclPacketV, CodecError, CommandPacketV, EventPacketV, PacketV};
use crate::packet_laws::packets_have_their_bytes;
use crate::text::number_value;

verus! {

proof fn lemma_first_at_behind(front: Seq<u8>, byte: u8, back: Seq<u8>)
    requires
        !front.contains(byte),
    ensures
        first_at(front + seq![byte] + back, byte) == Some(front.len() as int),
        split_text(front + seq![byte] + back, byte) == Some((front, back)),
    decreases front.len(),
{
    let text = front + seq![byte] + back;
    if front.len() > 0 {
        assert(front.contains(front[0]));
        assert(text.skip(1) =~= front.skip(1) + seq![byte] + back);
        assert forall|i: int| 0 <= i < front.skip(1).len() implies front.skip(1)[i] != byte by {
            assert(front.contains(front[i + 1]));
        }
        lemma_first_at_behind(front.skip(1), byte, back);
    }
    assert(text.take(front.len() as int) =~= front);
    assert(text.skip(front.len() as int + 1) =~= back);
}

proof fn lemma_first_at_nowhere(text: Seq<u8>, byte: u8)
    requires
        !text.contains(byte),
    ensures
        first_at(text, byte) is None,
        split_text(text, byte) is None,
    decreases text.len(),
{
    if text.len() > 0 {
        assert(text.contains(text[0]));
        assert forall|i: int| 0 <= i < text.skip(1).len() implies text.skip(1)[i] != byte by {
            assert(text.contains(text[i + 1]));
        }
        lemma_first_at_nowhere(text.skip(1), byte);
    }
}

/// The four bytes of `usb:`.
pub open spec fn usb_colon() -> Seq<u8> {
    seq![0x75u8, 0x73, 0x62, 0x3A]
}

/// Whether a text begins with `usb:`.
pub open spec fn begins_with_usb(text: Seq<u8>) -> bool {
    text.len() >= 4 && text.take(4) == usb_colon()
}

/// A selector means the same with `usb:` in front of it.
pub proof fn prefix_changes_nothing(text: Seq<u8>)
    requires
        !begins_with_usb(text),
    ensures
        selector_of(usb_colon() + text) == selector_of(text),
{
    let longer = usb_colon() + text;
    assert(longer.take(4) =~= usb_colon());
    assert(longer.skip(4) =~= text);
}

/// `vendor:product` means the first adapter with these two numbers, which are
/// hexadecimal; `vendor:product/serial` the one with this serial number; and
/// `vendor:product#count` the one with so many of its kind, a decimal number,
/// before it.
pub proof fn adapters_are_selected_by_number(
    vendor: Seq<u8>,
    product: Seq<u8>,
    serial: Seq<u8>,
    count: Seq<u8>,
    vendor_id: u16,
    product_id: u16,
    occurrence: usize,
)
    requires
        number_value(vendor, 16, 0xFFFF) == Some(vendor_id as int),
        number_value(product, 16, 0xFFFF) == Some(product_id as int),
        number_value(count, 10, usize::MAX as int) == Some(occurrence as int),
        !vendor.contains(0x3A),
        !product.contains(0x2F),
        !product.contains(0x23),
        !count.contains(0x2F),
        !begins_with_usb(vendor + seq![0x3Au8]),
        serial.len() > 0,
    ensures
        selector_of(vendor + seq![0x3Au8] + product) == Some(
            UsbSelectorV::VidPid { vendor_id, product_id, serial_number: None, occurrence: 0 },
        ),
        selector_of(vendor + seq![0x3Au8] + (product + seq![0x2Fu8] + serial)) == Some(
            UsbSelectorV::VidPid {
                vendor_id,
                product_id,
                serial_number: Some(decode_utf8(serial)),
                occurrence: 0,
            },
        ),
        selector_of(vendor + seq![0x3Au8] + (product + seq![0x2Fu8])) is None,
        selector_of(vendor + seq![0x3Au8] + (product + seq![0x23u8] + count)) == Some(
            UsbSelectorV::VidPid { vendor_id, product_id, serial_number: None, occurrence },
        ),
{
    lemma_vendor(vendor, product);
    lemma_vendor(vendor, product + seq![0x2Fu8] + serial);
    lemma_vendor(vendor, product + seq![0x2Fu8]);
    lemma_vendor(vendor, product + seq![0x23u8] + count);
    lemma_first_at_nowhere(product, 0x2F);
    lemma_first_at_nowhere(product, 0x23);
    lemma_first_at_behind(product, 0x2F, serial);
    lemma_first_at_behind(product, 0x2F, seq![]);
    assert(product + seq![0x2Fu8] + Seq::<u8>::empty() =~= product + seq![0x2Fu8]);
    let counted = product + seq![0x23u8] + count;
    assert forall|i: int| 0 <= i < counted.len() implies counted[i] != 0x2F by {
        if i < product.len() {
            assert(product.contains(product[i]));
        } else if i > product.len() {
            assert(count.contains(count[i - product.len() - 1]));
        }
    }
    lemma_first_at_nowhere(counted, 0x2F);
    lemma_first_at_behind(product, 0x23, count);
}

proof fn lemma_vendor(vendor: Seq<u8>, rest: Seq<u8>)
    requires
        !vendor.contains(0x3A),
        !begins_with_usb(vendor + seq![0x3Au8]),
    ensures
        super::selector::unprefixed(vendor + seq![0x3Au8] + rest) == vendor + seq![0x3Au8] + rest,
        split_text(vendor + seq![0x3Au8] + rest, 0x3A) == Some((vendor, rest)),
{
    let text = vendor + seq![0x3Au8] + rest;
    lemma_first_at_behind(vendor, 0x3A, rest);
    if begins_with_usb(text) {
        let start = text.take(4);
        assert(start[0] == 0x75 && start[1] == 0x73 && start[2] == 0x62 && start[3] == 0x3A);
        assert(text[3] == 0x3A);
        if vendor.len() > 3 {
            assert(vendor.contains(vendor[3]));
        } else {
            assert(vendor.len() == 3) by {
                if vendor.len() < 3 {
                    assert(text[vendor.len() as int] == 0x3A);
                }
            }
            assert((vendor + seq![0x3Au8]).take(4) =~= usb_colon());
        }
        assert(false);
    }
}

/// `bus-port.port` means the adapter at the end of these ports, and a number alone
/// means the Bluetooth adapter with so many before it. All numbers are decimal.
pub proof fn adapters_are_selected_by_place(
    bus: Seq<u8>,
    ports: Seq<u8>,
    number: Seq<u8>,
    bus_number: u8,
    index: usize,
)
    requires
        number_value(bus, 10, 255) == Some(bus_number as int),
        number_value(number, 10, usize::MAX as int) == Some(index as int),
        !bus.contains(0x2D),
        !bus.contains(0x3A),
        !ports.contains(0x3A),
        !number.contains(0x2D),
        !number.contains(0x3A),
    ensures
        dotted_numbers(ports) matches Some(path) ==> selector_of(bus + seq![0x2Du8] + ports)
            == Some(UsbSelectorV::Path { bus: bus_number, ports: path }),
        dotted_numbers(ports) is None ==> selector_of(bus + seq![0x2Du8] + ports) is None,
        selector_of(number) == Some(UsbSelectorV::Index(index)),
{
    let text = bus + seq![0x2Du8] + ports;
    assert forall|i: int| 0 <= i < text.len() implies text[i] != 0x3A by {
        if i < bus.len() {
            assert(bus.contains(bus[i]));
        } else if i > bus.len() {
            assert(ports.contains(ports[i - bus.len() - 1]));
        }
    }
    lemma_first_at_nowhere(text, 0x3A);
    lemma_first_at_behind(bus, 0x2D, ports);
    lemma_first_at_nowhere(number, 0x3A);
    lemma_first_at_nowhere(number, 0x2D);
    lemma_colonless(text);
    lemma_colonless(number);
}

proof fn lemma_colonless(text: Seq<u8>)
    requires
        !text.contains(0x3A),
    ensures
        super::selector::unprefixed(text) == text,
{
    if begins_with_usb(text) {
        assert(text.take(4)[3] == 0x3A);
        assert(text.contains(text[3]));
    }
}

/// The ports of a path stand in order with dots between them, each a decimal
/// number of at most 255.
pub proof fn ports_stand_in_order(port: Seq<u8>, rest: Seq<u8>, number: u8)
    requires
        !port.contains(0x2E),
    ensures
        number_value(port, 10, 255) == Some(number as int) ==> {
            &&& dotted_numbers(port) == Some(seq![number])
            &&& dotted_numbers(rest) matches Some(others) ==> dotted_numbers(
                port + seq![0x2Eu8] + rest,
            ) == Some(seq![number] + others)
        },
        number_value(port, 10, 255) is None ==> dotted_numbers(port) is None && dotted_numbers(
            port + seq![0x2Eu8] + rest,
        ) is None,
        dotted_numbers(rest) is None ==> dotted_numbers(port + seq![0x2Eu8] + rest) is None,
{
    let text = port + seq![0x2Eu8] + rest;
    lemma_first_at_nowhere(port, 0x2E);
    lemma_first_at_behind(port, 0x2E, rest);
    assert(text.take(port.len() as int) =~= port);
    assert(text.skip(port.len() as int + 1) =~= rest);
}

/// An index counts Bluetooth controllers from zero; a path fits one place; two
/// numbers fit the devices that have both, of which the selected one is preceded
/// by as many as the selector counts.
pub proof fn selectors_fit_devices(
    device: DeviceInfoV,
    index: usize,
    bus: u8,
    ports: Seq<u8>,
    vendor_id: u16,
    product_id: u16,
    serial_number: Option<Seq<char>>,
)
    ensures
        fits(UsbSelectorV::Index(index), device) == device.bluetooth,
        skipped_before(UsbSelectorV::Index(index)) == index,
        fits(UsbSelectorV::Path { bus, ports }, device) <==> device.bus == bus && (
        device.ports matches Some(path) && path == ports),
        skipped_before(UsbSelectorV::Path { bus, ports }) == 0,
        ({
            let numbers = UsbSelectorV::VidPid {
                vendor_id,
                product_id,
                serial_number,
                occurrence: index,
            };
            &&& fits(numbers, device) <==> (device.ids matches Some(ids) && ids.0 == vendor_id
                && ids.1 == product_id)
            &&& skipped_before(numbers) == index
        }),
{
}

/// A Bluetooth controller has the codes 0xE0, 0x01, 0x01, either itself or, where
/// its own class is zero, on an interface.
pub proof fn controllers_have_their_codes(
    class: u8,
    subclass: u8,
    protocol: u8,
    interfaces: Seq<UsbInterfaceInfo>,
)
    ensures
        is_controller(class, subclass, protocol, interfaces) <==> class == 0xE0 && subclass == 0x01
            && protocol == 0x01 || class == 0 && exists|i: int|
            0 <= i < interfaces.len() && (#[trigger] interfaces[i]).class == 0xE0
                && interfaces[i].subclass == 0x01 && interfaces[i].protocol == 0x01,
{
}

/// Whether an endpoint is the first of its kind.
pub open spec fn first_of_kind(
    endpoints: Seq<UsbEndpointInfo>,
    at: int,
    direction: Direction,
    transfer_type: TransferType,
) -> bool {
    &&& 0 <= at < endpoints.len()
    &&& endpoints[at].direction == direction
    &&& endpoints[at].transfer_type == transfer_type
    &&& forall|i: int|
        0 <= i < at ==> !((#[trigger] endpoints[i]).direction == direction
            && endpoints[i].transfer_type == transfer_type)
}

proof fn lemma_endpoint(
    endpoints: Seq<UsbEndpointInfo>,
    direction: Direction,
    transfer_type: TransferType,
)
    ensures
        match endpoint_of(endpoints, direction, transfer_type) {
            Some(address) => exists|at: int|
                #[trigger] first_of_kind(endpoints, at, direction, transfer_type) && address
                    == endpoints[at].address,
            None => forall|i: int|
                0 <= i < endpoints.len() ==> !((#[trigger] endpoints[i]).direction == direction
                    && endpoints[i].transfer_type == transfer_type),
        },
    decreases endpoints.len(),
{
    if endpoints.len() > 0 {
        if endpoints[0].direction == direction && endpoints[0].transfer_type == transfer_type {
            assert(first_of_kind(endpoints, 0, direction, transfer_type));
        } else {
            let rest = endpoints.skip(1);
            lemma_endpoint(rest, direction, transfer_type);
            match endpoint_of(rest, direction, transfer_type) {
                Some(address) => {
                    let at = choose|at: int|
                        #[trigger] first_of_kind(rest, at, direction, transfer_type) && address
                            == rest[at].address;
                    assert forall|i: int| 0 <= i < at + 1 implies !((
                    #[trigger] endpoints[i]).direction == direction && endpoints[i].transfer_type
                        == transfer_type) by {
                        if i > 0 {
                            assert(rest[i - 1] == endpoints[i]);
                        }
                    }
                    assert(rest[at] == endpoints[at + 1]);
                    assert(first_of_kind(endpoints, at + 1, direction, transfer_type));
                },
                None => {
                    assert forall|i: int| 0 <= i < endpoints.len() implies !((
                    #[trigger] endpoints[i]).direction == direction && endpoints[i].transfer_type
                        == transfer_type) by {
                        if i > 0 {
                            assert(rest[i - 1] == endpoints[i]);
                        }
                    }
                },
            }
        }
    }
}

/// Events come in on the first interrupt endpoint of an interface with the codes
/// 0xE0, 0x01, 0x01, data comes in on its first bulk endpoint for that way, and
/// goes out on the first for the other.
pub proof fn endpoints_carry_hci(interface: UsbInterfaceInfoV)
    ensures
        match layout_of(interface) {
            Some(layout) => {
                &&& interface.class == 0xE0 && interface.subclass == 0x01 && interface.protocol
                    == 0x01
                &&& layout.configuration == interface.configuration
                &&& layout.interface == interface.interface
                &&& layout.alternate == interface.alternate
                &&& exists|at: int|
                    #[trigger] first_of_kind(
                        interface.endpoints,
                        at,
                        Direction::In,
                        TransferType::Interrupt,
                    ) && layout.interrupt_in == interface.endpoints[at].address
                &&& exists|at: int|
                    #[trigger] first_of_kind(
                        interface.endpoints,
                        at,
                        Direction::In,
                        TransferType::Bulk,
                    ) && layout.bulk_in == interface.endpoints[at].address
                &&& exists|at: int|
                    #[trigger] first_of_kind(
                        interface.endpoints,
                        at,
                        Direction::Out,
                        TransferType::Bulk,
                    ) && layout.bulk_out == interface.endpoints[at].address
            },
            None => interface.class == 0xE0 && interface.subclass == 0x01 && interface.protocol
                == 0x01 ==> !(exists|at: int|
                #[trigger] first_of_kind(
                    interface.endpoints,
                    at,
                    Direction::In,
                    TransferType::Interrupt,
                )) || !(exists|at: int|
                #[trigger] first_of_kind(
                    interface.endpoints,
                    at,
                    Direction::In,
                    TransferType::Bulk,
                )) || !(exists|at: int|
                #[trigger] first_of_kind(
                    interface.endpoints,
                    at,
                    Direction::Out,
                    TransferType::Bulk,
                )),
        },
{
    lemma_endpoint(interface.endpoints, Direction::In, TransferType::Interrupt);
    lemma_endpoint(interface.endpoints, Direction::In, TransferType::Bulk);
    lemma_endpoint(interface.endpoints, Direction::Out, TransferType::Bulk);
}

/// The first interface that has all endpoints is taken.
pub proof fn first_usable_interface_is_taken(interfaces: Seq<UsbInterfaceInfoV>, at: int)
    requires
        0 <= at < interfaces.len(),
        forall|i: int| 0 <= i < at ==> layout_of(#[trigger] interfaces[i]) is None,
    ensures
        layout_of(interfaces[at]) is Some ==> layout_in(interfaces) == layout_of(interfaces[at]),
        layout_of(interfaces[at]) is None && at == interfaces.len() - 1 ==> layout_in(interfaces)
            is None,
    decreases at,
{
    reveal_with_fuel(layout_in, 2);
    let rest = interfaces.skip(1);
    if at > 0 {
        assert forall|i: int| 0 <= i < at - 1 implies layout_of(#[trigger] rest[i]) is None by {
            assert(rest[i] == interfaces[i + 1]);
        }
        first_usable_interface_is_taken(rest, at - 1);
        assert(rest[at - 1] == interfaces[at]);
    } else if interfaces.len() == 1 {
        assert(rest =~= seq![]);
    }
}

/// A command goes out as a control transfer with the request type 0x20, without
/// its packet type; data goes to the endpoint for it, likewise. Events do not go
/// out, and nothing does once the transport is shut down.
pub proof fn packets_go_out(
    transport: UsbTransportV,
    opcode: u16,
    event_code: u8,
    handle: u16,
    data: Seq<u8>,
)
    requires
        handle <= 0x0FFF,
        data.len() <= 255,
    ensures
        ({
            let command = PacketV::Command(CommandPacketV { opcode, parameters: data });
            let event = PacketV::Event(EventPacketV { event_code, parameters: data });
            let acl = PacketV::Acl(
                AclPacketV {
                    connection_handle: handle,
                    packet_boundary: 0,
                    broadcast_flag: 0,
                    data,
                },
            );
            &&& transport.shutdown ==> transport.write_plan(command) == Err::<
                WritePlanV,
                UsbErrorV,
            >(UsbErrorV::Closed) && transport.write_plan(acl) == Err::<WritePlanV, UsbErrorV>(
                UsbErrorV::Closed,
            )
            &&& !transport.shutdown ==> {
                &&& transport.write_plan(event) is Err
                &&& transport.write_plan(command) == Ok::<WritePlanV, UsbErrorV>(
                    WritePlanV::Control {
                        request_type: 0x20,
                        payload: seq![
                            (opcode % 256) as u8,
                            (opcode / 256) as u8,
                            data.len() as u8,
                        ] + data,
                    },
                )
                &&& transport.write_plan(acl) == Ok::<WritePlanV, UsbErrorV>(
                    WritePlanV::Bulk {
                        endpoint: transport.layout.bulk_out,
                        payload: seq![
                            (handle % 256) as u8,
                            (handle / 256) as u8,
                            data.len() as u8,
                            0u8,
                        ] + data,
                    },
                )
            }
        }),
{
    packets_have_their_bytes(opcode, event_code, handle, 0, 0, data);
    let command = PacketV::Command(CommandPacketV { opcode, parameters: data });
    let acl = PacketV::Acl(
        AclPacketV { connection_handle: handle, packet_boundary: 0, broadcast_flag: 0, data },
    );
    assert(command.encode().skip(1) =~= seq![
        (opcode % 256) as u8,
        (opcode / 256) as u8,
        data.len() as u8,
    ] + data);
    assert(acl.encode().skip(1) =~= seq![
        (handle % 256) as u8,
        (handle / 256) as u8,
        data.len() as u8,
        0u8,
    ] + data);
}

/// A poll hands out what waits, in order; where nothing waits, it asks for events
/// and for data in turn, beginning with events, each from its own endpoint. Once
/// the transport is shut down it asks for nothing.
pub proof fn polls_take_turns(transport: UsbTransportV, layout: UsbLayout)
    ensures
        ({
            let (next, step) = transport.poll_begun();
            let (later, again) = next.poll_begun();
            let first = UsbTransportV::initial(layout).poll_begun().1;
            &&& transport.shutdown ==> step == PollStepV::Idle && next == transport
            &&& !transport.shutdown && transport.pending.len() > 0 ==> step == PollStepV::Ready(
                transport.pending[0],
            ) && transport.pending == seq![transport.pending[0]] + next.pending
                && next.last_was_event == transport.last_was_event
            &&& !transport.shutdown && transport.pending.len() == 0 ==> {
                &&& step is Read && again is Read
                &&& step->events != again->events
                &&& step->endpoint == (if step->events {
                    transport.layout.interrupt_in
                } else {
                    transport.layout.bulk_in
                })
                &&& next.pending.len() == 0
            }
            &&& first == PollStepV::Read { events: true, endpoint: layout.interrupt_in }
        }),
{
    if !transport.shutdown && transport.pending.len() > 0 {
        assert(transport.pending =~= seq![transport.pending[0]] + transport.poll_begun().0.pending);
    }
}

/// A timeout and an empty read bring nothing; another failure is handed on; and
/// bytes are kept until their packet, of at most 4096 bytes, is there.
pub proof fn reads_bring_packets(
    transport: UsbTransportV,
    events: bool,
    buffer: Seq<u8>,
    failure: UsbTransferErrorV,
    code: u8,
    parameters: Seq<u8>,
)
    requires
        parameters.len() <= 255,
    ensures
        transport.read_done(events, buffer, Err(UsbTransferErrorV::Timeout)) == (
            transport,
            Ok::<Option<PacketV>, UsbErrorV>(None),
        ),
        transport.read_done(events, buffer, Ok(0)) == (
            transport,
            Ok::<Option<PacketV>, UsbErrorV>(None),
        ),
        !(failure is Timeout) ==> transport.read_done(events, buffer, Err(failure)) == (
            transport,
            Err::<Option<PacketV>, UsbErrorV>(UsbErrorV::Transfer(failure)),
        ),
        ({
            let bytes = seq![code, parameters.len() as u8] + parameters;
            let event = PacketV::Event(EventPacketV { event_code: code, parameters });
            transport.pending.len() == 0 && transport.event_bytes.len() == 0
                ==> transport.bytes_read(true, bytes) == (
                transport,
                Ok::<Option<PacketV>, UsbErrorV>(Some(event)),
            )
        }),
        buffer.len() >= 4 && buffer[2] + 256 * buffer[3] > 4091 ==> (framed(
            0x02,
            buffer,
        ).1 matches Err(UsbErrorV::PacketTooLarge { declared, maximum }) && maximum == 4096
            && declared == 5 + buffer[2] + 256 * buffer[3]) && framed(0x02, buffer).0.len() == 0,
        buffer.len() >= 4 && buffer.len() < 4 + buffer[2] + 256 * buffer[3] <= 4095 ==> framed(
            0x02,
            buffer,
        ) == (buffer, Ok::<Seq<PacketV>, UsbErrorV>(seq![])),
{
    let bytes = seq![code, parameters.len() as u8] + parameters;
    let event = PacketV::Event(EventPacketV { event_code: code, parameters });
    let length = 2 + parameters.len() as int;
    assert(bytes.take(length) =~= bytes);
    assert(bytes.skip(length) =~= seq![]);
    let whole = seq![0x04u8] + bytes;
    assert(whole.subrange(3, whole.len() as int) =~= parameters);
    assert(PacketV::decode(whole) == Ok::<PacketV, CodecError>(event));
    let none = Seq::<u8>::empty();
    assert(framed(0x04, none) == (none, Ok::<Seq<PacketV>, UsbErrorV>(seq![])));
    assert(seq![event] + Seq::<PacketV>::empty() =~= seq![event]);
    assert(framed(0x04, bytes) == (none, Ok::<Seq<PacketV>, UsbErrorV>(seq![event])));
    if transport.pending.len() == 0 && transport.event_bytes.len() == 0 {
        assert(transport.event_bytes =~= none);
        assert(transport.event_bytes + bytes =~= bytes);
        assert(transport.pending =~= seq![]);
        assert(transport.pending + seq![event] =~= seq![event]);
        assert(seq![event].skip(1) =~= transport.pending);
    }
}

} // verus!
