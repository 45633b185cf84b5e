//! What holds of data elements as a whole: what is written is what is read.

use vstd::prelude::*;
use vstd::utf8::{
    decode_utf8_encode_utf8, encode_utf8, encode_utf8_decode_utf8, encode_utf8_valid_utf8,
};

use super::element::{
    be_bytes, be_value, byte_span, encode_elements, integer_size, low_bytes, parse_children,
    parse_element, parse_plain, signed_bytes, signed_value, size_header, unsigned_bytes,
    unsigned_value, value_extent, DataElementV,
};
use super::{ErrorV, MAX_NESTING};
use crate::values::uuid_width;

verus! {

/// The deepest nesting inside an element: none for a plain element, and one more
/// than the deepest child for a container.
pub open spec fn nesting(element: DataElementV) -> nat
    decreases element, 0nat,
{
    match element {
        DataElementV::Sequence(elements) => 1 + deepest(elements, elements.len()),
        DataElementV::Alternative(elements) => 1 + deepest(elements, elements.len()),
        _ => 0,
    }
}

/// The deepest nesting of the first `count` elements.
pub open spec fn deepest(elements: Seq<DataElementV>, count: nat) -> nat
    decreases elements, count,
{
    if count == 0 || count > elements.len() {
        0
    } else {
        let before = deepest(elements, (count - 1) as nat);
        let last = nesting(elements[count - 1]);
        if before < last {
            last
        } else {
            before
        }
    }
}

/// Whether every UUID in an element has one of the three widths.
pub open spec fn uuids_valid(element: DataElementV) -> bool
    decreases element,
{
    match element {
        DataElementV::Uuid(bytes_le) => uuid_width(bytes_le.len() as int),
        DataElementV::Sequence(elements) => forall|i: int|
            0 <= i < elements.len() ==> uuids_valid(#[trigger] elements[i]),
        DataElementV::Alternative(elements) => forall|i: int|
            0 <= i < elements.len() ==> uuids_valid(#[trigger] elements[i]),
        _ => true,
    }
}

proof fn lemma_be_round_trip(value: nat, size: nat)
    requires
        value < byte_span(size),
    ensures
        be_bytes(value, size).len() == size,
        be_value(be_bytes(value, size)) == value,
    decreases size,
{
    if size > 0 {
        lemma_be_round_trip(value / 256, (size - 1) as nat);
        let bytes = be_bytes(value, size);
        assert(bytes.drop_last() =~= be_bytes(value / 256, (size - 1) as nat));
    }
}

proof fn lemma_spans()
    ensures
        byte_span(1) == 0x100,
        byte_span(2) == 0x1_0000,
        byte_span(4) == 0x1_0000_0000,
        byte_span(8) == 0x1_0000_0000_0000_0000,
        byte_span(16) == 0x1_0000_0000_0000_0000_0000_0000_0000_0000,
{
    reveal_with_fuel(byte_span, 17);
}

proof fn lemma_first_byte_half(value: nat, size: nat)
    requires
        0 < size,
        value < byte_span(size),
    ensures
        be_bytes(value, size)[0] >= 128 <==> 2 * value >= byte_span(size),
    decreases size,
{
    lemma_be_round_trip(value, size);
    if size > 1 {
        lemma_first_byte_half(value / 256, (size - 1) as nat);
        lemma_be_round_trip(value / 256, (size - 1) as nat);
        assert(be_bytes(value, size)[0] == be_bytes(value / 256, (size - 1) as nat)[0]);
    } else {
        assert(be_bytes(value / 256, 0) =~= Seq::<u8>::empty());
        reveal_with_fuel(byte_span, 2);
    }
}

/// The bytes of an integer in range give the integer back.
proof fn lemma_integers_read_back(unsigned: u128, signed: i128, size: u8)
    ensures
        unsigned_bytes(unsigned, size) matches Ok(bytes) ==> bytes.len() == size && unsigned_value(
            bytes,
        ) == unsigned,
        signed_bytes(signed, size) matches Ok(bytes) ==> bytes.len() == size && signed_value(bytes)
            == signed,
{
    lemma_spans();
    if integer_size(size as int) {
        let span = byte_span(size as nat);
        if unsigned < span {
            lemma_be_round_trip(unsigned as nat, size as nat);
            let bytes = be_bytes(unsigned as nat, size as nat);
            assert(low_bytes(bytes) == bytes);
        }
        if !(2 * signed >= span || 2 * signed < -span) {
            let raw = (signed as int % span as int) as nat;
            if signed >= 0 {
                vstd::arithmetic::div_mod::lemma_small_mod(signed as nat, span);
            } else {
                vstd::arithmetic::div_mod::lemma_mod_add_multiples_vanish(
                    signed as int,
                    span as int,
                );
                vstd::arithmetic::div_mod::lemma_small_mod((signed + span) as nat, span);
            }
            assert(raw == if signed >= 0 {
                signed as int
            } else {
                signed + span
            });
            lemma_be_round_trip(raw, size as nat);
            lemma_first_byte_half(raw, size as nat);
            let bytes = be_bytes(raw, size as nat);
            assert(low_bytes(bytes) == bytes);
        }
    }
}

/// The header of an element says where its value is.
proof fn lemma_header_reads_back(data: Seq<u8>, offset: int, type_code: u8, size: int)
    requires
        type_code <= 8,
        0 <= offset,
        0 <= size,
        size_header(type_code, size) is Ok,
        type_code == 0 ==> size == 0,
        type_code == 5 ==> size == 1,
        1 <= type_code <= 3 ==> size > 0,
        offset + size_header(type_code, size)->Ok_0.len() <= data.len(),
        data.subrange(offset, offset + size_header(type_code, size)->Ok_0.len()) == size_header(
            type_code,
            size,
        )->Ok_0,
    ensures
        data[offset] / 8 == type_code,
        value_extent(data, offset) == Ok::<(int, int), ErrorV>(
            (size, offset + size_header(type_code, size)->Ok_0.len()),
        ),
{
    let header = size_header(type_code, size)->Ok_0;
    assert forall|i: int| 0 <= i < header.len() implies data[offset + i] == header[i] by {
        assert(data.subrange(offset, offset + header.len())[i] == header[i]);
    }
    assert(data[offset] == header[0]);
    if header.len() > 1 {
        assert(data[offset + 1] == header[1]);
        if header.len() > 2 {
            assert(data[offset + 2] == header[2]);
            if header.len() > 3 {
                assert(data[offset + 3] == header[3]);
                assert(data[offset + 4] == header[4]);
            }
        }
    }
}

proof fn lemma_plain_reads_back(element: DataElementV)
    requires
        element.value_bytes() is Ok,
        uuids_valid(element),
        !(element is Sequence),
        !(element is Alternative),
    ensures
        parse_plain(element.type_code() as int, element.value_bytes()->Ok_0) == Ok::<
            DataElementV,
            ErrorV,
        >(element),
{
    let value = element.value_bytes()->Ok_0;
    match element {
        DataElementV::UnsignedInteger { value: number, size } => {
            lemma_integers_read_back(number, 0, size);
        },
        DataElementV::SignedInteger { value: number, size } => {
            lemma_integers_read_back(0, number, size);
        },
        DataElementV::Uuid(bytes_le) => {
            assert(bytes_le.reverse().reverse() =~= bytes_le);
        },
        DataElementV::Url(url) => {
            encode_utf8_valid_utf8(url);
            encode_utf8_decode_utf8(url);
        },
        _ => {},
    }
}

proof fn lemma_encode_elements_prefix(elements: Seq<DataElementV>, at: nat, count: nat)
    requires
        at <= count <= elements.len(),
        encode_elements(elements, count) is Ok,
    ensures
        encode_elements(elements, at) is Ok,
        encode_elements(elements, at)->Ok_0.len() <= encode_elements(elements, count)->Ok_0.len(),
        encode_elements(elements, count)->Ok_0.take(
            encode_elements(elements, at)->Ok_0.len() as int,
        ) == encode_elements(elements, at)->Ok_0,
    decreases count,
{
    let whole = encode_elements(elements, count)->Ok_0;
    if at < count {
        lemma_encode_elements_prefix(elements, at, (count - 1) as nat);
        let before = encode_elements(elements, (count - 1) as nat)->Ok_0;
        let part = encode_elements(elements, at)->Ok_0;
        assert(whole.take(part.len() as int) =~= before.take(part.len() as int));
    } else {
        assert(whole.take(whole.len() as int) =~= whole);
    }
}

proof fn lemma_deepest(elements: Seq<DataElementV>, index: int, count: nat)
    requires
        0 <= index < count <= elements.len(),
    ensures
        nesting(elements[index]) <= deepest(elements, count),
    decreases count,
{
    if index < count - 1 {
        lemma_deepest(elements, index, (count - 1) as nat);
    }
}

/// An element that can be written is read back from its own bytes, wherever they
/// stand in the data and whatever follows, as long as it is nested no deeper
/// than elements may be.
pub proof fn element_reads_back(element: DataElementV, data: Seq<u8>, offset: int, depth: nat)
    requires
        element.encode() is Ok,
        uuids_valid(element),
        depth + nesting(element) <= MAX_NESTING,
        0 <= offset,
        offset + element.encode()->Ok_0.len() <= data.len(),
        data.subrange(offset, offset + element.encode()->Ok_0.len()) == element.encode()->Ok_0,
    ensures
        parse_element(data, offset, depth) == Ok::<(int, DataElementV), ErrorV>(
            (offset + element.encode()->Ok_0.len(), element),
        ),
    decreases element, 0nat,
{
    let value = element.value_bytes()->Ok_0;
    let header = size_header(element.type_code(), value.len() as int)->Ok_0;
    let bytes = element.encode()->Ok_0;
    assert(bytes == header + value);
    let start = offset + header.len();
    let end = offset + bytes.len();
    assert(data.subrange(offset, start) =~= header) by {
        assert(data.subrange(offset, start) =~= bytes.take(header.len() as int));
        assert(bytes.take(header.len() as int) =~= header);
    }
    assert(data.subrange(start, end) =~= value) by {
        assert(data.subrange(start, end) =~= bytes.skip(header.len() as int));
        assert(bytes.skip(header.len() as int) =~= value);
    }
    match element {
        DataElementV::UnsignedInteger { value: number, size } => {
            lemma_integers_read_back(number, 0, size);
        },
        DataElementV::SignedInteger { value: number, size } => {
            lemma_integers_read_back(0, number, size);
        },
        _ => {},
    }
    lemma_header_reads_back(data, offset, element.type_code(), value.len() as int);
    match element {
        DataElementV::Sequence(elements) => {
            lemma_children_read_back(elements, data, start, depth + 1, 0);
            assert(elements.skip(0) =~= elements);
        },
        DataElementV::Alternative(elements) => {
            lemma_children_read_back(elements, data, start, depth + 1, 0);
            assert(elements.skip(0) =~= elements);
        },
        _ => {
            lemma_plain_reads_back(element);
        },
    }
}

proof fn lemma_children_read_back(
    elements: Seq<DataElementV>,
    data: Seq<u8>,
    start: int,
    depth: nat,
    from: nat,
)
    requires
        from <= elements.len(),
        encode_elements(elements, elements.len()) is Ok,
        forall|i: int| 0 <= i < elements.len() ==> uuids_valid(#[trigger] elements[i]),
        depth + deepest(elements, elements.len()) <= MAX_NESTING,
        0 < start,
        start + encode_elements(elements, elements.len())->Ok_0.len() <= data.len(),
        data.subrange(start, start + encode_elements(elements, elements.len())->Ok_0.len())
            == encode_elements(elements, elements.len())->Ok_0,
    ensures
        encode_elements(elements, from) is Ok,
        ({
            let at = start + encode_elements(elements, from)->Ok_0.len();
            let end = start + encode_elements(elements, elements.len())->Ok_0.len();
            parse_children(data, at, end, depth) == Ok::<(int, Seq<DataElementV>), ErrorV>(
                (end, elements.skip(from as int)),
            )
        }),
    decreases elements, elements.len() - from,
{
    let whole = encode_elements(elements, elements.len())->Ok_0;
    lemma_encode_elements_prefix(elements, from, elements.len());
    let done = encode_elements(elements, from)->Ok_0;
    let at = start + done.len();
    let end = start + whole.len();
    if from < elements.len() {
        let child = elements[from as int];
        lemma_encode_elements_prefix(elements, from + 1, elements.len());
        let next = encode_elements(elements, from + 1)->Ok_0;
        let bytes = child.encode()->Ok_0;
        assert(next == done + bytes);
        assert(data.subrange(at, at + bytes.len()) =~= bytes) by {
            assert(whole.take(next.len() as int) == next);
            assert forall|i: int| 0 <= i < bytes.len() implies data[at + i] == bytes[i] by {
                assert(data.subrange(start, end)[done.len() + i] == whole[done.len() + i]);
                assert(whole.take(next.len() as int)[done.len() + i] == whole[done.len() + i]);
                assert(next[done.len() + i] == bytes[i]);
            }
        }
        lemma_deepest(elements, from as int, elements.len());
        element_reads_back(child, data, at, depth);
        lemma_element_not_empty(child);
        lemma_children_read_back(elements, data, start, depth, from + 1);
        assert(seq![child] + elements.skip((from + 1) as int) =~= elements.skip(from as int));
    } else {
        assert(elements.skip(from as int) =~= Seq::<DataElementV>::empty());
    }
}

proof fn lemma_element_not_empty(element: DataElementV)
    requires
        element.encode() is Ok,
    ensures
        element.encode()->Ok_0.len() > 0,
{
}

proof fn lemma_be_value_span(bytes: Seq<u8>)
    ensures
        be_value(bytes) < byte_span(bytes.len()),
        bytes.len() > 0 ==> (bytes[0] >= 128 <==> 2 * be_value(bytes) >= byte_span(bytes.len())),
    decreases bytes.len(),
{
    if bytes.len() > 0 {
        lemma_be_value_span(bytes.drop_last());
        if bytes.len() == 1 {
            reveal_with_fuel(byte_span, 2);
            assert(be_value(bytes.drop_last()) == 0);
        } else {
            assert(bytes.drop_last()[0] == bytes[0]);
            assert(byte_span((bytes.len() - 1) as nat) == 256 * byte_span(
                (bytes.len() - 2) as nat,
            ));
        }
    }
}

/// Whether everything in an element has a form on the wire: integers one of the
/// five sizes and a value in range, UUIDs one of the three widths.
pub open spec fn well_formed(element: DataElementV) -> bool
    decreases element,
{
    match element {
        DataElementV::UnsignedInteger { value, size } => integer_size(size as int) && value
            < byte_span(size as nat),
        DataElementV::SignedInteger { value, size } => integer_size(size as int) && -byte_span(
            size as nat,
        ) <= 2 * value < byte_span(size as nat),
        DataElementV::Uuid(bytes_le) => uuid_width(bytes_le.len() as int),
        DataElementV::Sequence(elements) => forall|i: int|
            0 <= i < elements.len() ==> well_formed(#[trigger] elements[i]),
        DataElementV::Alternative(elements) => forall|i: int|
            0 <= i < elements.len() ==> well_formed(#[trigger] elements[i]),
        _ => true,
    }
}

/// How many bytes the header of an element takes.
pub open spec fn header_size(type_code: u8, size: nat) -> nat {
    if type_code == 0 || type_code == 5 || 1 <= type_code <= 3 {
        1
    } else if size <= 0xFF {
        2
    } else if size <= 0xFFFF {
        3
    } else {
        5
    }
}

/// How many bytes the value of an element takes.
pub open spec fn value_size(element: DataElementV) -> nat
    decreases element, 1nat, 0nat,
{
    match element {
        DataElementV::Nil => 0,
        DataElementV::UnsignedInteger { size, .. } => size as nat,
        DataElementV::SignedInteger { size, .. } => size as nat,
        DataElementV::Uuid(bytes_le) => bytes_le.len(),
        DataElementV::TextString(bytes) => bytes.len(),
        DataElementV::Boolean(_) => 1,
        DataElementV::Sequence(elements) => total_size(elements, elements.len()),
        DataElementV::Alternative(elements) => total_size(elements, elements.len()),
        DataElementV::Url(url) => encode_utf8(url).len(),
    }
}

/// How many bytes an element takes.
pub open spec fn written_size(element: DataElementV) -> nat
    decreases element, 2nat, 0nat,
{
    header_size(element.type_code(), value_size(element)) + value_size(element)
}

/// How many bytes the first `count` elements take.
pub open spec fn total_size(elements: Seq<DataElementV>, count: nat) -> nat
    decreases elements, 0nat, count,
{
    if count == 0 || count > elements.len() {
        0
    } else {
        total_size(elements, (count - 1) as nat) + written_size(elements[count - 1])
    }
}

/// Whether the four bytes of a length can declare the size of an element and of
/// everything in it.
pub open spec fn declarable(element: DataElementV) -> bool
    decreases element,
{
    value_size(element) <= 0xFFFF_FFFF && match element {
        DataElementV::Sequence(elements) => forall|i: int|
            0 <= i < elements.len() ==> declarable(#[trigger] elements[i]),
        DataElementV::Alternative(elements) => forall|i: int|
            0 <= i < elements.len() ==> declarable(#[trigger] elements[i]),
        _ => true,
    }
}

proof fn lemma_integers_are_written(unsigned: u128, signed: i128, size: u8)
    requires
        integer_size(size as int),
    ensures
        unsigned < byte_span(size as nat) ==> (unsigned_bytes(unsigned, size) matches Ok(bytes)
            && bytes.len() == size),
        -byte_span(size as nat) <= 2 * signed < byte_span(size as nat) ==> (signed_bytes(
            signed,
            size,
        ) matches Ok(bytes) && bytes.len() == size),
{
    lemma_spans();
    let span = byte_span(size as nat);
    if unsigned < span {
        lemma_be_round_trip(unsigned as nat, size as nat);
    }
    let raw = signed as int % span as int;
    assert(0 <= raw && raw < span);
    lemma_be_round_trip(raw as nat, size as nat);
}

/// A well-formed element can be written exactly where the four bytes of a length
/// can declare the size of everything in it, and then takes that many bytes.
pub proof fn well_formed_element_is_written(element: DataElementV)
    requires
        well_formed(element),
    ensures
        element.encode() is Ok <==> declarable(element),
        element.encode() matches Ok(bytes) ==> bytes.len() == written_size(element),
        uuids_valid(element),
    decreases element, 1nat,
{
    match element {
        DataElementV::UnsignedInteger { value, size } => {
            lemma_integers_are_written(value, 0, size);
        },
        DataElementV::SignedInteger { value, size } => {
            lemma_integers_are_written(0, value, size);
        },
        DataElementV::Sequence(elements) => {
            lemma_elements_are_written(elements, elements.len());
            assert forall|i: int| 0 <= i < elements.len() implies uuids_valid(
                #[trigger] elements[i],
            ) by {
                well_formed_element_is_written(elements[i]);
            }
        },
        DataElementV::Alternative(elements) => {
            lemma_elements_are_written(elements, elements.len());
            assert forall|i: int| 0 <= i < elements.len() implies uuids_valid(
                #[trigger] elements[i],
            ) by {
                well_formed_element_is_written(elements[i]);
            }
        },
        _ => {},
    }
}

proof fn lemma_elements_are_written(elements: Seq<DataElementV>, count: nat)
    requires
        count <= elements.len(),
        forall|i: int| 0 <= i < elements.len() ==> well_formed(#[trigger] elements[i]),
    ensures
        encode_elements(elements, count) is Ok <==> forall|i: int|
            0 <= i < count ==> declarable(#[trigger] elements[i]),
        encode_elements(elements, count) matches Ok(bytes) ==> bytes.len() == total_size(
            elements,
            count,
        ),
    decreases elements, 0nat, count,
{
    if count > 0 {
        lemma_elements_are_written(elements, (count - 1) as nat);
        well_formed_element_is_written(elements[count - 1]);
        if encode_elements(elements, count) is Ok {
            assert forall|i: int| 0 <= i < count implies declarable(#[trigger] elements[i]) by {
                if i < count - 1 {
                    assert(encode_elements(elements, (count - 1) as nat) is Ok);
                }
            }
        }
    }
}

proof fn lemma_part_is_smaller(elements: Seq<DataElementV>, index: int, count: nat)
    requires
        0 <= index < count <= elements.len(),
    ensures
        written_size(elements[index]) <= total_size(elements, count),
    decreases count,
{
    if index < count - 1 {
        lemma_part_is_smaller(elements, index, (count - 1) as nat);
    }
}

/// An element of up to four gigabytes in all is one whose sizes can be declared.
pub proof fn small_element_is_declarable(element: DataElementV)
    requires
        written_size(element) <= 0xFFFF_FFFF,
    ensures
        declarable(element),
    decreases element,
{
    match element {
        DataElementV::Sequence(elements) => {
            assert forall|i: int| 0 <= i < elements.len() implies declarable(
                #[trigger] elements[i],
            ) by {
                lemma_part_is_smaller(elements, i, elements.len());
                small_element_is_declarable(elements[i]);
            }
        },
        DataElementV::Alternative(elements) => {
            assert forall|i: int| 0 <= i < elements.len() implies declarable(
                #[trigger] elements[i],
            ) by {
                lemma_part_is_smaller(elements, i, elements.len());
                small_element_is_declarable(elements[i]);
            }
        },
        _ => {},
    }
}

/// A plain element that was read is well formed, and takes no more than twice
/// the bytes that it was read from.
proof fn lemma_plain_is_well_formed(type_code: u8, value: Seq<u8>)
    requires
        parse_plain(type_code as int, value) is Ok,
    ensures
        ({
            let element = parse_plain(type_code as int, value)->Ok_0;
            &&& well_formed(element)
            &&& value_size(element) <= if value.len() > 1 {
                value.len()
            } else {
                1
            }
            &&& element.type_code() == type_code
            &&& element is Boolean || value_size(element) <= value.len()
        }),
{
    let element = parse_plain(type_code as int, value)->Ok_0;
    lemma_spans();
    lemma_be_value_span(value);
    match element {
        DataElementV::UnsignedInteger { .. } => {
            assert(low_bytes(value) == value);
        },
        DataElementV::SignedInteger { .. } => {
            assert(low_bytes(value) == value);
        },
        DataElementV::Url(url) => {
            decode_utf8_encode_utf8(value);
        },
        _ => {},
    }
}

/// Whatever element is read is well formed, and so can be written exactly where
/// the four bytes of a length can declare its size. Written it takes at most
/// twice the bytes that it was read from.
pub proof fn parsed_element_is_written(data: Seq<u8>, offset: int, depth: nat)
    requires
        parse_element(data, offset, depth) is Ok,
    ensures
        ({
            let (end, element) = parse_element(data, offset, depth)->Ok_0;
            &&& offset < end <= data.len()
            &&& well_formed(element)
            &&& element.encode() is Ok <==> declarable(element)
            &&& element.encode() matches Ok(bytes) ==> bytes.len() == written_size(element)
            &&& written_size(element) <= 2 * (end - offset)
        }),
    decreases data.len() - offset, 0nat,
{
    let (end, element) = parse_element(data, offset, depth)->Ok_0;
    let type_code = data[offset] / 8;
    let (size, start) = value_extent(data, offset)->Ok_0;
    if type_code == 6 || type_code == 7 {
        lemma_children_are_well_formed(data, start, start + size, depth + 1);
        let children = parse_children(data, start, start + size, depth + 1)->Ok_0.1;
        assert(value_size(element) == total_size(children, children.len()));
    } else {
        lemma_plain_is_well_formed(type_code, data.subrange(start, start + size));
    }
    well_formed_element_is_written(element);
}

/// An element that is read from at most two gigabytes can be written.
pub proof fn small_parsed_element_is_written(data: Seq<u8>, offset: int, depth: nat)
    requires
        parse_element(data, offset, depth) is Ok,
        2 * (parse_element(data, offset, depth)->Ok_0.0 - offset) <= 0xFFFF_FFFF,
    ensures
        parse_element(data, offset, depth)->Ok_0.1.encode() is Ok,
{
    parsed_element_is_written(data, offset, depth);
    small_element_is_declarable(parse_element(data, offset, depth)->Ok_0.1);
}

proof fn lemma_total_size_prepend(first: DataElementV, rest: Seq<DataElementV>, count: nat)
    requires
        count <= rest.len(),
    ensures
        total_size(seq![first] + rest, count + 1) == written_size(first) + total_size(rest, count),
    decreases count,
{
    let all = seq![first] + rest;
    assert(all[count as int] == if count == 0 {
        first
    } else {
        rest[count - 1]
    });
    if count > 0 {
        lemma_total_size_prepend(first, rest, (count - 1) as nat);
    } else {
        assert(total_size(all, 0) == 0);
    }
}

proof fn lemma_children_are_well_formed(data: Seq<u8>, at: int, end: int, depth: nat)
    requires
        0 <= at <= end <= data.len(),
        parse_children(data, at, end, depth) is Ok,
    ensures
        ({
            let (last, children) = parse_children(data, at, end, depth)->Ok_0;
            &&& at <= last <= data.len()
            &&& forall|i: int| 0 <= i < children.len() ==> well_formed(#[trigger] children[i])
            &&& total_size(children, children.len()) <= 2 * (last - at)
        }),
    decreases data.len() - at, 1nat,
{
    if at < end {
        parsed_element_is_written(data, at, depth);
        let (next, child) = parse_element(data, at, depth)->Ok_0;
        let (last, children) = parse_children(data, at, end, depth)->Ok_0;
        if next <= end {
            lemma_children_are_well_formed(data, next, end, depth);
        }
        let rest = parse_children(data, next, end, depth)->Ok_0.1;
        assert(children =~= seq![child] + rest);
        lemma_total_size_prepend(child, rest, rest.len());
        assert forall|i: int| 0 <= i < children.len() implies well_formed(
            #[trigger] children[i],
        ) by {
            if i > 0 {
                assert(children[i] == rest[i - 1]);
            }
        }
    }
}

} // verus!
