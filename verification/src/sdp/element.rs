//! Data elements: the self-describing values that service records are made of.

use vstd::prelude::*;
use vstd::string::*;
use vstd::utf8::{decode_utf8, encode_utf8, valid_utf8};

use super::{agrees, Error, ErrorV, MAX_NESTING};
use crate::bytes::{
    append_bytes, be16, be16_at, be32, be32_at, copy_bytes, push_be16, push_be32, read_be16, read_be32,
};
use crate::text::{
    decimal, decimal_text, utf8_fault, utf8_text, wide_decimal_text, with_decimal,
};
use vstd::slice::slice_subrange;
use crate::values::{checked_uuid, BluetoothUuid as Uuid};

verus! {

/// The contents of a data element.
pub enum DataElementV {
    Nil,
    UnsignedInteger { value: u128, size: u8 },
    SignedInteger { value: i128, size: u8 },
    Uuid(Seq<u8>),
    TextString(Seq<u8>),
    Boolean(bool),
    Sequence(Seq<DataElementV>),
    Alternative(Seq<DataElementV>),
    Url(Seq<char>),
}

/// A data element: a self-describing type, length and value. Sequences and
/// alternatives nest other elements, so a whole service record is one element.
///
/// Integers carry an explicit `size` in bytes because it is part of the wire
/// encoding: the value `0x0000_FFFF` with `size == 4` takes four bytes, not two.
#[derive(Debug, PartialEq, Eq)]
#[allow(inconsistent_fields)]
pub enum DataElement {
    /// The nil element (no value).
    Nil,
    /// An unsigned integer of `size` bytes (1, 2, 4, 8 or 16).
    UnsignedInteger { value: u128, size: u8 },
    /// A signed integer of `size` bytes (1, 2, 4, 8 or 16).
    SignedInteger { value: i128, size: u8 },
    /// A 16-, 32- or 128-bit UUID.
    Uuid(Uuid),
    /// A text string (raw bytes; not required to be valid UTF-8).
    TextString(Vec<u8>),
    /// A boolean.
    Boolean(bool),
    /// An ordered sequence of elements.
    Sequence(Vec<DataElement>),
    /// A set of alternative elements.
    Alternative(Vec<DataElement>),
    /// A URL.
    Url(String),
}

impl DataElement {
    /// The contents of the element.
    pub open spec fn model(self) -> DataElementV
        decreases self,
    {
        match self {
            DataElement::Nil => DataElementV::Nil,
            DataElement::UnsignedInteger { value, size } => DataElementV::UnsignedInteger {
                value,
                size,
            },
            DataElement::SignedInteger { value, size } => DataElementV::SignedInteger {
                value,
                size,
            },
            DataElement::Uuid(uuid) => DataElementV::Uuid(uuid@),
            DataElement::TextString(bytes) => DataElementV::TextString(bytes@),
            DataElement::Boolean(value) => DataElementV::Boolean(value),
            DataElement::Sequence(elements) => DataElementV::Sequence(
                Seq::new(
                    elements@.len(),
                    |i: int|
                        if 0 <= i < elements@.len() {
                            elements@[i].model()
                        } else {
                            DataElementV::Nil
                        },
                ),
            ),
            DataElement::Alternative(elements) => DataElementV::Alternative(
                Seq::new(
                    elements@.len(),
                    |i: int|
                        if 0 <= i < elements@.len() {
                            elements@[i].model()
                        } else {
                            DataElementV::Nil
                        },
                ),
            ),
            DataElement::Url(url) => DataElementV::Url(url@),
        }
    }
}

impl View for DataElement {
    type V = DataElementV;

    open spec fn view(&self) -> DataElementV {
        self.model()
    }
}

/// The contents of a list of elements.
pub open spec fn element_views(elements: Seq<DataElement>) -> Seq<DataElementV> {
    elements.map_values(|element: DataElement| element@)
}

pub proof fn lemma_sequence_model(elements: Vec<DataElement>)
    ensures
        DataElement::Sequence(elements)@ == DataElementV::Sequence(element_views(elements@)),
        DataElement::Alternative(elements)@ == DataElementV::Alternative(element_views(elements@)),
{
    let models = element_views(elements@);
    if let DataElementV::Sequence(inner) = DataElement::Sequence(elements)@ {
        assert(inner =~= models);
    }
    if let DataElementV::Alternative(inner) = DataElement::Alternative(elements)@ {
        assert(inner =~= models);
    }
}

/// The big-endian value of a byte sequence.
pub open spec fn be_value(bytes: Seq<u8>) -> nat
    decreases bytes.len(),
{
    if bytes.len() == 0 {
        0
    } else {
        be_value(bytes.drop_last()) * 256 + bytes.last() as nat
    }
}

/// The `size` least significant bytes of `value`, most significant first.
pub open spec fn be_bytes(value: nat, size: nat) -> Seq<u8>
    decreases size,
{
    if size == 0 {
        seq![]
    } else {
        be_bytes(value / 256, (size - 1) as nat).push((value % 256) as u8)
    }
}

/// How many values a number of bytes can take.
pub open spec fn byte_span(size: nat) -> nat
    decreases size,
{
    if size == 0 {
        1
    } else {
        256 * byte_span((size - 1) as nat)
    }
}

/// The sizes an integer element can have.
pub open spec fn integer_size(size: int) -> bool {
    size == 1 || size == 2 || size == 4 || size == 8 || size == 16
}

/// A signed number in decimal.
pub open spec fn signed_decimal(value: int) -> Seq<char> {
    if value < 0 {
        "-"@ + decimal((-value) as nat)
    } else {
        decimal(value as nat)
    }
}

pub open spec fn does_not_fit(value: int, size: u8) -> ErrorV {
    ErrorV::InvalidArgument(
        "value "@ + signed_decimal(value) + " does not fit in "@ + decimal(size as nat)
            + " bytes"@,
    )
}

pub open spec fn invalid_size(size: u8) -> ErrorV {
    ErrorV::InvalidArgument("invalid value_size "@ + decimal(size as nat))
}

pub open spec fn unsigned_bytes(value: u128, size: u8) -> Result<Seq<u8>, ErrorV> {
    if !integer_size(size as int) {
        Err(invalid_size(size))
    } else if value >= byte_span(size as nat) {
        Err(does_not_fit(value as int, size))
    } else {
        Ok(be_bytes(value as nat, size as nat))
    }
}

/// Two's complement in `size` bytes.
pub open spec fn signed_bytes(value: i128, size: u8) -> Result<Seq<u8>, ErrorV> {
    let span = byte_span(size as nat);
    if !integer_size(size as int) {
        Err(invalid_size(size))
    } else if 2 * value >= span || 2 * value < -span {
        Err(does_not_fit(value as int, size))
    } else {
        Ok(be_bytes((value as int % span as int) as nat, size as nat))
    }
}

impl DataElementV {
    /// The type code, which stands in the top five bits of the first byte.
    pub open spec fn type_code(self) -> u8 {
        match self {
            DataElementV::Nil => 0,
            DataElementV::UnsignedInteger { .. } => 1,
            DataElementV::SignedInteger { .. } => 2,
            DataElementV::Uuid(_) => 3,
            DataElementV::TextString(_) => 4,
            DataElementV::Boolean(_) => 5,
            DataElementV::Sequence(_) => 6,
            DataElementV::Alternative(_) => 7,
            DataElementV::Url(_) => 8,
        }
    }

    /// The bytes after the header.
    pub open spec fn value_bytes(self) -> Result<Seq<u8>, ErrorV>
        decreases self, 1nat, 0nat,
    {
        match self {
            DataElementV::Nil => Ok(seq![]),
            DataElementV::UnsignedInteger { value, size } => unsigned_bytes(value, size),
            DataElementV::SignedInteger { value, size } => signed_bytes(value, size),
            DataElementV::Uuid(bytes_le) => Ok(bytes_le.reverse()),
            DataElementV::TextString(bytes) => Ok(bytes),
            DataElementV::Boolean(value) => Ok(
                seq![
                    if value {
                        1u8
                    } else {
                        0u8
                    },
                ],
            ),
            DataElementV::Sequence(elements) => encode_elements(elements, elements.len()),
            DataElementV::Alternative(elements) => encode_elements(elements, elements.len()),
            DataElementV::Url(url) => Ok(encode_utf8(url)),
        }
    }

    /// Header and value.
    pub open spec fn encode(self) -> Result<Seq<u8>, ErrorV>
        decreases self, 2nat, 0nat,
    {
        match self.value_bytes() {
            Err(error) => Err(error),
            Ok(data) => match size_header(self.type_code(), data.len() as int) {
                Err(error) => Err(error),
                Ok(header) => Ok(header + data),
            },
        }
    }
}

/// The first `count` elements one after another, or the first error.
pub open spec fn encode_elements(elements: Seq<DataElementV>, count: nat) -> Result<Seq<u8>, ErrorV>
    decreases elements, 0nat, count,
{
    if count == 0 || count > elements.len() {
        Ok(seq![])
    } else {
        match encode_elements(elements, (count - 1) as nat) {
            Err(error) => Err(error),
            Ok(before) => match elements[count - 1].encode() {
                Err(error) => Err(error),
                Ok(bytes) => Ok(before + bytes),
            },
        }
    }
}

/// The header of an element of `size` value bytes: the type code and a size
/// index, and the size itself where the index does not give it.
pub open spec fn size_header(type_code: u8, size: int) -> Result<Seq<u8>, ErrorV> {
    let top = 8 * type_code;
    let invalid = ErrorV::InvalidArgument("invalid data size "@ + decimal(size as nat));
    if type_code == 0 || type_code == 5 {
        Ok(seq![top as u8])
    } else if 1 <= type_code <= 3 {
        if size <= 1 {
            Ok(seq![top as u8])
        } else if size == 2 {
            Ok(seq![(top + 1) as u8])
        } else if size == 4 {
            Ok(seq![(top + 2) as u8])
        } else if size == 8 {
            Ok(seq![(top + 3) as u8])
        } else if size == 16 {
            Ok(seq![(top + 4) as u8])
        } else {
            Err(invalid)
        }
    } else if size <= 0xFF {
        Ok(seq![(top + 5) as u8, size as u8])
    } else if size <= 0xFFFF {
        Ok(seq![(top + 6) as u8] + be16(size as u16))
    } else if size <= 0xFFFF_FFFF {
        Ok(seq![(top + 7) as u8] + be32(size as u32))
    } else {
        Err(invalid)
    }
}

/// The last sixteen bytes, or all of them.
pub open spec fn low_bytes(bytes: Seq<u8>) -> Seq<u8> {
    if bytes.len() > 16 {
        bytes.skip(bytes.len() - 16)
    } else {
        bytes
    }
}

/// The unsigned integer in the last sixteen bytes.
pub open spec fn unsigned_value(bytes: Seq<u8>) -> u128 {
    be_value(low_bytes(bytes)) as u128
}

/// The two's complement integer in the last sixteen bytes.
pub open spec fn signed_value(bytes: Seq<u8>) -> i128 {
    let low = low_bytes(bytes);
    if low.len() > 0 && low[0] >= 128 {
        (be_value(low) - byte_span(low.len())) as i128
    } else {
        be_value(low) as i128
    }
}

/// The size of an element's value and where the value starts.
pub open spec fn value_extent(data: Seq<u8>, offset: int) -> Result<(int, int), ErrorV> {
    let index = data[offset] % 8;
    let start = offset + 1;
    if index == 0 {
        Ok((if data[offset] / 8 == 0 { 0int } else { 1int }, start))
    } else if index == 1 {
        Ok((2, start))
    } else if index == 2 {
        Ok((4, start))
    } else if index == 3 {
        Ok((8, start))
    } else if index == 4 {
        Ok((16, start))
    } else if index == 5 {
        if start + 1 > data.len() {
            Err(ErrorV::InvalidPacket("truncated 1-byte size"@))
        } else {
            Ok((data[start] as int, start + 1))
        }
    } else if index == 6 {
        if start + 2 > data.len() {
            Err(ErrorV::InvalidPacket("truncated 2-byte size"@))
        } else {
            Ok((be16_at(data, start) as int, start + 2))
        }
    } else {
        if start + 4 > data.len() {
            Err(ErrorV::InvalidPacket("truncated 4-byte size"@))
        } else {
            Ok((be32_at(data, start) as int, start + 4))
        }
    }
}

pub open spec fn runs_past_end(size: int, start: int) -> ErrorV {
    ErrorV::InvalidPacket(
        "element value ("@ + decimal(size as nat) + " bytes at "@ + decimal(start as nat)
            + ") runs past end"@,
    )
}

/// An element that holds no others, from its type code and value bytes.
pub open spec fn parse_plain(type_code: int, value: Seq<u8>) -> Result<DataElementV, ErrorV> {
    let size = value.len() as u8;
    if type_code == 0 {
        Ok(DataElementV::Nil)
    } else if (type_code == 1 || type_code == 2) && !integer_size(value.len() as int) {
        Err(ErrorV::InvalidPacket("invalid integer size "@ + decimal(value.len())))
    } else if type_code == 1 {
        Ok(DataElementV::UnsignedInteger { value: unsigned_value(value), size })
    } else if type_code == 2 {
        Ok(DataElementV::SignedInteger { value: signed_value(value), size })
    } else if type_code == 3 {
        match checked_uuid(value.reverse()) {
            Ok(bytes_le) => Ok(DataElementV::Uuid(bytes_le)),
            Err(error) => Err(ErrorV::InvalidPacket("bad UUID: "@ + error.text())),
        }
    } else if type_code == 4 {
        Ok(DataElementV::TextString(value))
    } else if type_code == 5 {
        Ok(DataElementV::Boolean(value.len() > 0 && value[0] == 1))
    } else if type_code == 8 {
        if valid_utf8(value) {
            Ok(DataElementV::Url(decode_utf8(value)))
        } else {
            Err(ErrorV::InvalidPacket("bad URL utf-8: "@ + utf8_fault(value)))
        }
    } else {
        Err(
            ErrorV::InvalidPacket("unsupported data element type "@ + decimal(type_code as nat)),
        )
    }
}

/// The element at `offset`, inside `depth` others, and the position after it.
pub open spec fn parse_element(data: Seq<u8>, offset: int, depth: nat) -> Result<
    (int, DataElementV),
    ErrorV,
>
    decreases data.len() - offset, 0nat,
{
    if offset < 0 || offset >= data.len() {
        Err(
            ErrorV::InvalidPacket(
                "offset "@ + decimal(offset as nat) + " exceeds len "@ + decimal(data.len()),
            ),
        )
    } else {
        let type_code = (data[offset] / 8) as int;
        match value_extent(data, offset) {
            Err(error) => Err(error),
            Ok((size, start)) => if start + size > data.len() {
                Err(runs_past_end(size, start))
            } else if type_code == 6 || type_code == 7 {
                if depth >= MAX_NESTING {
                    Err(ErrorV::InvalidPacket("nesting exceeds max depth (32)"@))
                } else {
                    match parse_children(data, start, start + size, depth + 1) {
                        Err(error) => Err(error),
                        Ok((end, children)) => if end != start + size {
                            Err(ErrorV::InvalidPacket("container elements overran their length"@))
                        } else if type_code == 6 {
                            Ok((end, DataElementV::Sequence(children)))
                        } else {
                            Ok((end, DataElementV::Alternative(children)))
                        },
                    }
                }
            } else {
                match parse_plain(type_code, data.subrange(start, start + size)) {
                    Err(error) => Err(error),
                    Ok(element) => Ok((start + size, element)),
                }
            },
        }
    }
}

/// The elements from `at` on until `end` is reached or passed, and the position
/// after the last.
pub open spec fn parse_children(data: Seq<u8>, at: int, end: int, depth: nat) -> Result<
    (int, Seq<DataElementV>),
    ErrorV,
>
    decreases data.len() - at, 1nat,
{
    if at >= end || at > data.len() {
        Ok((at, seq![]))
    } else {
        match parse_element(data, at, depth) {
            Err(error) => Err(error),
            Ok((next, child)) => if !(at < next <= data.len()) {
                Ok((at, seq![]))
            } else {
                match parse_children(data, next, end, depth) {
                    Err(error) => Err(error),
                    Ok((last, rest)) => Ok((last, seq![child] + rest)),
                }
            },
        }
    }
}

/// An element that was read ends behind its start and within the data.
pub proof fn lemma_element_end(data: Seq<u8>, offset: int, depth: nat)
    ensures
        parse_element(data, offset, depth) matches Ok((end, _)) ==> offset < end <= data.len(),
{
}

/// Whether an operation returned the expected position and element, or the
/// expected error.
pub open spec fn parse_agrees(
    actual: Result<(usize, DataElement), Error>,
    expected: Result<(int, DataElementV), ErrorV>,
) -> bool {
    match (actual, expected) {
        (Ok((end, element)), Ok((model_end, model))) => end == model_end && element@ == model,
        (Err(error), Err(model)) => error@ == model,
        _ => false,
    }
}

proof fn lemma_be_value_bound(bytes: Seq<u8>)
    ensures
        be_value(bytes) < byte_span(bytes.len()),
    decreases bytes.len(),
{
    if bytes.len() > 0 {
        lemma_be_value_bound(bytes.drop_last());
    }
}

proof fn lemma_byte_spans()
    ensures
        byte_span(0) == 1,
        byte_span(1) == 0x100,
        byte_span(2) == 0x1_0000,
        byte_span(4) == 0x1_0000_0000,
        byte_span(8) == 0x1_0000_0000_0000_0000,
        byte_span(16) == 0x1_0000_0000_0000_0000_0000_0000_0000_0000,
{
    reveal_with_fuel(byte_span, 17);
}

proof fn lemma_byte_span_grows(small: nat, large: nat)
    requires
        small <= large,
    ensures
        1 <= byte_span(small) <= byte_span(large),
    decreases large,
{
    if small < large {
        lemma_byte_span_grows(small, (large - 1) as nat);
    } else if small > 0 {
        lemma_byte_span_grows((small - 1) as nat, (large - 1) as nat);
    }
}

fn be_vec(value: u128, size: u8) -> (bytes: Vec<u8>)
    ensures
        bytes@ == be_bytes(value as nat, size as nat),
    decreases size,
{
    if size == 0 {
        Vec::new()
    } else {
        let mut bytes = be_vec(value / 256, size - 1);
        bytes.push((value % 256) as u8);
        bytes
    }
}

fn not_fitting(magnitude: u128, negative: bool, size: u8) -> (error: Error)
    requires
        negative ==> magnitude > 0,
    ensures
        error@ == does_not_fit(
            if negative {
                -magnitude
            } else {
                magnitude as int
            },
            size,
        ),
{
    let mut number = if negative {
        "-".to_owned()
    } else {
        String::new()
    };
    number.append(wide_decimal_text(magnitude).as_str());
    assert(!negative ==> number@ =~= decimal(magnitude as nat));
    let mut reason = "value ".to_owned();
    reason.append(number.as_str());
    reason.append(" does not fit in ");
    reason.append(decimal_text(size as u64).as_str());
    reason.append(" bytes");
    Error::InvalidArgument(reason)
}

fn invalid_size_error(size: u8) -> (error: Error)
    ensures
        error@ == invalid_size(size),
{
    Error::InvalidArgument(with_decimal("invalid value_size ", size as u64))
}

/// The largest unsigned value of a number of bytes.
fn largest_unsigned(size: u8) -> (largest: u128)
    requires
        integer_size(size as int),
    ensures
        largest + 1 == byte_span(size as nat),
{
    proof {
        lemma_byte_spans();
    }
    if size == 1 {
        0xFF
    } else if size == 2 {
        0xFFFF
    } else if size == 4 {
        0xFFFF_FFFF
    } else if size == 8 {
        0xFFFF_FFFF_FFFF_FFFF
    } else {
        u128::MAX
    }
}

/// Encodes an unsigned integer big-endian in exactly `size` bytes.
fn unsigned_to_bytes(value: u128, size: u8) -> (result: Result<Vec<u8>, Error>)
    ensures
        agrees(result, unsigned_bytes(value, size)),
{
    if !(size == 1 || size == 2 || size == 4 || size == 8 || size == 16) {
        return Err(invalid_size_error(size));
    }
    if value > largest_unsigned(size) {
        return Err(not_fitting(value, false, size));
    }
    Ok(be_vec(value, size))
}

/// Encodes a signed integer as big-endian two's complement in exactly `size` bytes.
fn signed_to_bytes(value: i128, size: u8) -> (result: Result<Vec<u8>, Error>)
    ensures
        agrees(result, signed_bytes(value, size)),
{
    if !(size == 1 || size == 2 || size == 4 || size == 8 || size == 16) {
        return Err(invalid_size_error(size));
    }
    let largest: u128 = largest_unsigned(size);
    let half: u128 = largest / 2;
    let negative = value < 0;
    // How far a negative value lies below -1.
    let below: u128 = if negative {
        (-(value + 1)) as u128
    } else {
        0
    };
    if negative && below > half {
        return Err(not_fitting(below + 1, true, size));
    }
    if !negative && value as u128 > half {
        return Err(not_fitting(value as u128, false, size));
    }
    let raw: u128 = if negative {
        largest - below
    } else {
        value as u128
    };
    proof {
        let span = byte_span(size as nat) as int;
        lemma_byte_spans();
        assert(raw == value as int % span) by {
            if negative {
                assert(value + span == raw);
                vstd::arithmetic::div_mod::lemma_mod_add_multiples_vanish(value as int, span);
                vstd::arithmetic::div_mod::lemma_small_mod(raw as nat, span as nat);
            } else {
                vstd::arithmetic::div_mod::lemma_small_mod(raw as nat, span as nat);
            }
        }
    }
    Ok(be_vec(raw, size))
}

/// The unsigned integer in at most sixteen bytes.
fn be_number(bytes: &[u8], start: usize) -> (value: u128)
    requires
        start <= bytes@.len() <= start + 16,
    ensures
        value == be_value(bytes@.skip(start as int)),
{
    let ghost low = bytes@.skip(start as int);
    let mut value: u128 = 0;
    let mut index: usize = start;
    assert(low.take(0) =~= Seq::<u8>::empty());
    while index < bytes.len()
        invariant
            start <= index <= bytes@.len() <= start + 16,
            low == bytes@.skip(start as int),
            value == be_value(low.take(index - start)),
        decreases bytes@.len() - index,
    {
        proof {
            let next = low.take(index - start + 1);
            assert(next.drop_last() =~= low.take(index - start));
            lemma_be_value_bound(next);
            lemma_byte_span_grows(next.len(), 16);
            lemma_byte_spans();
        }
        value = value * 256 + bytes[index] as u128;
        index = index + 1;
    }
    assert(low.take(index - start) =~= low);
    value
}

/// Decodes a big-endian byte slice as an unsigned integer.
fn be_to_u128(bytes: &[u8]) -> (value: u128)
    ensures
        value == unsigned_value(bytes@),
{
    let start: usize = if bytes.len() > 16 {
        bytes.len() - 16
    } else {
        0
    };
    assert(bytes@.skip(start as int) =~= low_bytes(bytes@));
    be_number(bytes, start)
}

/// Decodes a big-endian two's complement byte slice.
fn be_to_i128(bytes: &[u8]) -> (value: i128)
    ensures
        value == signed_value(bytes@),
{
    let start: usize = if bytes.len() > 16 {
        bytes.len() - 16
    } else {
        0
    };
    let ghost low = low_bytes(bytes@);
    assert(bytes@.skip(start as int) =~= low);
    let raw: u128 = be_number(bytes, start);
    let length: usize = bytes.len() - start;
    if length == 0 {
        return 0;
    }
    proof {
        lemma_be_value_bound(low);
        lemma_first_byte(low);
        lemma_byte_span_grows(low.len(), 16);
        lemma_byte_spans();
    }
    if bytes[start] < 128 {
        raw as i128
    } else {
        let largest: u128 = largest_value(length);
        let below: u128 = largest - raw;
        -(below as i128) - 1
    }
}

/// The largest value of a number of bytes.
fn largest_value(length: usize) -> (largest: u128)
    requires
        length <= 16,
    ensures
        largest + 1 == byte_span(length as nat),
    decreases length,
{
    proof {
        lemma_byte_spans();
        lemma_byte_span_grows(length as nat, 16);
    }
    if length == 0 {
        0
    } else {
        256 * largest_value(length - 1) + 255
    }
}

/// A byte sequence is in the upper half of its range exactly where its first
/// byte is.
proof fn lemma_first_byte(bytes: Seq<u8>)
    requires
        bytes.len() > 0,
    ensures
        bytes[0] >= 128 <==> 2 * be_value(bytes) >= byte_span(bytes.len()),
    decreases bytes.len(),
{
    lemma_be_value_bound(bytes);
    reveal_with_fuel(byte_span, 2);
    reveal_with_fuel(be_value, 2);
    if bytes.len() > 1 {
        lemma_first_byte(bytes.drop_last());
    } else {
        assert(bytes.drop_last() =~= Seq::<u8>::empty());
    }
}

fn header_bytes(type_code: u8, size: usize) -> (result: Result<Vec<u8>, Error>)
    requires
        type_code <= 8,
    ensures
        agrees(result, size_header(type_code, size as int)),
{
    let top: u8 = 8 * type_code;
    let mut header: Vec<u8> = Vec::new();
    if type_code == 0 || type_code == 5 {
        header.push(top);
    } else if type_code <= 3 {
        if size <= 1 {
            header.push(top);
        } else if size == 2 {
            header.push(top + 1);
        } else if size == 4 {
            header.push(top + 2);
        } else if size == 8 {
            header.push(top + 3);
        } else if size == 16 {
            header.push(top + 4);
        } else {
            return Err(Error::InvalidArgument(with_decimal("invalid data size ", size as u64)));
        }
    } else if size <= 0xFF {
        header.push(top + 5);
        header.push(size as u8);
    } else if size <= 0xFFFF {
        header.push(top + 6);
        push_be16(&mut header, size as u16);
    } else if size as u64 <= 0xFFFF_FFFF {
        header.push(top + 7);
        push_be32(&mut header, size as u32);
    } else {
        return Err(Error::InvalidArgument(with_decimal("invalid data size ", size as u64)));
    }
    assert(header@ =~= size_header(type_code, size as int)->Ok_0);
    Ok(header)
}

/// A copy of bytes in reverse order.
fn reversed(bytes: &[u8]) -> (copy: Vec<u8>)
    ensures
        copy@ == bytes@.reverse(),
{
    let mut copy: Vec<u8> = Vec::new();
    let mut left: usize = bytes.len();
    while left > 0
        invariant
            left <= bytes@.len(),
            copy@.len() == bytes@.len() - left,
            forall|i: int| 0 <= i < copy@.len() ==> copy@[i] == bytes@[bytes@.len() - 1 - i],
        decreases left,
    {
        left = left - 1;
        copy.push(bytes[left]);
    }
    assert(copy@ =~= bytes@.reverse());
    copy
}

impl DataElement {
    /// The nil element.
    pub fn nil() -> (element: Self)
        ensures
            element@ == DataElementV::Nil,
    {
        DataElement::Nil
    }

    /// An unsigned integer with an explicit byte size (1, 2, 4, 8 or 16).
    pub fn unsigned_integer(value: u128, size: u8) -> (element: Self)
        ensures
            element@ == (DataElementV::UnsignedInteger { value, size }),
    {
        DataElement::UnsignedInteger { value, size }
    }

    /// An 8-bit unsigned integer.
    pub fn unsigned_integer_8(value: u8) -> (element: Self)
        ensures
            element@ == (DataElementV::UnsignedInteger { value: value as u128, size: 1 }),
    {
        DataElement::UnsignedInteger { value: value as u128, size: 1 }
    }

    /// A 16-bit unsigned integer.
    pub fn unsigned_integer_16(value: u16) -> (element: Self)
        ensures
            element@ == (DataElementV::UnsignedInteger { value: value as u128, size: 2 }),
    {
        DataElement::UnsignedInteger { value: value as u128, size: 2 }
    }

    /// A 32-bit unsigned integer.
    pub fn unsigned_integer_32(value: u32) -> (element: Self)
        ensures
            element@ == (DataElementV::UnsignedInteger { value: value as u128, size: 4 }),
    {
        DataElement::UnsignedInteger { value: value as u128, size: 4 }
    }

    /// A signed integer with an explicit byte size (1, 2, 4, 8 or 16).
    pub fn signed_integer(value: i128, size: u8) -> (element: Self)
        ensures
            element@ == (DataElementV::SignedInteger { value, size }),
    {
        DataElement::SignedInteger { value, size }
    }

    /// An 8-bit signed integer.
    pub fn signed_integer_8(value: i8) -> (element: Self)
        ensures
            element@ == (DataElementV::SignedInteger { value: value as i128, size: 1 }),
    {
        DataElement::SignedInteger { value: value as i128, size: 1 }
    }

    /// A 16-bit signed integer.
    pub fn signed_integer_16(value: i16) -> (element: Self)
        ensures
            element@ == (DataElementV::SignedInteger { value: value as i128, size: 2 }),
    {
        DataElement::SignedInteger { value: value as i128, size: 2 }
    }

    /// A 32-bit signed integer.
    pub fn signed_integer_32(value: i32) -> (element: Self)
        ensures
            element@ == (DataElementV::SignedInteger { value: value as i128, size: 4 }),
    {
        DataElement::SignedInteger { value: value as i128, size: 4 }
    }

    /// A UUID element.
    pub fn uuid(value: Uuid) -> (element: Self)
        ensures
            element@ == DataElementV::Uuid(value@),
    {
        DataElement::Uuid(value)
    }

    /// A text-string element.
    pub fn text_string(value: Vec<u8>) -> (element: Self)
        ensures
            element@ == DataElementV::TextString(value@),
    {
        DataElement::TextString(value)
    }

    /// A boolean element.
    pub fn boolean(value: bool) -> (element: Self)
        ensures
            element@ == DataElementV::Boolean(value),
    {
        DataElement::Boolean(value)
    }

    /// A sequence element.
    pub fn sequence(elements: Vec<DataElement>) -> (element: Self)
        ensures
            element@ == DataElementV::Sequence(element_views(elements@)),
    {
        proof {
            lemma_sequence_model(elements);
        }
        DataElement::Sequence(elements)
    }

    /// An alternative element.
    pub fn alternative(elements: Vec<DataElement>) -> (element: Self)
        ensures
            element@ == DataElementV::Alternative(element_views(elements@)),
    {
        proof {
            lemma_sequence_model(elements);
        }
        DataElement::Alternative(elements)
    }

    /// A URL element.
    pub fn url(value: String) -> (element: Self)
        ensures
            element@ == DataElementV::Url(value@),
    {
        DataElement::Url(value)
    }

    /// The element's type code (the top five bits of the header byte).
    pub fn type_code(&self) -> (code: u8)
        ensures
            code == self@.type_code(),
            code <= 8,
    {
        match self {
            DataElement::Nil => 0,
            DataElement::UnsignedInteger { .. } => 1,
            DataElement::SignedInteger { .. } => 2,
            DataElement::Uuid(_) => 3,
            DataElement::TextString(_) => 4,
            DataElement::Boolean(_) => 5,
            DataElement::Sequence(_) => 6,
            DataElement::Alternative(_) => 7,
            DataElement::Url(_) => 8,
        }
    }

    /// The bytes of the element and of all that it holds.
    pub fn to_bytes(&self) -> (result: Result<Vec<u8>, Error>)
        ensures
            agrees(result, self@.encode()),
        decreases self, 1nat,
    {
        match self.value_bytes() {
            Err(error) => Err(error),
            Ok(data) => match header_bytes(self.type_code(), data.len()) {
                Err(error) => Err(error),
                Ok(header) => {
                    let mut bytes = header;
                    append_bytes(&mut bytes, &data);
                    Ok(bytes)
                },
            },
        }
    }

    fn value_bytes(&self) -> (result: Result<Vec<u8>, Error>)
        ensures
            agrees(result, self@.value_bytes()),
        decreases self, 0nat,
    {
        match self {
            DataElement::Nil => Ok(Vec::new()),
            DataElement::UnsignedInteger { value, size } => unsigned_to_bytes(*value, *size),
            DataElement::SignedInteger { value, size } => signed_to_bytes(*value, *size),
            DataElement::Uuid(uuid) => Ok(reversed(uuid.as_le_bytes())),
            DataElement::TextString(bytes) => Ok(copy_bytes(bytes)),
            DataElement::Boolean(value) => {
                let mut bytes: Vec<u8> = Vec::new();
                if *value {
                    bytes.push(1);
                } else {
                    bytes.push(0);
                }
                assert(bytes@ =~= self@.value_bytes()->Ok_0);
                Ok(bytes)
            },
            DataElement::Sequence(elements) => {
                proof {
                    lemma_sequence_model(*elements);
                }
                DataElement::join(elements)
            },
            DataElement::Alternative(elements) => {
                proof {
                    lemma_sequence_model(*elements);
                }
                DataElement::join(elements)
            },
            DataElement::Url(url) => Ok(copy_bytes(url.as_str().as_bytes())),
        }
    }

    fn join(elements: &Vec<DataElement>) -> (result: Result<Vec<u8>, Error>)
        ensures
            agrees(
                result,
                encode_elements(element_views(elements@), element_views(elements@).len()),
            ),
        decreases elements, 2nat,
    {
        let mut data: Vec<u8> = Vec::new();
        let mut index: usize = 0;
        let ghost models = element_views(elements@);
        while index < elements.len()
            invariant
                index <= elements@.len(),
                models == element_views(elements@),
                encode_elements(models, index as nat) == Ok::<Seq<u8>, ErrorV>(data@),
            decreases elements@.len() - index,
        {
            assert(models[index as int] == elements@[index as int]@);
            proof {
                lemma_encode_elements_stop(models, (index + 1) as nat, models.len());
            }
            let element = &elements[index];
            assert(decreases_to!(elements => element));
            match element.to_bytes() {
                Err(error) => {
                    return Err(error);
                },
                Ok(bytes) => {
                    append_bytes(&mut data, &bytes);
                },
            }
            index = index + 1;
        }
        Ok(data)
    }

    /// Reads the element at `offset`, and returns the position after it with it.
    pub fn parse_from_bytes(data: &[u8], offset: usize) -> (result: Result<
        (usize, DataElement),
        Error,
    >)
        ensures
            parse_agrees(result, parse_element(data@, offset as int, 0)),
    {
        parse_at(data, offset, 0)
    }

    /// Reads the element at the front of `data`; bytes after it are ignored.
    pub fn from_bytes(data: &[u8]) -> (result: Result<DataElement, Error>)
        ensures
            agrees(
                result,
                match parse_element(data@, 0, 0) {
                    Ok((_, element)) => Ok(element),
                    Err(error) => Err(error),
                },
            ),
    {
        match DataElement::parse_from_bytes(data, 0) {
            Ok((_, element)) => Ok(element),
            Err(error) => Err(error),
        }
    }

    /// An element with the same contents.
    pub fn copy(&self) -> (element: DataElement)
        ensures
            element@ == self@,
        decreases self,
    {
        match self {
            DataElement::Nil => DataElement::Nil,
            DataElement::UnsignedInteger { value, size } => DataElement::UnsignedInteger {
                value: *value,
                size: *size,
            },
            DataElement::SignedInteger { value, size } => DataElement::SignedInteger {
                value: *value,
                size: *size,
            },
            DataElement::Uuid(uuid) => DataElement::Uuid(uuid.copy()),
            DataElement::TextString(bytes) => DataElement::TextString(copy_bytes(bytes)),
            DataElement::Boolean(value) => DataElement::Boolean(*value),
            DataElement::Sequence(elements) => {
                proof {
                    lemma_sequence_model(*elements);
                }
                DataElement::sequence(DataElement::copy_all(elements))
            },
            DataElement::Alternative(elements) => {
                proof {
                    lemma_sequence_model(*elements);
                }
                DataElement::alternative(DataElement::copy_all(elements))
            },
            DataElement::Url(url) => DataElement::Url(url.as_str().to_owned()),
        }
    }

    /// Elements with the same contents.
    pub fn copy_all(elements: &Vec<DataElement>) -> (copies: Vec<DataElement>)
        ensures
            element_views(copies@) == element_views(elements@),
        decreases elements,
    {
        let mut copies: Vec<DataElement> = Vec::new();
        let mut index: usize = 0;
        while index < elements.len()
            invariant
                index <= elements@.len(),
                copies@.len() == index,
                forall|i: int| 0 <= i < index ==> (#[trigger] copies@[i])@ == elements@[i]@,
            decreases elements@.len() - index,
        {
            let element = &elements[index];
            assert(decreases_to!(elements => element));
            copies.push(element.copy());
            index = index + 1;
        }
        assert(element_views(copies@) =~= element_views(elements@));
        copies
    }
}

impl Clone for DataElement {
    fn clone(&self) -> (element: Self)
        ensures
            element@ == self@,
    {
        self.copy()
    }
}

proof fn lemma_encode_elements_stop(elements: Seq<DataElementV>, at: nat, count: nat)
    requires
        at <= count <= elements.len(),
    ensures
        encode_elements(elements, at) is Err ==> encode_elements(elements, count)
            == encode_elements(elements, at),
    decreases count,
{
    if at < count {
        lemma_encode_elements_stop(elements, at, (count - 1) as nat);
    }
}

fn read_extent(data: &[u8], offset: usize) -> (result: Result<(usize, usize), Error>)
    requires
        offset < data@.len(),
    ensures
        match (result, value_extent(data@, offset as int)) {
            (Ok((size, start)), Ok((model_size, model_start))) => size == model_size && start
                == model_start && start <= data@.len(),
            (Err(error), Err(model)) => error@ == model,
            _ => false,
        },
{
    let header: u8 = data[offset];
    let start: usize = offset + 1;
    match header % 8 {
        0 => if header / 8 == 0 {
            Ok((0, start))
        } else {
            Ok((1, start))
        },
        1 => Ok((2, start)),
        2 => Ok((4, start)),
        3 => Ok((8, start)),
        4 => Ok((16, start)),
        5 => {
            if data.len() - start < 1 {
                return Err(Error::packet("truncated 1-byte size"));
            }
            Ok((data[start] as usize, start + 1))
        },
        6 => {
            if data.len() - start < 2 {
                return Err(Error::packet("truncated 2-byte size"));
            }
            Ok((read_be16(data, start) as usize, start + 2))
        },
        _ => {
            if data.len() - start < 4 {
                return Err(Error::packet("truncated 4-byte size"));
            }
            Ok((read_be32(data, start) as usize, start + 4))
        },
    }
}

fn read_plain(type_code: u8, value: &[u8]) -> (result: Result<DataElement, Error>)
    ensures
        agrees(result, parse_plain(type_code as int, value@)),
{
    let length: usize = value.len();
    if (type_code == 1 || type_code == 2) && length != 1 && length != 2 && length != 4 && length
        != 8 && length != 16 {
        return Err(Error::InvalidPacket(with_decimal("invalid integer size ", length as u64)));
    }
    let size: u8 = (length % 256) as u8;
    match type_code {
        0 => Ok(DataElement::Nil),
        1 => Ok(DataElement::UnsignedInteger { value: be_to_u128(value), size }),
        2 => Ok(DataElement::SignedInteger { value: be_to_i128(value), size }),
        3 => {
            let bytes_le = reversed(value);
            match Uuid::from_le_bytes(&bytes_le) {
                Ok(uuid) => Ok(DataElement::Uuid(uuid)),
                Err(error) => {
                    let mut reason = "bad UUID: ".to_owned();
                    reason.append(error.message().as_str());
                    Err(Error::InvalidPacket(reason))
                },
            }
        },
        4 => Ok(DataElement::TextString(copy_bytes(value))),
        5 => Ok(DataElement::Boolean(value.len() > 0 && value[0] == 1)),
        8 => match utf8_text(copy_bytes(value)) {
            Ok(url) => Ok(DataElement::Url(url)),
            Err(fault) => {
                let mut reason = "bad URL utf-8: ".to_owned();
                reason.append(fault.as_str());
                Err(Error::InvalidPacket(reason))
            },
        },
        _ => Err(
            Error::InvalidPacket(with_decimal("unsupported data element type ", type_code as u64)),
        ),
    }
}

fn parse_at(data: &[u8], offset: usize, depth: usize) -> (result: Result<
    (usize, DataElement),
    Error,
>)
    requires
        depth <= MAX_NESTING,
    ensures
        parse_agrees(result, parse_element(data@, offset as int, depth as nat)),
    decreases data@.len() - offset, 0nat,
{
    if offset >= data.len() {
        let mut reason = with_decimal("offset ", offset as u64);
        reason.append(" exceeds len ");
        reason.append(decimal_text(data.len() as u64).as_str());
        return Err(Error::InvalidPacket(reason));
    }
    let type_code: u8 = data[offset] / 8;
    let (size, start) = match read_extent(data, offset) {
        Err(error) => {
            return Err(error);
        },
        Ok(extent) => extent,
    };
    if data.len() - start < size {
        let mut reason = with_decimal("element value (", size as u64);
        reason.append(" bytes at ");
        reason.append(decimal_text(start as u64).as_str());
        reason.append(") runs past end");
        return Err(Error::InvalidPacket(reason));
    }
    let end: usize = start + size;
    if type_code == 6 || type_code == 7 {
        if depth >= MAX_NESTING {
            return Err(Error::packet("nesting exceeds max depth (32)"));
        }
        let (inner, children) = match parse_inner(data, start, end, depth + 1) {
            Err(error) => {
                return Err(error);
            },
            Ok(children) => children,
        };
        if inner != end {
            return Err(Error::packet("container elements overran their length"));
        }
        if type_code == 6 {
            Ok((end, DataElement::sequence(children)))
        } else {
            Ok((end, DataElement::alternative(children)))
        }
    } else {
        match read_plain(type_code, slice_subrange(data, start, end)) {
            Err(error) => Err(error),
            Ok(element) => Ok((end, element)),
        }
    }
}

fn parse_inner(data: &[u8], start: usize, end: usize, depth: usize) -> (result: Result<
    (usize, Vec<DataElement>),
    Error,
>)
    requires
        depth <= MAX_NESTING,
        start <= end <= data@.len(),
    ensures
        match (result, parse_children(data@, start as int, end as int, depth as nat)) {
            (Ok((last, children)), Ok((model_last, model))) => last == model_last && element_views(
                children@,
            ) == model,
            (Err(error), Err(model)) => error@ == model,
            _ => false,
        },
    decreases data@.len() - start, 1nat,
{
    let mut children: Vec<DataElement> = Vec::new();
    let mut at: usize = start;
    let ghost whole = parse_children(data@, start as int, end as int, depth as nat);
    proof {
        if whole is Ok {
            assert(element_views(children@) + whole->Ok_0.1 =~= whole->Ok_0.1);
        }
    }
    while at < end
        invariant
            depth <= MAX_NESTING,
            start <= at <= data@.len(),
            end <= data@.len(),
            whole == parse_children(data@, start as int, end as int, depth as nat),
            match parse_children(data@, at as int, end as int, depth as nat) {
                Ok((last, rest)) => whole == Ok::<(int, Seq<DataElementV>), ErrorV>(
                    (last, element_views(children@) + rest),
                ),
                Err(error) => whole == Err::<(int, Seq<DataElementV>), ErrorV>(error),
            },
        decreases data@.len() - at,
    {
        proof {
            lemma_element_end(data@, at as int, depth as nat);
        }
        match parse_at(data, at, depth) {
            Err(error) => {
                return Err(error);
            },
            Ok((next, child)) => {
                let ghost before = element_views(children@);
                let ghost model = child@;
                children.push(child);
                proof {
                    assert(element_views(children@) =~= before.push(model));
                    if let Ok((last, rest)) = parse_children(
                        data@,
                        next as int,
                        end as int,
                        depth as nat,
                    ) {
                        assert(before + (seq![model] + rest) =~= element_views(children@) + rest);
                    }
                }
                at = next;
            },
        }
    }
    assert(element_views(children@) + Seq::<DataElementV>::empty() =~= element_views(children@));
    Ok((at, children))
}

} // verus!
