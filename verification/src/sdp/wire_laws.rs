//! What elements and units look like byte for byte, which records and attributes
//! a request means, and how much goes into one answer.

use vstd::prelude::*;
use vstd::utf8::encode_utf8;

use super::attribute::{
    attribute_value, attribute_views, attributes_of, uuid_in, ServiceAttribute, ServiceAttributeV,
};
use super::client::{
    attribute_part, collected, lists_of, parsed_list, parsed_lists, request_at,
    search_attribute_part, search_part, state_of, AttributeId, ClientErrorV, QueryV, Reply,
    CONTINUATION_WATCHDOG,
};
use super::element::{
    be_bytes, byte_span, encode_elements, parse_element, parse_plain, size_header, DataElementV,
};
use super::pdu::{handle_bytes, SdpPduV};
use super::server::{
    attribute_lists, element_bytes, matching, named, record_matches, record_with, selected, selects,
    CurrentResponseV, SdpServer, SdpServerV, ServiceRecordV,
};
use super::ErrorV;
use crate::values::expanded_uuid;

verus! {

/// The two bytes of a number, most significant first.
pub open spec fn pair(number: int) -> Seq<u8> {
    seq![(number / 256 % 256) as u8, (number % 256) as u8]
}

/// The four bytes of a number, most significant first.
pub open spec fn quad(number: int) -> Seq<u8> {
    pair(number / 65536) + pair(number)
}

/// Elements that hold no others: nil is 0x00, a boolean 0x28 and a byte, an
/// unsigned integer 0x08 to 0x0A with one, two or four bytes, a UUID 0x19, 0x1A or
/// 0x1C with its bytes, a text 0x25 with its length, and a URL 0x45 likewise. The
/// most significant byte comes first.
pub proof fn plain_elements_have_their_bytes(
    value: u128,
    uuid: Seq<u8>,
    text: Seq<u8>,
    url: Seq<char>,
)
    requires
        text.len() <= 255,
        encode_utf8(url).len() <= 255,
    ensures
        DataElementV::Nil.encode() == Ok::<Seq<u8>, ErrorV>(seq![0x00u8]),
        DataElementV::Boolean(false).encode() == Ok::<Seq<u8>, ErrorV>(seq![0x28u8, 0]),
        DataElementV::Boolean(true).encode() == Ok::<Seq<u8>, ErrorV>(seq![0x28u8, 1]),
        value < 0x100 ==> (DataElementV::UnsignedInteger { value, size: 1 }).encode() == Ok::<
            Seq<u8>,
            ErrorV,
        >(seq![0x08u8, value as u8]),
        value < 0x1_0000 ==> (DataElementV::UnsignedInteger { value, size: 2 }).encode() == Ok::<
            Seq<u8>,
            ErrorV,
        >(seq![0x09u8] + pair(value as int)),
        value < 0x1_0000_0000 ==> (DataElementV::UnsignedInteger { value, size: 4 }).encode()
            == Ok::<Seq<u8>, ErrorV>(seq![0x0Au8] + quad(value as int)),
        uuid.len() == 2 ==> DataElementV::Uuid(uuid).encode() == Ok::<Seq<u8>, ErrorV>(
            seq![0x19u8, uuid[1], uuid[0]],
        ),
        uuid.len() == 4 ==> DataElementV::Uuid(uuid).encode() == Ok::<Seq<u8>, ErrorV>(
            seq![0x1Au8, uuid[3], uuid[2], uuid[1], uuid[0]],
        ),
        uuid.len() == 16 ==> DataElementV::Uuid(uuid).encode() == Ok::<Seq<u8>, ErrorV>(
            seq![0x1Cu8] + uuid.reverse(),
        ),
        DataElementV::TextString(text).encode() == Ok::<Seq<u8>, ErrorV>(
            seq![0x25u8, text.len() as u8] + text,
        ),
        DataElementV::Url(url).encode() == Ok::<Seq<u8>, ErrorV>(
            seq![0x45u8, encode_utf8(url).len() as u8] + encode_utf8(url),
        ),
{
    reveal_with_fuel(byte_span, 5);
    reveal_with_fuel(be_bytes, 5);
    assert(DataElementV::Nil.encode()->Ok_0 =~= seq![0x00u8]);
    assert(DataElementV::Boolean(false).encode()->Ok_0 =~= seq![0x28u8, 0]);
    assert(DataElementV::Boolean(true).encode()->Ok_0 =~= seq![0x28u8, 1]);
    let number = value as nat;
    if value < 0x100 {
        assert(be_bytes(number, 1) =~= seq![value as u8]);
        assert((DataElementV::UnsignedInteger { value, size: 1 }).encode()->Ok_0 =~= seq![
            0x08u8,
            value as u8,
        ]);
    }
    if value < 0x1_0000 {
        assert(be_bytes(number, 2) =~= pair(value as int));
        assert((DataElementV::UnsignedInteger { value, size: 2 }).encode()->Ok_0 =~= seq![0x09u8]
            + pair(value as int));
    }
    if value < 0x1_0000_0000 {
        assert(number / 256 / 256 == number / 65536);
        assert(number / 256 / 256 / 256 == number / 65536 / 256);
        assert(be_bytes(number, 4) =~= quad(value as int));
        assert((DataElementV::UnsignedInteger { value, size: 4 }).encode()->Ok_0 =~= seq![0x0Au8]
            + quad(value as int));
    }
    if uuid.len() == 2 {
        assert(DataElementV::Uuid(uuid).encode()->Ok_0 =~= seq![0x19u8, uuid[1], uuid[0]]);
    }
    if uuid.len() == 4 {
        assert(DataElementV::Uuid(uuid).encode()->Ok_0 =~= seq![
            0x1Au8,
            uuid[3],
            uuid[2],
            uuid[1],
            uuid[0],
        ]);
    }
}

/// A sequence is 0x35 with its length in one byte, 0x36 with its length in two,
/// or 0x37 with its length in four, and an alternative 0x3D to 0x3F, followed by
/// their elements in order. A text is likewise 0x26 or 0x27 where it is long.
pub proof fn containers_have_their_bytes(
    elements: Seq<DataElementV>,
    more: DataElementV,
    inner: Seq<u8>,
    last: Seq<u8>,
    text: Seq<u8>,
)
    requires
        encode_elements(elements, elements.len()) == Ok::<Seq<u8>, ErrorV>(inner),
        more.encode() == Ok::<Seq<u8>, ErrorV>(last),
    ensures
        encode_elements(seq![], 0) == Ok::<Seq<u8>, ErrorV>(seq![]),
        encode_elements(elements.push(more), elements.len() + 1) == Ok::<Seq<u8>, ErrorV>(
            inner + last,
        ),
        inner.len() <= 0xFF ==> DataElementV::Sequence(elements).encode() == Ok::<Seq<u8>, ErrorV>(
            seq![0x35u8, inner.len() as u8] + inner,
        ),
        0xFF < inner.len() <= 0xFFFF ==> DataElementV::Sequence(elements).encode() == Ok::<
            Seq<u8>,
            ErrorV,
        >(seq![0x36u8] + pair(inner.len() as int) + inner),
        0xFFFF < inner.len() <= 0xFFFF_FFFF ==> DataElementV::Sequence(elements).encode() == Ok::<
            Seq<u8>,
            ErrorV,
        >(seq![0x37u8] + quad(inner.len() as int) + inner),
        inner.len() <= 0xFF ==> DataElementV::Alternative(elements).encode() == Ok::<
            Seq<u8>,
            ErrorV,
        >(seq![0x3Du8, inner.len() as u8] + inner),
        0xFF < inner.len() <= 0xFFFF ==> DataElementV::Alternative(elements).encode() == Ok::<
            Seq<u8>,
            ErrorV,
        >(seq![0x3Eu8] + pair(inner.len() as int) + inner),
        0xFF < text.len() <= 0xFFFF ==> DataElementV::TextString(text).encode() == Ok::<
            Seq<u8>,
            ErrorV,
        >(seq![0x26u8] + pair(text.len() as int) + text),
        0xFFFF < text.len() <= 0xFFFF_FFFF ==> DataElementV::TextString(text).encode() == Ok::<
            Seq<u8>,
            ErrorV,
        >(seq![0x27u8] + quad(text.len() as int) + text),
{
    let all = elements.push(more);
    lemma_same_front(elements, all, elements.len());
    assert(all[elements.len() as int] == more);
    lemma_long_header(6, inner.len() as int);
    lemma_long_header(7, inner.len() as int);
    lemma_long_header(4, text.len() as int);
}

proof fn lemma_long_header(type_code: u8, size: int)
    requires
        type_code == 4 || type_code == 6 || type_code == 7,
        0 <= size,
    ensures
        0xFF < size <= 0xFFFF ==> size_header(type_code, size) == Ok::<Seq<u8>, ErrorV>(
            seq![(8 * type_code + 6) as u8] + pair(size),
        ),
        0xFFFF < size <= 0xFFFF_FFFF ==> size_header(type_code, size) == Ok::<Seq<u8>, ErrorV>(
            seq![(8 * type_code + 7) as u8] + quad(size),
        ),
{
    if 0xFF < size <= 0xFFFF {
        assert(crate::bytes::be16(size as u16) =~= pair(size));
    }
    if 0xFFFF < size <= 0xFFFF_FFFF {
        assert(crate::bytes::be32(size as u32) =~= quad(size));
    }
}

proof fn lemma_same_front(left: Seq<DataElementV>, right: Seq<DataElementV>, count: nat)
    requires
        count <= left.len(),
        count <= right.len(),
        forall|i: int| 0 <= i < count ==> left[i] == right[i],
    ensures
        encode_elements(left, count) == encode_elements(right, count),
    decreases count,
{
    if count > 0 {
        lemma_same_front(left, right, (count - 1) as nat);
    }
}

/// Integers have one, two, four, eight or sixteen bytes, and a value that does
/// not fit is not written.
pub proof fn integers_must_fit(value: u128, size: u8)
    ensures
        ({
            let result = (DataElementV::UnsignedInteger { value, size }).encode();
            &&& size != 1 && size != 2 && size != 4 && size != 8 && size != 16 ==> result is Err
            &&& size == 1 && value > 0xFF ==> result is Err
            &&& size == 2 && value > 0xFFFF ==> result is Err
            &&& size == 4 && value > 0xFFFF_FFFF ==> result is Err
            &&& size == 8 && value > 0xFFFF_FFFF_FFFF_FFFF ==> result is Err
        }),
{
    reveal_with_fuel(byte_span, 9);
}

/// A signed integer is written in two's complement: one that is not negative as
/// the unsigned integer of the same value, a negative one as the unsigned integer
/// that is larger by all that the bytes can hold. One that does not fit is not
/// written.
pub proof fn signed_integers_are_twos_complement(value: i128, size: u8)
    requires
        size == 1 || size == 2 || size == 4,
    ensures
        ({
            let span: int = if size == 1 {
                0x100
            } else if size == 2 {
                0x1_0000
            } else {
                0x1_0000_0000
            };
            let result = (DataElementV::SignedInteger { value, size }).value_bytes();
            &&& result is Ok <==> -span <= 2 * value < span
            &&& 0 <= value && 2 * value < span ==> result == (DataElementV::UnsignedInteger {
                value: value as u128,
                size,
            }).value_bytes()
            &&& value < 0 && -span <= 2 * value ==> result == (DataElementV::UnsignedInteger {
                value: (value + span) as u128,
                size,
            }).value_bytes()
            &&& (DataElementV::SignedInteger { value, size }).type_code() == 2
        }),
{
    reveal_with_fuel(byte_span, 5);
    let span = byte_span(size as nat) as int;
    if 0 <= value && 2 * value < span {
        vstd::arithmetic::div_mod::lemma_small_mod(value as nat, span as nat);
    }
    if value < 0 && -span <= 2 * value {
        vstd::arithmetic::div_mod::lemma_mod_add_multiples_vanish(value as int, span);
        vstd::arithmetic::div_mod::lemma_small_mod((value + span) as nat, span as nat);
    }
}

/// A container inside 32 others is refused, and so are types above eight and
/// integers of a size that none has.
pub proof fn unsupported_elements_are_refused(data: Seq<u8>, depth: nat, value: Seq<u8>, code: int)
    requires
        data.len() > 0,
    ensures
        depth >= 32 && (data[0] / 8 == 6 || data[0] / 8 == 7) ==> parse_element(data, 0, depth)
            is Err,
        data[0] / 8 > 8 ==> parse_element(data, 0, depth) is Err,
        code == 1 || code == 2 ==> (parse_plain(code, value) is Ok <==> value.len() == 1
            || value.len() == 2 || value.len() == 4 || value.len() == 8 || value.len() == 16),
        code == 3 ==> (parse_plain(code, value) is Ok <==> value.len() == 2 || value.len() == 4
            || value.len() == 16),
        parse_plain(5, value) == Ok::<DataElementV, ErrorV>(
            DataElementV::Boolean(value.len() > 0 && value[0] == 1),
        ),
{
}

/// A unit: its identifier, its transaction and its length in front of its
/// parameters.
pub open spec fn unit(id: u8, transaction: u16, parameters: Seq<u8>) -> Result<Seq<u8>, ErrorV> {
    Ok(seq![id] + pair(transaction as int) + pair(parameters.len() as int) + parameters)
}

proof fn lemma_numbers(small: u16, wide: u32)
    ensures
        crate::bytes::be16(small) == pair(small as int),
        crate::bytes::be32(wide) == quad(wide as int),
{
    assert(crate::bytes::be16(small) =~= pair(small as int));
    assert(crate::bytes::be32(wide) =~= quad(wide as int));
}

proof fn lemma_unit(pdu: SdpPduV, parameters: Seq<u8>)
    requires
        pdu.parameters() == Ok::<Seq<u8>, ErrorV>(parameters),
        parameters.len() < 65536,
    ensures
        pdu.encode() == unit(pdu.pdu_id(), pdu.transaction_id(), parameters),
{
    lemma_numbers(pdu.transaction_id(), 0);
    lemma_numbers(parameters.len() as u16, 0);
}

/// Errors and responses with attributes have the identifiers 1, 5 and 7. The code
/// of an error has its least significant byte first; all else has its most
/// significant byte first.
pub proof fn responses_have_their_bytes(
    transaction: u16,
    code: u16,
    bytes: Seq<u8>,
    state: Seq<u8>,
)
    requires
        bytes.len() + state.len() < 65000,
    ensures
        (SdpPduV::ErrorResponse { transaction_id: transaction, error_code: code }).encode() == unit(
            0x01,
            transaction,
            seq![(code % 256) as u8, (code / 256) as u8],
        ),
        (SdpPduV::ServiceAttributeResponse {
            transaction_id: transaction,
            attribute_list: bytes,
            continuation_state: state,
        }).encode() == unit(0x05, transaction, pair(bytes.len() as int) + bytes + state),
        (SdpPduV::ServiceSearchAttributeResponse {
            transaction_id: transaction,
            attribute_lists: bytes,
            continuation_state: state,
        }).encode() == unit(0x07, transaction, pair(bytes.len() as int) + bytes + state),
{
    lemma_numbers(bytes.len() as u16, 0);
    let error = SdpPduV::ErrorResponse { transaction_id: transaction, error_code: code };
    assert(crate::bytes::le16(code) =~= seq![(code % 256) as u8, (code / 256) as u8]);
    lemma_unit(error, crate::bytes::le16(code));
    let list = SdpPduV::ServiceAttributeResponse {
        transaction_id: transaction,
        attribute_list: bytes,
        continuation_state: state,
    };
    lemma_unit(list, pair(bytes.len() as int) + bytes + state);
    let lists = SdpPduV::ServiceSearchAttributeResponse {
        transaction_id: transaction,
        attribute_lists: bytes,
        continuation_state: state,
    };
    lemma_unit(lists, pair(bytes.len() as int) + bytes + state);
}

proof fn lemma_handle(handles: Seq<u32>)
    requires
        handles.len() > 0,
    ensures
        handle_bytes(handles) == handle_bytes(handles.drop_last()) + quad(handles.last() as int),
{
    lemma_numbers(0, handles.last());
}

/// A response with record handles has the identifier 3: the number of all found
/// records, the number of handles that follow, and these in order.
#[verifier::spinoff_prover]
pub proof fn handle_responses_have_their_bytes(
    transaction: u16,
    handles: Seq<u32>,
    total: u16,
    state: Seq<u8>,
)
    requires
        4 * handles.len() + state.len() < 65000,
    ensures
        (SdpPduV::ServiceSearchResponse {
            transaction_id: transaction,
            total_service_record_count: total,
            service_record_handle_list: handles,
            continuation_state: state,
        }).encode() == unit(
            0x03,
            transaction,
            pair(total as int) + pair(handles.len() as int) + handle_bytes(handles) + state,
        ),
        handles.len() == 0 ==> handle_bytes(handles).len() == 0,
        handles.len() > 0 ==> handle_bytes(handles) == handle_bytes(handles.drop_last()) + quad(
            handles.last() as int,
        ),
{
    if handles.len() > 0 {
        lemma_handle(handles);
    }
    assert(handle_bytes(handles).len() == 4 * handles.len()) by {
        super::pdu::lemma_handle_bytes(handles);
    }
    lemma_numbers(total, 0);
    lemma_numbers(handles.len() as u16, 0);
    let found = SdpPduV::ServiceSearchResponse {
        transaction_id: transaction,
        total_service_record_count: total,
        service_record_handle_list: handles,
        continuation_state: state,
    };
    lemma_unit(
        found,
        pair(total as int) + pair(handles.len() as int) + handle_bytes(handles) + state,
    );
}

/// Requests have the identifiers 2, 4 and 6. They name what they want, how much of
/// it they take, and where to go on.
pub proof fn requests_have_their_bytes(
    transaction: u16,
    pattern: DataElementV,
    ids: DataElementV,
    wanted: Seq<u8>,
    listed: Seq<u8>,
    maximum: u16,
    handle: u32,
    state: Seq<u8>,
)
    requires
        pattern.encode() == Ok::<Seq<u8>, ErrorV>(wanted),
        ids.encode() == Ok::<Seq<u8>, ErrorV>(listed),
        wanted.len() + listed.len() + state.len() < 65000,
    ensures
        (SdpPduV::ServiceSearchRequest {
            transaction_id: transaction,
            service_search_pattern: pattern,
            maximum_service_record_count: maximum,
            continuation_state: state,
        }).encode() == unit(0x02, transaction, wanted + pair(maximum as int) + state),
        (SdpPduV::ServiceAttributeRequest {
            transaction_id: transaction,
            service_record_handle: handle,
            maximum_attribute_byte_count: maximum,
            attribute_id_list: ids,
            continuation_state: state,
        }).encode() == unit(
            0x04,
            transaction,
            quad(handle as int) + pair(maximum as int) + listed + state,
        ),
        (SdpPduV::ServiceSearchAttributeRequest {
            transaction_id: transaction,
            service_search_pattern: pattern,
            maximum_attribute_byte_count: maximum,
            attribute_id_list: ids,
            continuation_state: state,
        }).encode() == unit(
            0x06,
            transaction,
            wanted + pair(maximum as int) + listed + state,
        ),
{
    lemma_numbers(maximum, handle);
    let search = SdpPduV::ServiceSearchRequest {
        transaction_id: transaction,
        service_search_pattern: pattern,
        maximum_service_record_count: maximum,
        continuation_state: state,
    };
    lemma_unit(search, wanted + pair(maximum as int) + state);
    let record = SdpPduV::ServiceAttributeRequest {
        transaction_id: transaction,
        service_record_handle: handle,
        maximum_attribute_byte_count: maximum,
        attribute_id_list: ids,
        continuation_state: state,
    };
    lemma_unit(record, quad(handle as int) + pair(maximum as int) + listed + state);
    let both = SdpPduV::ServiceSearchAttributeRequest {
        transaction_id: transaction,
        service_search_pattern: pattern,
        maximum_attribute_byte_count: maximum,
        attribute_id_list: ids,
        continuation_state: state,
    };
    lemma_unit(both, wanted + pair(maximum as int) + listed + state);
}

/// A unit that is shorter than its header, or than the header says, is refused;
/// so is one with an identifier that none has.
pub proof fn broken_units_are_refused(unit: Seq<u8>)
    ensures
        unit.len() < 5 ==> SdpPduV::decode(unit) is Err,
        unit.len() >= 5 && unit.len() < 5 + 256 * unit[3] + unit[4] ==> SdpPduV::decode(unit)
            is Err,
        unit.len() >= 5 && (unit[0] == 0 || unit[0] > 7) ==> SdpPduV::decode(unit) is Err,
{
    reveal(SdpPduV::from_parameters);
}

/// A record is found by a pattern exactly where one of its attributes holds one
/// of the pattern's UUIDs, and the found records stand in the server's order.
pub proof fn records_are_found(records: Seq<ServiceRecordV>, pattern: DataElementV)
    ensures
        matching(records, pattern) == records.filter(
            |record: ServiceRecordV|
                pattern matches DataElementV::Sequence(elements) && exists|i: int, j: int|
                    0 <= i < elements.len() && 0 <= j < record.attributes.len() && (
                    #[trigger] elements[i] matches DataElementV::Uuid(uuid) && uuid_in(
                        uuid,
                        (#[trigger] record.attributes[j]).value,
                    )),
        ),
    decreases records.len(),
{
    let found = |record: ServiceRecordV|
        pattern matches DataElementV::Sequence(elements) && exists|i: int, j: int|
            0 <= i < elements.len() && 0 <= j < record.attributes.len() && (
            #[trigger] elements[i] matches DataElementV::Uuid(uuid) && uuid_in(
                uuid,
                (#[trigger] record.attributes[j]).value,
            ));
    reveal(Seq::filter);
    if records.len() > 0 {
        records_are_found(records.drop_last(), pattern);
        lemma_found(pattern, records.last());
    }
}

proof fn lemma_found(pattern: DataElementV, record: ServiceRecordV)
    ensures
        record_matches(pattern, record.attributes) <==> (pattern matches DataElementV::Sequence(
            elements,
        ) && exists|i: int, j: int|
            0 <= i < elements.len() && 0 <= j < record.attributes.len() && (
            #[trigger] elements[i] matches DataElementV::Uuid(uuid) && uuid_in(
                uuid,
                (#[trigger] record.attributes[j]).value,
            ))),
{
    if let DataElementV::Sequence(elements) = pattern {
        assert forall|i: int, j: int|
            0 <= i < elements.len() && 0 <= j < record.attributes.len() implies super::server::names_uuid(
            #[trigger] elements[i],
            #[trigger] record.attributes[j],
        ) == (elements[i] matches DataElementV::Uuid(uuid) && uuid_in(
            uuid,
            record.attributes[j].value,
        )) by {}
        if exists|i: int, j: int|
            0 <= i < elements.len() && 0 <= j < record.attributes.len() && (
            #[trigger] elements[i] matches DataElementV::Uuid(uuid) && uuid_in(
                uuid,
                (#[trigger] record.attributes[j]).value,
            )) {
            let (i, j) = choose|i: int, j: int|
                0 <= i < elements.len() && 0 <= j < record.attributes.len() && (
                #[trigger] elements[i] matches DataElementV::Uuid(uuid) && uuid_in(
                    uuid,
                    (#[trigger] record.attributes[j]).value,
                ));
            assert(super::server::names_uuid(elements[i], record.attributes[j]));
        }
    }
}

/// A selector of two bytes names one attribute and one of four bytes all from its
/// upper half to its lower half, both included. What a selector names comes in the
/// record's order.
pub proof fn selectors_name_attributes(
    attributes: Seq<ServiceAttributeV>,
    from: u16,
    to: u16,
    id: u16,
)
    ensures
        selects(AttributeId::Id(from).element(), id) <==> id == from,
        selects(AttributeId::Range(from, to).element(), id) <==> from <= id <= to,
        selects((DataElementV::UnsignedInteger { value: from as u128, size: 2 }), id) <==> id
            == from,
        selects(
            (DataElementV::UnsignedInteger { value: (0x1_0000 * from + to) as u128, size: 4 }),
            id,
        ) <==> from <= id <= to,
        named(attributes, AttributeId::Range(from, to).element()) == attributes.filter(
            |attribute: ServiceAttributeV| from <= attribute.id <= to,
        ),
    decreases attributes.len(),
{
    let value = 65536 * from + to;
    assert(value / 65536 == from && value % 65536 == to);
    reveal(Seq::filter);
    if attributes.len() > 0 {
        selectors_name_attributes(attributes.drop_last(), from, to, attributes.last().id);
    }
}

/// Whether a reply is the error with this code.
pub open spec fn refuses(reply: SdpPduV, transaction: u16, code: u16) -> bool {
    reply == (SdpPduV::ErrorResponse { transaction_id: transaction, error_code: code })
}

/// A request to go on that belongs to no answer is refused with the code 5, one
/// for a record that the server does not have with 2, and what is no request
/// with 3. The refusal leaves the records as they were.
pub proof fn requests_are_refused(
    server: SdpServerV,
    request: SdpPduV,
    state: Seq<u8>,
    transaction: u16,
    pattern: DataElementV,
    ids: DataElementV,
    handle: u32,
    maximum: u16,
)
    ensures
        ({
            let going_on = state.len() > 1;
            let possible = server.current_response is Some && state == seq![0x01u8, 0x00];
            let search = server.search_handled(transaction, pattern, maximum, state);
            let record = server.attribute_handled(transaction, handle, maximum, ids, state);
            let both = server.search_attribute_handled(transaction, pattern, maximum, ids, state);
            &&& going_on && !possible ==> search.0 == server && record.0 == server && both.0
                == server && refuses(search.1, transaction, 5) && refuses(record.1, transaction, 5)
                && refuses(both.1, transaction, 5)
            &&& !going_on && record_with(server.records, handle) is None ==> refuses(
                record.1,
                transaction,
                2,
            ) && record.0.records == server.records
            &&& !going_on ==> search.1 is ServiceSearchResponse && both.1
                is ServiceSearchAttributeResponse
            &&& !going_on && record_with(server.records, handle) is Some ==> record.1
                is ServiceAttributeResponse
        }),
        !(request is ServiceSearchRequest) && !(request is ServiceAttributeRequest) && !(
        request is ServiceSearchAttributeRequest) ==> server.handled(request).0 == server
            && refuses(server.handled(request).1, request.transaction_id(), 3),
{
    reveal(SdpServerV::search_attribute_handled);
    reveal(SdpServerV::attribute_handled);
    reveal(SdpServerV::search_handled);
}

/// The record that a handle means: the first with that handle.
pub proof fn handles_mean_records(records: Seq<ServiceRecordV>, handle: u32, at: int)
    requires
        0 <= at < records.len(),
        forall|i: int| 0 <= i < at ==> (#[trigger] records[i]).handle != handle,
    ensures
        records[at].handle == handle ==> record_with(records, handle) == Some(records[at]),
        records[at].handle != handle && at == records.len() - 1 ==> record_with(records, handle)
            is None,
    decreases at,
{
    reveal_with_fuel(record_with, 2);
    let rest = records.skip(1);
    if at > 0 {
        assert forall|i: int| 0 <= i < at - 1 implies (#[trigger] rest[i]).handle != handle by {
            assert(rest[i] == records[i + 1]);
        }
        handles_mean_records(rest, handle, at - 1);
        assert(rest[at - 1] == records[at]);
    }
}

/// A part of an answer is as large as the request and the peer allow: where more
/// is to come it has as many bytes as were asked for or fills the MTU, and the
/// continuation state is `01 00`; where it is the last part, the state is `00`. The
/// parts of an answer are its bytes in order.
pub proof fn attribute_answers_fill_their_units(server: SdpServerV, left: Seq<u8>, maximum: u16)
    requires
        server.current_response == Some(CurrentResponseV::Bytes(left)),
        server.mtu >= 9,
    ensures
        ({
            let (after, part, state) = server.next_bytes(server.byte_cap(maximum));
            &&& after.records == server.records && after.mtu == server.mtu
            &&& state == seq![0x00u8] || state == seq![0x01u8, 0x00]
            &&& state == seq![0x00u8] ==> part == left && after.current_response is None
            &&& state == seq![0x01u8, 0x00] ==> (part.len() == maximum || 5 + 2 + part.len() + 2
                == server.mtu) && (after.current_response matches Some(
                CurrentResponseV::Bytes(rest),
            ) && rest.len() > 0 && part + rest == left)
            &&& part.len() <= maximum && 5 + 2 + part.len() + 2 <= server.mtu
        }),
{
    let cap = server.byte_cap(maximum);
    assert(seq![0x00u8].len() == 1 && seq![0x01u8, 0x00u8].len() == 2);
    if left.len() > cap {
        assert(left.take(cap) + left.skip(cap) =~= left);
    }
}

/// A search answers with the handles of the found records, no more of them than
/// were asked for, and as many in one unit as the peer takes. The total is that of
/// all found records.
pub proof fn handle_answers_fill_their_units(
    server: SdpServerV,
    transaction: u16,
    pattern: DataElementV,
    maximum: u16,
)
    requires
        server.mtu >= 11,
        matching(server.records, pattern).len() < 65536,
    ensures
        ({
            let (after, reply) = server.search_handled(transaction, pattern, maximum, seq![0x00u8]);
            let found = matching(server.records, pattern);
            let most = if found.len() < maximum { found.len() as int } else { maximum as int };
            &&& reply matches SdpPduV::ServiceSearchResponse {
                transaction_id,
                total_service_record_count,
                service_record_handle_list,
                continuation_state,
            } && {
                let given = service_record_handle_list.len();
                &&& transaction_id == transaction
                &&& total_service_record_count == found.len()
                &&& given <= most
                &&& forall|i: int|
                    0 <= i < given ==> #[trigger] service_record_handle_list[i] == found[i].handle
                &&& given == most ==> continuation_state == seq![0x00u8]
                &&& given < most ==> continuation_state == seq![0x01u8, 0x00] && 5 + 4 + 4 * (given
                    + 1) + 2 > server.mtu
            }
            &&& after.records == server.records && after.mtu == server.mtu
        }),
{
    reveal(SdpServerV::search_handled);
}

/// The answer about attributes is written from the selected attributes alone: for
/// one record their sequence, for a search the sequence of those sequences that
/// are not empty.
pub proof fn answers_are_written_from_the_selected(
    server: SdpServerV,
    record: ServiceRecordV,
    pattern: DataElementV,
    selectors: Seq<DataElementV>,
)
    ensures
        SdpServerV::attribute_answer(record, DataElementV::Sequence(selectors)) == element_bytes(
            DataElementV::Sequence(selected(record.attributes, selectors)),
        ),
        server.search_attribute_answer(pattern, DataElementV::Sequence(selectors))
            == element_bytes(
            DataElementV::Sequence(attribute_lists(matching(server.records, pattern), selectors)),
        ),
        attribute_lists(seq![], selectors).len() == 0,
        ({
            let list = selected(record.attributes, selectors);
            let before = attribute_lists(server.records, selectors);
            attribute_lists(server.records.push(record), selectors) == (if list.len() > 0 {
                before.push(DataElementV::Sequence(list))
            } else {
                before
            })
        }),
{
    assert(server.records.push(record).drop_last() =~= server.records);
}

/// A client asks for as much as there is, in every request; an error of the
/// server, a failure below it and a response of another kind end the query, each
/// with an error of its own. It makes no more than 64 requests.
pub proof fn queries_ask_for_everything(
    transaction: u16,
    state: Seq<u8>,
    pattern: DataElementV,
    ids: DataElementV,
    handle: u32,
    code: u16,
    fault: Seq<char>,
    bytes: Seq<u8>,
    handles: Seq<u32>,
    total: u16,
)
    ensures
        CONTINUATION_WATCHDOG == 64,
        (QueryV::SearchAttributes { pattern, attribute_ids: ids }).request(transaction, state) == (
        SdpPduV::ServiceSearchAttributeRequest {
            transaction_id: transaction,
            service_search_pattern: pattern,
            maximum_attribute_byte_count: 0xFFFF,
            attribute_id_list: ids,
            continuation_state: state,
        }),
        (QueryV::Attributes { handle, attribute_ids: ids }).request(transaction, state) == (
        SdpPduV::ServiceAttributeRequest {
            transaction_id: transaction,
            service_record_handle: handle,
            maximum_attribute_byte_count: 0xFFFF,
            attribute_id_list: ids,
            continuation_state: state,
        }),
        (QueryV::Search { pattern }).request(transaction, state) == (
        SdpPduV::ServiceSearchRequest {
            transaction_id: transaction,
            service_search_pattern: pattern,
            maximum_service_record_count: 0xFFFF,
            continuation_state: state,
        }),
        ({
            let refused = SdpPduV::ErrorResponse { transaction_id: transaction, error_code: code };
            let found = SdpPduV::ServiceSearchResponse {
                transaction_id: transaction,
                total_service_record_count: total,
                service_record_handle_list: handles,
                continuation_state: state,
            };
            let list = SdpPduV::ServiceAttributeResponse {
                transaction_id: transaction,
                attribute_list: bytes,
                continuation_state: state,
            };
            let lists = SdpPduV::ServiceSearchAttributeResponse {
                transaction_id: transaction,
                attribute_lists: bytes,
                continuation_state: state,
            };
            let unexpected = Err::<(Seq<u8>, Seq<u8>), ClientErrorV>(ClientErrorV::Unexpected);
            &&& search_attribute_part(Ok(lists)) == Ok::<(Seq<u8>, Seq<u8>), ClientErrorV>(
                (bytes, state),
            )
            &&& attribute_part(Ok(list)) == Ok::<(Seq<u8>, Seq<u8>), ClientErrorV>((bytes, state))
            &&& search_part(Ok(found)) == Ok::<(Seq<u32>, Seq<u8>), ClientErrorV>((handles, state))
            &&& search_attribute_part(Ok(refused)) == Err::<(Seq<u8>, Seq<u8>), ClientErrorV>(
                ClientErrorV::Protocol(code),
            )
            &&& attribute_part(Ok(refused)) == Err::<(Seq<u8>, Seq<u8>), ClientErrorV>(
                ClientErrorV::Protocol(code),
            )
            &&& search_part(Ok(refused)) == Err::<(Seq<u32>, Seq<u8>), ClientErrorV>(
                ClientErrorV::Protocol(code),
            )
            &&& search_attribute_part(Ok(list)) == unexpected
            &&& search_attribute_part(Ok(found)) == unexpected
            &&& attribute_part(Ok(lists)) == unexpected
            &&& attribute_part(Ok(found)) == unexpected
            &&& search_part(Ok(list)) is Err && search_part(Ok(lists)) is Err
            &&& search_attribute_part(Err(fault)) == Err::<(Seq<u8>, Seq<u8>), ClientErrorV>(
                ClientErrorV::Transport(fault),
            )
            &&& attribute_part(Err(fault)) == Err::<(Seq<u8>, Seq<u8>), ClientErrorV>(
                ClientErrorV::Transport(fault),
            )
            &&& search_part(Err(fault)) == Err::<(Seq<u32>, Seq<u8>), ClientErrorV>(
                ClientErrorV::Transport(fault),
            )
        }),
{
}

/// A query ends with the part whose continuation state is `00`, and every other
/// state makes it go on; what it collects is the parts in order.
pub proof fn queries_end_with_the_last_part(
    parts: Seq<Result<(Seq<u8>, Seq<u8>), ClientErrorV>>,
    items: Seq<u8>,
    state: Seq<u8>,
    rest: Seq<u8>,
    budget: nat,
)
    requires
        parts.len() > 0,
        parts[0] == Ok::<(Seq<u8>, Seq<u8>), ClientErrorV>((items, state)),
        budget > 0,
    ensures
        state == seq![0x00u8] && parts.len() == 1 ==> collected(parts, budget) == Some(
            Ok::<Seq<u8>, ClientErrorV>(items),
        ),
        state == seq![0x00u8] && parts.len() > 1 ==> collected(parts, budget) is None,
        state != seq![0x00u8] && collected(parts.skip(1), (budget - 1) as nat) == Some(
            Ok::<Seq<u8>, ClientErrorV>(rest),
        ) ==> collected(parts, budget) == Some(Ok::<Seq<u8>, ClientErrorV>(items + rest)),
{
    reveal(collected);
}

/// A UUID is found where it stands, in any of its widths, and inside sequences at
/// any depth; it is not found in an alternative or in anything that is no UUID.
pub proof fn uuids_are_found_at_any_depth(
    uuid: Seq<u8>,
    found: Seq<u8>,
    elements: Seq<DataElementV>,
    at: int,
    text: Seq<u8>,
)
    ensures
        uuid_in(uuid, DataElementV::Uuid(found)) <==> expanded_uuid(uuid) == expanded_uuid(found),
        0 <= at < elements.len() && uuid_in(uuid, elements[at]) ==> uuid_in(
            uuid,
            DataElementV::Sequence(elements),
        ),
        (forall|i: int| 0 <= i < elements.len() ==> !uuid_in(uuid, #[trigger] elements[i]))
            ==> !uuid_in(uuid, DataElementV::Sequence(elements)),
        !uuid_in(uuid, DataElementV::Alternative(elements)),
        !uuid_in(uuid, DataElementV::TextString(text)),
        !uuid_in(uuid, DataElementV::Nil),
{
    let list = DataElementV::Sequence(elements);
    assert(list->Sequence_0 == elements);
    if 0 <= at < elements.len() && uuid_in(uuid, elements[at]) {
        assert(uuid_in(uuid, list->Sequence_0[at]));
    }
}

/// Attributes are read from pairs of an identifier and a value, in order; a pair
/// whose identifier is no number is passed over, and so is a last element without
/// a value. The first attribute with an identifier is the one that is meant by it.
pub proof fn attributes_are_read_in_pairs(
    id: u16,
    size: u8,
    value: DataElementV,
    other: DataElementV,
    rest: Seq<DataElementV>,
    wanted: u16,
)
    ensures
        ({
            let number = DataElementV::UnsignedInteger { value: id as u128, size };
            attributes_of(seq![number, value] + rest) == seq![ServiceAttributeV { id, value }]
                + attributes_of(rest)
        }),
        !(other is UnsignedInteger) ==> attributes_of(seq![other, value] + rest) == attributes_of(
            rest,
        ),
        attributes_of(seq![other]) == Seq::<ServiceAttributeV>::empty(),
        attributes_of(seq![]) == Seq::<ServiceAttributeV>::empty(),
        ({
            let list = attributes_of(rest);
            attribute_value(seq![ServiceAttributeV { id, value }] + list, wanted) == (if id
                == wanted {
                Some(value)
            } else {
                attribute_value(list, wanted)
            })
        }),
        attribute_value(seq![], wanted) is None,
{
    let number = DataElementV::UnsignedInteger { value: id as u128, size };
    assert((seq![number, value] + rest).skip(2) =~= rest);
    assert((seq![other, value] + rest).skip(2) =~= rest);
    let list = attributes_of(rest);
    assert((seq![ServiceAttributeV { id, value }] + list).skip(1) =~= list);
}

/// An answer without bytes holds nothing, and so does one that is no sequence; the
/// answer about one record is the list of its attributes, and a search has one list
/// for each sequence in it, in order.
pub proof fn answers_are_read(bytes: Seq<u8>, elements: Seq<DataElementV>, more: DataElementV)
    ensures
        parsed_list(seq![]) == Ok::<Seq<ServiceAttributeV>, ErrorV>(seq![]),
        parsed_lists(seq![]) == Ok::<Seq<Seq<ServiceAttributeV>>, ErrorV>(seq![]),
        bytes.len() > 0 ==> (parse_element(bytes, 0, 0) matches Ok((_, read)) ==> (read
            == DataElementV::Sequence(elements) ==> parsed_list(bytes) == Ok::<
            Seq<ServiceAttributeV>,
            ErrorV,
        >(attributes_of(elements)) && parsed_lists(bytes) == Ok::<
            Seq<Seq<ServiceAttributeV>>,
            ErrorV,
        >(lists_of(elements))) && (!(read is Sequence) ==> parsed_list(bytes) == Ok::<
            Seq<ServiceAttributeV>,
            ErrorV,
        >(seq![]))),
        parse_element(bytes, 0, 0) is Err && bytes.len() > 0 ==> parsed_list(bytes) is Err
            && parsed_lists(bytes) is Err,
        lists_of(seq![]) == Seq::<Seq<ServiceAttributeV>>::empty(),
        lists_of(elements.push(more)) == (match more {
            DataElementV::Sequence(inner) => lists_of(elements).push(attributes_of(inner)),
            _ => lists_of(elements),
        }),
{
    assert(elements.push(more).drop_last() =~= elements);
}

/// A client numbers its requests one after the other, from zero on again behind
/// 65535, and hands back the continuation state that it was given.
pub proof fn requests_follow_each_other(
    query: QueryV,
    transaction: u16,
    replies: Seq<Reply>,
    index: int,
)
    requires
        0 < index < 0x1_0000,
    ensures
        request_at(query, transaction, seq![0x00u8], replies, 0) == query.request(
            transaction,
            seq![0x00u8],
        ),
        transaction + index < 0x1_0000 ==> request_at(
            query,
            transaction,
            seq![0x00u8],
            replies,
            index,
        ) == query.request((transaction + index) as u16, state_of(replies[index - 1])),
        transaction + index >= 0x1_0000 ==> request_at(
            query,
            transaction,
            seq![0x00u8],
            replies,
            index,
        ) == query.request((transaction + index - 0x1_0000) as u16, state_of(replies[index - 1])),
{
}

/// Records are kept in the order in which they were added, and a server begins with
/// none of them and with nothing to go on with.
pub proof fn records_are_kept_in_order(
    mtu: u16,
    handle: u32,
    attributes: Vec<ServiceAttribute>,
    server: SdpServer,
)
    ensures
        call_ensures(SdpServer::new, (mtu,), server) ==> server@.records.len() == 0 && server@.mtu
            == mtu && server@.current_response is None,
        forall|kept: &mut SdpServer|
            #[trigger] call_ensures(SdpServer::add_service, (kept, handle, attributes), ()) ==> {
                let after = final(kept)@;
                &&& after.records == kept@.records.push(
                    ServiceRecordV { handle, attributes: attribute_views(attributes@) },
                )
                &&& after.mtu == kept@.mtu
                &&& after.current_response == kept@.current_response
            },
{
}

} // verus!
