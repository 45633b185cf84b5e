//! The seven protocol data units of service discovery.
//!
//! Each unit is an identifier, a big-endian transaction identifier, the
//! big-endian length of the parameters, and the parameters. Every request and
//! response ends with a continuation state, which is empty when the whole answer
//! fit in one unit and is carried here as it is.

use vstd::prelude::*;
use vstd::slice::slice_subrange;

use super::element::{parse_element, DataElement, DataElementV};
use super::element_laws::{element_reads_back, nesting, uuids_valid};
use super::pdu_id;
use super::{agrees, truncated, truncated_fault, Error, ErrorV, MAX_NESTING};
use crate::bytes::{
    append_bytes, be16, be16_at, be32, be32_at, copy_range, le16, le16_at, push_be16, push_be32,
    push_le16, read_be16, read_be32, read_le16,
};
use crate::text::{append_hex_pair, hex_pair};

verus! {

/// The contents of a protocol data unit.
#[allow(inconsistent_fields)]
pub enum SdpPduV {
    ErrorResponse { transaction_id: u16, error_code: u16 },
    ServiceSearchRequest {
        transaction_id: u16,
        service_search_pattern: DataElementV,
        maximum_service_record_count: u16,
        continuation_state: Seq<u8>,
    },
    ServiceSearchResponse {
        transaction_id: u16,
        total_service_record_count: u16,
        service_record_handle_list: Seq<u32>,
        continuation_state: Seq<u8>,
    },
    ServiceAttributeRequest {
        transaction_id: u16,
        service_record_handle: u32,
        maximum_attribute_byte_count: u16,
        attribute_id_list: DataElementV,
        continuation_state: Seq<u8>,
    },
    ServiceAttributeResponse {
        transaction_id: u16,
        attribute_list: Seq<u8>,
        continuation_state: Seq<u8>,
    },
    ServiceSearchAttributeRequest {
        transaction_id: u16,
        service_search_pattern: DataElementV,
        maximum_attribute_byte_count: u16,
        attribute_id_list: DataElementV,
        continuation_state: Seq<u8>,
    },
    ServiceSearchAttributeResponse {
        transaction_id: u16,
        attribute_lists: Seq<u8>,
        continuation_state: Seq<u8>,
    },
}

/// A protocol data unit of service discovery.
#[derive(Clone, Debug, PartialEq, Eq)]
#[allow(inconsistent_fields)]
pub enum SdpPdu {
    ErrorResponse { transaction_id: u16, error_code: u16 },
    ServiceSearchRequest {
        transaction_id: u16,
        service_search_pattern: DataElement,
        maximum_service_record_count: u16,
        continuation_state: Vec<u8>,
    },
    ServiceSearchResponse {
        transaction_id: u16,
        total_service_record_count: u16,
        service_record_handle_list: Vec<u32>,
        continuation_state: Vec<u8>,
    },
    ServiceAttributeRequest {
        transaction_id: u16,
        service_record_handle: u32,
        maximum_attribute_byte_count: u16,
        attribute_id_list: DataElement,
        continuation_state: Vec<u8>,
    },
    ServiceAttributeResponse {
        transaction_id: u16,
        attribute_list: Vec<u8>,
        continuation_state: Vec<u8>,
    },
    ServiceSearchAttributeRequest {
        transaction_id: u16,
        service_search_pattern: DataElement,
        maximum_attribute_byte_count: u16,
        attribute_id_list: DataElement,
        continuation_state: Vec<u8>,
    },
    ServiceSearchAttributeResponse {
        transaction_id: u16,
        attribute_lists: Vec<u8>,
        continuation_state: Vec<u8>,
    },
}

impl View for SdpPdu {
    type V = SdpPduV;

    open spec fn view(&self) -> SdpPduV {
        match *self {
            SdpPdu::ErrorResponse { transaction_id, error_code } => SdpPduV::ErrorResponse {
                transaction_id,
                error_code,
            },
            SdpPdu::ServiceSearchRequest {
                transaction_id,
                service_search_pattern,
                maximum_service_record_count,
                continuation_state,
            } => SdpPduV::ServiceSearchRequest {
                transaction_id,
                service_search_pattern: service_search_pattern@,
                maximum_service_record_count,
                continuation_state: continuation_state@,
            },
            SdpPdu::ServiceSearchResponse {
                transaction_id,
                total_service_record_count,
                service_record_handle_list,
                continuation_state,
            } => SdpPduV::ServiceSearchResponse {
                transaction_id,
                total_service_record_count,
                service_record_handle_list: service_record_handle_list@,
                continuation_state: continuation_state@,
            },
            SdpPdu::ServiceAttributeRequest {
                transaction_id,
                service_record_handle,
                maximum_attribute_byte_count,
                attribute_id_list,
                continuation_state,
            } => SdpPduV::ServiceAttributeRequest {
                transaction_id,
                service_record_handle,
                maximum_attribute_byte_count,
                attribute_id_list: attribute_id_list@,
                continuation_state: continuation_state@,
            },
            SdpPdu::ServiceAttributeResponse {
                transaction_id,
                attribute_list,
                continuation_state,
            } => SdpPduV::ServiceAttributeResponse {
                transaction_id,
                attribute_list: attribute_list@,
                continuation_state: continuation_state@,
            },
            SdpPdu::ServiceSearchAttributeRequest {
                transaction_id,
                service_search_pattern,
                maximum_attribute_byte_count,
                attribute_id_list,
                continuation_state,
            } => SdpPduV::ServiceSearchAttributeRequest {
                transaction_id,
                service_search_pattern: service_search_pattern@,
                maximum_attribute_byte_count,
                attribute_id_list: attribute_id_list@,
                continuation_state: continuation_state@,
            },
            SdpPdu::ServiceSearchAttributeResponse {
                transaction_id,
                attribute_lists,
                continuation_state,
            } => SdpPduV::ServiceSearchAttributeResponse {
                transaction_id,
                attribute_lists: attribute_lists@,
                continuation_state: continuation_state@,
            },
        }
    }
}

/// Record handles as consecutive big-endian groups of four bytes.
pub open spec fn handle_bytes(handles: Seq<u32>) -> Seq<u8>
    decreases handles.len(),
{
    if handles.len() == 0 {
        seq![]
    } else {
        handle_bytes(handles.drop_last()) + be32(handles.last())
    }
}

/// The record handles in `count` groups of four bytes from `at` on.
pub open spec fn handles_at(data: Seq<u8>, at: int, count: nat) -> Seq<u32> {
    Seq::new(count, |i: int| be32_at(data, at + 4 * i))
}

pub open spec fn u16_at(data: Seq<u8>, at: int) -> Result<u16, ErrorV> {
    if at + 2 > data.len() {
        Err(truncated_fault("u16"@))
    } else {
        Ok(be16_at(data, at))
    }
}

pub open spec fn u32_at(data: Seq<u8>, at: int) -> Result<u32, ErrorV> {
    if at + 4 > data.len() {
        Err(truncated_fault("u32"@))
    } else {
        Ok(be32_at(data, at))
    }
}

/// A big-endian length and that many bytes.
pub open spec fn block_at(data: Seq<u8>, at: int) -> Result<Seq<u8>, ErrorV> {
    match u16_at(data, at) {
        Err(error) => Err(error),
        Ok(length) => if at + 2 + length > data.len() {
            Err(truncated_fault("length-prefixed bytes"@))
        } else {
            Ok(data.subrange(at + 2, at + 2 + length))
        },
    }
}

impl SdpPduV {
    pub open spec fn pdu_id(self) -> u8 {
        match self {
            SdpPduV::ErrorResponse { .. } => pdu_id::SDP_ERROR_RESPONSE,
            SdpPduV::ServiceSearchRequest { .. } => pdu_id::SDP_SERVICE_SEARCH_REQUEST,
            SdpPduV::ServiceSearchResponse { .. } => pdu_id::SDP_SERVICE_SEARCH_RESPONSE,
            SdpPduV::ServiceAttributeRequest { .. } => pdu_id::SDP_SERVICE_ATTRIBUTE_REQUEST,
            SdpPduV::ServiceAttributeResponse { .. } => pdu_id::SDP_SERVICE_ATTRIBUTE_RESPONSE,
            SdpPduV::ServiceSearchAttributeRequest { .. } =>
            pdu_id::SDP_SERVICE_SEARCH_ATTRIBUTE_REQUEST,
            SdpPduV::ServiceSearchAttributeResponse { .. } =>
            pdu_id::SDP_SERVICE_SEARCH_ATTRIBUTE_RESPONSE,
        }
    }

    pub open spec fn transaction_id(self) -> u16 {
        match self {
            SdpPduV::ErrorResponse { transaction_id, .. } => transaction_id,
            SdpPduV::ServiceSearchRequest { transaction_id, .. } => transaction_id,
            SdpPduV::ServiceSearchResponse { transaction_id, .. } => transaction_id,
            SdpPduV::ServiceAttributeRequest { transaction_id, .. } => transaction_id,
            SdpPduV::ServiceAttributeResponse { transaction_id, .. } => transaction_id,
            SdpPduV::ServiceSearchAttributeRequest { transaction_id, .. } => transaction_id,
            SdpPduV::ServiceSearchAttributeResponse { transaction_id, .. } => transaction_id,
        }
    }

    /// The parameters. The error code alone is little-endian.
    pub open spec fn parameters(self) -> Result<Seq<u8>, ErrorV> {
        match self {
            SdpPduV::ErrorResponse { error_code, .. } => Ok(le16(error_code)),
            SdpPduV::ServiceSearchRequest {
                service_search_pattern,
                maximum_service_record_count,
                continuation_state,
                ..
            } => match service_search_pattern.encode() {
                Err(error) => Err(error),
                Ok(pattern) => Ok(
                    pattern + be16(maximum_service_record_count) + continuation_state,
                ),
            },
            SdpPduV::ServiceSearchResponse {
                total_service_record_count,
                service_record_handle_list,
                continuation_state,
                ..
            } => Ok(
                be16(total_service_record_count) + be16(
                    (service_record_handle_list.len() % 65536) as u16,
                ) + handle_bytes(service_record_handle_list) + continuation_state,
            ),
            SdpPduV::ServiceAttributeRequest {
                service_record_handle,
                maximum_attribute_byte_count,
                attribute_id_list,
                continuation_state,
                ..
            } => match attribute_id_list.encode() {
                Err(error) => Err(error),
                Ok(ids) => Ok(
                    be32(service_record_handle) + be16(maximum_attribute_byte_count) + ids
                        + continuation_state,
                ),
            },
            SdpPduV::ServiceAttributeResponse { attribute_list, continuation_state, .. } => Ok(
                be16((attribute_list.len() % 65536) as u16) + attribute_list + continuation_state,
            ),
            SdpPduV::ServiceSearchAttributeRequest {
                service_search_pattern,
                maximum_attribute_byte_count,
                attribute_id_list,
                continuation_state,
                ..
            } => match (service_search_pattern.encode(), attribute_id_list.encode()) {
                (Err(error), _) => Err(error),
                (_, Err(error)) => Err(error),
                (Ok(pattern), Ok(ids)) => Ok(
                    pattern + be16(maximum_attribute_byte_count) + ids + continuation_state,
                ),
            },
            SdpPduV::ServiceSearchAttributeResponse { attribute_lists, continuation_state, .. } =>
            Ok(
                be16((attribute_lists.len() % 65536) as u16) + attribute_lists + continuation_state,
            ),
        }
    }

    /// The whole unit.
    pub open spec fn encode(self) -> Result<Seq<u8>, ErrorV> {
        match self.parameters() {
            Err(error) => Err(error),
            Ok(parameters) => Ok(
                seq![self.pdu_id()] + be16(self.transaction_id()) + be16(
                    (parameters.len() % 65536) as u16,
                ) + parameters,
            ),
        }
    }

    /// The unit with this identifier, transaction and parameters.
    #[verifier::opaque]
    pub open spec fn from_parameters(id: u8, transaction_id: u16, data: Seq<u8>) -> Result<
        SdpPduV,
        ErrorV,
    > {
        if id == pdu_id::SDP_ERROR_RESPONSE {
            if data.len() < 2 {
                Err(truncated_fault("u16"@))
            } else {
                Ok(SdpPduV::ErrorResponse { transaction_id, error_code: le16_at(data, 0) })
            }
        } else if id == pdu_id::SDP_SERVICE_SEARCH_REQUEST {
            match parse_element(data, 0, 0) {
                Err(error) => Err(error),
                Ok((at, service_search_pattern)) => match u16_at(data, at) {
                    Err(error) => Err(error),
                    Ok(maximum_service_record_count) => Ok(
                        SdpPduV::ServiceSearchRequest {
                            transaction_id,
                            service_search_pattern,
                            maximum_service_record_count,
                            continuation_state: data.skip(at + 2),
                        },
                    ),
                },
            }
        } else if id == pdu_id::SDP_SERVICE_SEARCH_RESPONSE {
            match (u16_at(data, 0), u16_at(data, 2)) {
                (Err(error), _) => Err(error),
                (_, Err(error)) => Err(error),
                (Ok(total_service_record_count), Ok(count)) => if 4 + 4 * count > data.len() {
                    Err(truncated_fault("u32"@))
                } else {
                    Ok(
                        SdpPduV::ServiceSearchResponse {
                            transaction_id,
                            total_service_record_count,
                            service_record_handle_list: handles_at(data, 4, count as nat),
                            continuation_state: data.skip(4 + 4 * count),
                        },
                    )
                },
            }
        } else if id == pdu_id::SDP_SERVICE_ATTRIBUTE_REQUEST {
            match (u32_at(data, 0), u16_at(data, 4)) {
                (Err(error), _) => Err(error),
                (_, Err(error)) => Err(error),
                (Ok(service_record_handle), Ok(maximum_attribute_byte_count)) => match parse_element(
                    data,
                    6,
                    0,
                ) {
                    Err(error) => Err(error),
                    Ok((at, attribute_id_list)) => Ok(
                        SdpPduV::ServiceAttributeRequest {
                            transaction_id,
                            service_record_handle,
                            maximum_attribute_byte_count,
                            attribute_id_list,
                            continuation_state: data.skip(at),
                        },
                    ),
                },
            }
        } else if id == pdu_id::SDP_SERVICE_ATTRIBUTE_RESPONSE {
            match block_at(data, 0) {
                Err(error) => Err(error),
                Ok(attribute_list) => Ok(
                    SdpPduV::ServiceAttributeResponse {
                        transaction_id,
                        attribute_list,
                        continuation_state: data.skip(2 + attribute_list.len() as int),
                    },
                ),
            }
        } else if id == pdu_id::SDP_SERVICE_SEARCH_ATTRIBUTE_REQUEST {
            match parse_element(data, 0, 0) {
                Err(error) => Err(error),
                Ok((at, service_search_pattern)) => match u16_at(data, at) {
                    Err(error) => Err(error),
                    Ok(maximum_attribute_byte_count) => match parse_element(data, at + 2, 0) {
                        Err(error) => Err(error),
                        Ok((end, attribute_id_list)) => Ok(
                            SdpPduV::ServiceSearchAttributeRequest {
                                transaction_id,
                                service_search_pattern,
                                maximum_attribute_byte_count,
                                attribute_id_list,
                                continuation_state: data.skip(end),
                            },
                        ),
                    },
                },
            }
        } else if id == pdu_id::SDP_SERVICE_SEARCH_ATTRIBUTE_RESPONSE {
            match block_at(data, 0) {
                Err(error) => Err(error),
                Ok(attribute_lists) => Ok(
                    SdpPduV::ServiceSearchAttributeResponse {
                        transaction_id,
                        attribute_lists,
                        continuation_state: data.skip(2 + attribute_lists.len() as int),
                    },
                ),
            }
        } else {
            Err(ErrorV::InvalidPacket("unknown SDP PDU id 0x"@ + hex_pair(id)))
        }
    }

    pub open spec fn decode(pdu: Seq<u8>) -> Result<SdpPduV, ErrorV> {
        if pdu.len() < 5 {
            Err(truncated_fault("SDP PDU header"@))
        } else if 5 + be16_at(pdu, 3) > pdu.len() {
            Err(truncated_fault("SDP PDU parameters"@))
        } else {
            SdpPduV::from_parameters(
                pdu[0],
                be16_at(pdu, 1),
                pdu.subrange(5, 5 + be16_at(pdu, 3)),
            )
        }
    }
}

impl SdpPdu {
    /// The unit's identifier.
    pub fn pdu_id(&self) -> (id: u8)
        ensures
            id == self@.pdu_id(),
    {
        match self {
            SdpPdu::ErrorResponse { .. } => pdu_id::SDP_ERROR_RESPONSE,
            SdpPdu::ServiceSearchRequest { .. } => pdu_id::SDP_SERVICE_SEARCH_REQUEST,
            SdpPdu::ServiceSearchResponse { .. } => pdu_id::SDP_SERVICE_SEARCH_RESPONSE,
            SdpPdu::ServiceAttributeRequest { .. } => pdu_id::SDP_SERVICE_ATTRIBUTE_REQUEST,
            SdpPdu::ServiceAttributeResponse { .. } => pdu_id::SDP_SERVICE_ATTRIBUTE_RESPONSE,
            SdpPdu::ServiceSearchAttributeRequest { .. } => {
                pdu_id::SDP_SERVICE_SEARCH_ATTRIBUTE_REQUEST
            },
            SdpPdu::ServiceSearchAttributeResponse { .. } => {
                pdu_id::SDP_SERVICE_SEARCH_ATTRIBUTE_RESPONSE
            },
        }
    }

    /// The unit's transaction identifier.
    pub fn transaction_id(&self) -> (id: u16)
        ensures
            id == self@.transaction_id(),
    {
        match self {
            SdpPdu::ErrorResponse { transaction_id, .. } => *transaction_id,
            SdpPdu::ServiceSearchRequest { transaction_id, .. } => *transaction_id,
            SdpPdu::ServiceSearchResponse { transaction_id, .. } => *transaction_id,
            SdpPdu::ServiceAttributeRequest { transaction_id, .. } => *transaction_id,
            SdpPdu::ServiceAttributeResponse { transaction_id, .. } => *transaction_id,
            SdpPdu::ServiceSearchAttributeRequest { transaction_id, .. } => *transaction_id,
            SdpPdu::ServiceSearchAttributeResponse { transaction_id, .. } => *transaction_id,
        }
    }

    /// The bytes of the unit.
    pub fn to_bytes(&self) -> (result: Result<Vec<u8>, Error>)
        ensures
            agrees(result, self@.encode()),
    {
        match self.parameters() {
            Err(error) => Err(error),
            Ok(parameters) => {
                let mut bytes: Vec<u8> = Vec::new();
                bytes.push(self.pdu_id());
                push_be16(&mut bytes, self.transaction_id());
                push_be16(&mut bytes, (parameters.len() % 65536) as u16);
                append_bytes(&mut bytes, &parameters);
                assert(bytes@ =~= self@.encode()->Ok_0);
                Ok(bytes)
            },
        }
    }

    #[verifier::spinoff_prover]
    fn parameters(&self) -> (result: Result<Vec<u8>, Error>)
        ensures
            agrees(result, self@.parameters()),
    {
        let mut bytes: Vec<u8> = Vec::new();
        match self {
            SdpPdu::ErrorResponse { error_code, .. } => {
                push_le16(&mut bytes, *error_code);
            },
            SdpPdu::ServiceSearchRequest {
                service_search_pattern,
                maximum_service_record_count,
                continuation_state,
                ..
            } => {
                match service_search_pattern.to_bytes() {
                    Err(error) => {
                        return Err(error);
                    },
                    Ok(pattern) => {
                        append_bytes(&mut bytes, &pattern);
                    },
                }
                push_be16(&mut bytes, *maximum_service_record_count);
                append_bytes(&mut bytes, continuation_state);
            },
            SdpPdu::ServiceSearchResponse {
                total_service_record_count,
                service_record_handle_list,
                continuation_state,
                ..
            } => {
                push_be16(&mut bytes, *total_service_record_count);
                push_be16(&mut bytes, (service_record_handle_list.len() % 65536) as u16);
                push_handles(&mut bytes, service_record_handle_list);
                append_bytes(&mut bytes, continuation_state);
            },
            SdpPdu::ServiceAttributeRequest {
                service_record_handle,
                maximum_attribute_byte_count,
                attribute_id_list,
                continuation_state,
                ..
            } => {
                push_be32(&mut bytes, *service_record_handle);
                push_be16(&mut bytes, *maximum_attribute_byte_count);
                match attribute_id_list.to_bytes() {
                    Err(error) => {
                        return Err(error);
                    },
                    Ok(ids) => {
                        append_bytes(&mut bytes, &ids);
                    },
                }
                append_bytes(&mut bytes, continuation_state);
            },
            SdpPdu::ServiceAttributeResponse { attribute_list, continuation_state, .. } => {
                push_be16(&mut bytes, (attribute_list.len() % 65536) as u16);
                append_bytes(&mut bytes, attribute_list);
                append_bytes(&mut bytes, continuation_state);
            },
            SdpPdu::ServiceSearchAttributeRequest {
                service_search_pattern,
                maximum_attribute_byte_count,
                attribute_id_list,
                continuation_state,
                ..
            } => {
                match service_search_pattern.to_bytes() {
                    Err(error) => {
                        return Err(error);
                    },
                    Ok(pattern) => {
                        append_bytes(&mut bytes, &pattern);
                    },
                }
                push_be16(&mut bytes, *maximum_attribute_byte_count);
                match attribute_id_list.to_bytes() {
                    Err(error) => {
                        return Err(error);
                    },
                    Ok(ids) => {
                        append_bytes(&mut bytes, &ids);
                    },
                }
                append_bytes(&mut bytes, continuation_state);
            },
            SdpPdu::ServiceSearchAttributeResponse { attribute_lists, continuation_state, .. } => {
                push_be16(&mut bytes, (attribute_lists.len() % 65536) as u16);
                append_bytes(&mut bytes, attribute_lists);
                append_bytes(&mut bytes, continuation_state);
            },
        }
        assert(bytes@ =~= self@.parameters()->Ok_0);
        Ok(bytes)
    }

    /// Reads one unit; bytes after its parameters are ignored.
    pub fn from_bytes(pdu: &[u8]) -> (result: Result<SdpPdu, Error>)
        ensures
            agrees(result, SdpPduV::decode(pdu@)),
    {
        if pdu.len() < 5 {
            return Err(truncated("SDP PDU header"));
        }
        let length: usize = read_be16(pdu, 3) as usize;
        if pdu.len() - 5 < length {
            return Err(truncated("SDP PDU parameters"));
        }
        SdpPdu::read_parameters(pdu[0], read_be16(pdu, 1), slice_subrange(pdu, 5, 5 + length))
    }

    #[verifier::spinoff_prover]
    fn read_parameters(id: u8, transaction_id: u16, data: &[u8]) -> (result: Result<SdpPdu, Error>)
        requires
            data@.len() <= 65535,
        ensures
            agrees(result, SdpPduV::from_parameters(id, transaction_id, data@)),
    {
        reveal(SdpPduV::from_parameters);
        let mut cursor = Cursor { data, pos: 0 };
        match id {
            pdu_id::SDP_ERROR_RESPONSE => {
                match cursor.u16_le() {
                    Err(error) => Err(error),
                    Ok(error_code) => Ok(SdpPdu::ErrorResponse { transaction_id, error_code }),
                }
            },
            pdu_id::SDP_SERVICE_SEARCH_REQUEST => {
                let service_search_pattern = match cursor.data_element() {
                    Err(error) => {
                        return Err(error);
                    },
                    Ok(element) => element,
                };
                match cursor.u16() {
                    Err(error) => Err(error),
                    Ok(maximum_service_record_count) => Ok(
                        SdpPdu::ServiceSearchRequest {
                            transaction_id,
                            service_search_pattern,
                            maximum_service_record_count,
                            continuation_state: cursor.rest(),
                        },
                    ),
                }
            },
            pdu_id::SDP_SERVICE_SEARCH_RESPONSE => {
                let total_service_record_count: u16 = match cursor.u16() {
                    Err(error) => {
                        return Err(error);
                    },
                    Ok(count) => count,
                };
                let count: u16 = match cursor.u16() {
                    Err(error) => {
                        return Err(error);
                    },
                    Ok(count) => count,
                };
                match cursor.handles(count) {
                    Err(error) => Err(error),
                    Ok(service_record_handle_list) => Ok(
                        SdpPdu::ServiceSearchResponse {
                            transaction_id,
                            total_service_record_count,
                            service_record_handle_list,
                            continuation_state: cursor.rest(),
                        },
                    ),
                }
            },
            pdu_id::SDP_SERVICE_ATTRIBUTE_REQUEST => {
                let service_record_handle: u32 = match cursor.u32() {
                    Err(error) => {
                        return Err(error);
                    },
                    Ok(handle) => handle,
                };
                let maximum_attribute_byte_count: u16 = match cursor.u16() {
                    Err(error) => {
                        return Err(error);
                    },
                    Ok(count) => count,
                };
                match cursor.data_element() {
                    Err(error) => Err(error),
                    Ok(attribute_id_list) => Ok(
                        SdpPdu::ServiceAttributeRequest {
                            transaction_id,
                            service_record_handle,
                            maximum_attribute_byte_count,
                            attribute_id_list,
                            continuation_state: cursor.rest(),
                        },
                    ),
                }
            },
            pdu_id::SDP_SERVICE_ATTRIBUTE_RESPONSE => {
                match cursor.length_prefixed_bytes() {
                    Err(error) => Err(error),
                    Ok(attribute_list) => Ok(
                        SdpPdu::ServiceAttributeResponse {
                            transaction_id,
                            attribute_list,
                            continuation_state: cursor.rest(),
                        },
                    ),
                }
            },
            pdu_id::SDP_SERVICE_SEARCH_ATTRIBUTE_REQUEST => {
                let service_search_pattern = match cursor.data_element() {
                    Err(error) => {
                        return Err(error);
                    },
                    Ok(element) => element,
                };
                let maximum_attribute_byte_count: u16 = match cursor.u16() {
                    Err(error) => {
                        return Err(error);
                    },
                    Ok(count) => count,
                };
                match cursor.data_element() {
                    Err(error) => Err(error),
                    Ok(attribute_id_list) => Ok(
                        SdpPdu::ServiceSearchAttributeRequest {
                            transaction_id,
                            service_search_pattern,
                            maximum_attribute_byte_count,
                            attribute_id_list,
                            continuation_state: cursor.rest(),
                        },
                    ),
                }
            },
            pdu_id::SDP_SERVICE_SEARCH_ATTRIBUTE_RESPONSE => {
                match cursor.length_prefixed_bytes() {
                    Err(error) => Err(error),
                    Ok(attribute_lists) => Ok(
                        SdpPdu::ServiceSearchAttributeResponse {
                            transaction_id,
                            attribute_lists,
                            continuation_state: cursor.rest(),
                        },
                    ),
                }
            },
            _ => {
                let mut reason = "unknown SDP PDU id 0x".to_owned();
                append_hex_pair(&mut reason, id);
                Err(Error::InvalidPacket(reason))
            },
        }
    }
}

fn push_handles(buffer: &mut Vec<u8>, handles: &Vec<u32>)
    ensures
        final(buffer)@ == old(buffer)@ + handle_bytes(handles@),
{
    let mut index: usize = 0;
    assert(handles@.take(0) =~= Seq::<u32>::empty());
    assert(buffer@ =~= old(buffer)@ + handle_bytes(handles@.take(0)));
    while index < handles.len()
        invariant
            index <= handles@.len(),
            buffer@ == old(buffer)@ + handle_bytes(handles@.take(index as int)),
        decreases handles@.len() - index,
    {
        push_be32(buffer, handles[index]);
        assert(handles@.take(index + 1).drop_last() =~= handles@.take(index as int));
        assert(buffer@ =~= old(buffer)@ + handle_bytes(handles@.take(index + 1)));
        index = index + 1;
    }
    assert(handles@.take(index as int) =~= handles@);
}

/// A forward-only reader over the parameters of a unit.
struct Cursor<'a> {
    data: &'a [u8],
    pos: usize,
}

impl<'a> Cursor<'a> {
    spec fn within(self) -> bool {
        self.pos <= self.data@.len()
    }

    fn u16(&mut self) -> (result: Result<u16, Error>)
        requires
            old(self).within(),
        ensures
            final(self).within(),
            final(self).data == old(self).data,
            agrees(result, u16_at(old(self).data@, old(self).pos as int)),
            result is Ok ==> final(self).pos == old(self).pos + 2,
    {
        if self.data.len() - self.pos < 2 {
            return Err(truncated("u16"));
        }
        let value: u16 = read_be16(self.data, self.pos);
        self.pos = self.pos + 2;
        Ok(value)
    }

    fn u16_le(&mut self) -> (result: Result<u16, Error>)
        requires
            old(self).within(),
        ensures
            final(self).within(),
            final(self).data == old(self).data,
            agrees(
                result,
                if old(self).pos + 2 > old(self).data@.len() {
                    Err(truncated_fault("u16"@))
                } else {
                    Ok(le16_at(old(self).data@, old(self).pos as int))
                },
            ),
            result is Ok ==> final(self).pos == old(self).pos + 2,
    {
        if self.data.len() - self.pos < 2 {
            return Err(truncated("u16"));
        }
        let value: u16 = read_le16(self.data, self.pos);
        self.pos = self.pos + 2;
        Ok(value)
    }

    fn u32(&mut self) -> (result: Result<u32, Error>)
        requires
            old(self).within(),
        ensures
            final(self).within(),
            final(self).data == old(self).data,
            agrees(result, u32_at(old(self).data@, old(self).pos as int)),
            result is Ok ==> final(self).pos == old(self).pos + 4,
    {
        if self.data.len() - self.pos < 4 {
            return Err(truncated("u32"));
        }
        let value: u32 = read_be32(self.data, self.pos);
        self.pos = self.pos + 4;
        Ok(value)
    }

    fn handles(&mut self, count: u16) -> (result: Result<Vec<u32>, Error>)
        requires
            old(self).within(),
            old(self).data@.len() <= 65535,
        ensures
            final(self).within(),
            final(self).data == old(self).data,
            agrees(
                result,
                if old(self).pos + 4 * count > old(self).data@.len() {
                    Err(truncated_fault("u32"@))
                } else {
                    Ok(handles_at(old(self).data@, old(self).pos as int, count as nat))
                },
            ),
            result is Ok ==> final(self).pos == old(self).pos + 4 * count,
    {
        let mut handles: Vec<u32> = Vec::new();
        let mut read: u16 = 0;
        let ghost start = self.pos as int;
        while read < count
            invariant
                read <= count,
                self.within(),
                self.data == old(self).data,
                self.pos == start + 4 * read,
                start == old(self).pos,
                handles@ == handles_at(self.data@, start, read as nat),
            decreases count - read,
        {
            match self.u32() {
                Err(error) => {
                    return Err(error);
                },
                Ok(handle) => {
                    handles.push(handle);
                    assert(handles@ =~= handles_at(self.data@, start, (read + 1) as nat));
                },
            }
            read = read + 1;
        }
        Ok(handles)
    }

    fn data_element(&mut self) -> (result: Result<DataElement, Error>)
        requires
            old(self).within(),
        ensures
            final(self).within(),
            final(self).data == old(self).data,
            match (result, parse_element(old(self).data@, old(self).pos as int, 0)) {
                (Ok(element), Ok((end, model))) => element@ == model && final(self).pos == end,
                (Err(error), Err(model)) => error@ == model,
                _ => false,
            },
    {
        proof {
            super::element::lemma_element_end(self.data@, self.pos as int, 0);
        }
        match DataElement::parse_from_bytes(self.data, self.pos) {
            Err(error) => Err(error),
            Ok((next, element)) => {
                self.pos = next;
                Ok(element)
            },
        }
    }

    fn length_prefixed_bytes(&mut self) -> (result: Result<Vec<u8>, Error>)
        requires
            old(self).within(),
        ensures
            final(self).within(),
            final(self).data == old(self).data,
            agrees(result, block_at(old(self).data@, old(self).pos as int)),
            result matches Ok(bytes) ==> final(self).pos == old(self).pos + 2 + bytes@.len(),
    {
        let length: usize = match self.u16() {
            Err(error) => {
                return Err(error);
            },
            Ok(length) => length as usize,
        };
        if self.data.len() - self.pos < length {
            return Err(truncated("length-prefixed bytes"));
        }
        let bytes = copy_range(self.data, self.pos, self.pos + length);
        self.pos = self.pos + length;
        Ok(bytes)
    }

    /// Everything that is left.
    fn rest(&mut self) -> (bytes: Vec<u8>)
        requires
            old(self).within(),
        ensures
            bytes@ == old(self).data@.skip(old(self).pos as int),
    {
        let bytes = copy_range(self.data, self.pos, self.data.len());
        assert(bytes@ =~= self.data@.skip(self.pos as int));
        self.pos = self.data.len();
        bytes
    }
}

/// An element that a unit can carry.
pub open spec fn portable(element: DataElementV) -> bool {
    &&& element.encode() is Ok
    &&& uuids_valid(element)
    &&& nesting(element) <= MAX_NESTING
}

impl SdpPduV {
    /// A unit that its bytes determine: its elements can be carried, and its
    /// parameters fit the length field.
    pub open spec fn valid(self) -> bool {
        &&& self.parameters() is Ok
        &&& self.parameters()->Ok_0.len() <= 65535
        &&& match self {
            SdpPduV::ServiceSearchRequest { service_search_pattern, .. } => portable(
                service_search_pattern,
            ),
            SdpPduV::ServiceAttributeRequest { attribute_id_list, .. } => portable(
                attribute_id_list,
            ),
            SdpPduV::ServiceSearchAttributeRequest {
                service_search_pattern,
                attribute_id_list,
                ..
            } => portable(service_search_pattern) && portable(attribute_id_list),
            _ => true,
        }
    }
}

pub proof fn lemma_handle_bytes(handles: Seq<u32>)
    ensures
        handle_bytes(handles).len() == 4 * handles.len(),
        forall|i: int|
            0 <= i < handles.len() ==> #[trigger] be32_at(handle_bytes(handles), 4 * i)
                == handles[i],
    decreases handles.len(),
{
    if handles.len() > 0 {
        lemma_handle_bytes(handles.drop_last());
        let before = handle_bytes(handles.drop_last());
        let all = handle_bytes(handles);
        assert forall|i: int| 0 <= i < handles.len() implies #[trigger] be32_at(all, 4 * i)
            == handles[i] by {
            if i < handles.len() - 1 {
                assert(be32_at(before, 4 * i) == handles.drop_last()[i]);
            } else {
                let h = handles.last();
                assert(all[4 * i] == be32(h)[0]);
                assert(all[4 * i + 1] == be32(h)[1]);
                assert(all[4 * i + 2] == be32(h)[2]);
                assert(all[4 * i + 3] == be32(h)[3]);
            }
        }
    }
}

proof fn lemma_be_reads_back(data: Seq<u8>, at: int, value16: u16, value32: u32)
    requires
        0 <= at,
    ensures
        at + 2 <= data.len() && data.subrange(at, at + 2) == be16(value16) ==> be16_at(data, at)
            == value16,
        at + 4 <= data.len() && data.subrange(at, at + 4) == be32(value32) ==> be32_at(data, at)
            == value32,
{
    if at + 2 <= data.len() && data.subrange(at, at + 2) == be16(value16) {
        assert(data[at] == data.subrange(at, at + 2)[0]);
        assert(data[at + 1] == data.subrange(at, at + 2)[1]);
    }
    if at + 4 <= data.len() && data.subrange(at, at + 4) == be32(value32) {
        assert(data[at] == data.subrange(at, at + 4)[0]);
        assert(data[at + 1] == data.subrange(at, at + 4)[1]);
        assert(data[at + 2] == data.subrange(at, at + 4)[2]);
        assert(data[at + 3] == data.subrange(at, at + 4)[3]);
    }
}

#[verifier::spinoff_prover]
#[verifier::rlimit(40)]
proof fn lemma_search_request_reads_back(pdu: SdpPduV)
    requires
        pdu.valid(),
        pdu is ServiceSearchRequest,
    ensures
        SdpPduV::from_parameters(pdu.pdu_id(), pdu.transaction_id(), pdu.parameters()->Ok_0) == Ok::<
            SdpPduV,
            ErrorV,
        >(pdu),
{
    reveal(SdpPduV::from_parameters);
    let data = pdu.parameters()->Ok_0;
    if let SdpPduV::ServiceSearchRequest {
        service_search_pattern,
        maximum_service_record_count,
        continuation_state,
        ..
    } = pdu {
        let pattern = service_search_pattern.encode()->Ok_0;
        let at = pattern.len() as int;
        assert(data.subrange(0, at) =~= pattern);
        element_reads_back(service_search_pattern, data, 0, 0);
        assert(data.subrange(at, at + 2) =~= be16(maximum_service_record_count));
        lemma_be_reads_back(data, at, maximum_service_record_count, 0);
        assert(data.skip(at + 2) =~= continuation_state);
    }
}

proof fn lemma_handles_read_back(data: Seq<u8>, handles: Seq<u32>)
    requires
        4 + 4 * handles.len() <= data.len(),
        data.subrange(4, 4 + 4 * handles.len() as int) == handle_bytes(handles),
    ensures
        handles_at(data, 4, handles.len()) == handles,
{
    let list = handle_bytes(handles);
    let read = handles_at(data, 4, handles.len());
    lemma_handle_bytes(handles);
    assert forall|i: int| 0 <= i < handles.len() implies read[i] == handles[i] by {
        assert(be32_at(list, 4 * i) == handles[i]);
        let part = data.subrange(4, 4 + 4 * handles.len() as int);
        assert(data[4 + 4 * i] == part[4 * i]);
        assert(data[4 + 4 * i + 1] == part[4 * i + 1]);
        assert(data[4 + 4 * i + 2] == part[4 * i + 2]);
        assert(data[4 + 4 * i + 3] == part[4 * i + 3]);
    }
    assert(read =~= handles);
}

#[verifier::spinoff_prover]
#[verifier::rlimit(40)]
proof fn lemma_search_response_reads_back(pdu: SdpPduV)
    requires
        pdu.valid(),
        pdu is ServiceSearchResponse,
    ensures
        SdpPduV::from_parameters(pdu.pdu_id(), pdu.transaction_id(), pdu.parameters()->Ok_0) == Ok::<
            SdpPduV,
            ErrorV,
        >(pdu),
{
    let data = pdu.parameters()->Ok_0;
    if let SdpPduV::ServiceSearchResponse {
        total_service_record_count,
        service_record_handle_list,
        continuation_state,
        ..
    } = pdu {
        let handles = service_record_handle_list;
        let count = handles.len() as int;
        let list = handle_bytes(handles);
        lemma_handle_bytes(handles);
        assert(data.len() == 4 + 4 * count + continuation_state.len());
        assert(count <= 65535);
        assert(data.subrange(0, 2) =~= be16(total_service_record_count));
        lemma_be_reads_back(data, 0, total_service_record_count, 0);
        assert(data.subrange(2, 4) =~= be16(count as u16));
        lemma_be_reads_back(data, 2, count as u16, 0);
        assert(data.subrange(4, 4 + 4 * count) =~= list);
        lemma_handles_read_back(data, handles);
        assert(data.skip(4 + 4 * count) =~= continuation_state);
        reveal(SdpPduV::from_parameters);
    }
}

#[verifier::spinoff_prover]
#[verifier::rlimit(40)]
proof fn lemma_attribute_request_reads_back(pdu: SdpPduV)
    requires
        pdu.valid(),
        pdu is ServiceAttributeRequest,
    ensures
        SdpPduV::from_parameters(pdu.pdu_id(), pdu.transaction_id(), pdu.parameters()->Ok_0) == Ok::<
            SdpPduV,
            ErrorV,
        >(pdu),
{
    reveal(SdpPduV::from_parameters);
    let data = pdu.parameters()->Ok_0;
    if let SdpPduV::ServiceAttributeRequest {
        service_record_handle,
        maximum_attribute_byte_count,
        attribute_id_list,
        continuation_state,
        ..
    } = pdu {
        let ids = attribute_id_list.encode()->Ok_0;
        assert(data.subrange(0, 4) =~= be32(service_record_handle));
        lemma_be_reads_back(data, 0, 0, service_record_handle);
        assert(data.subrange(4, 6) =~= be16(maximum_attribute_byte_count));
        lemma_be_reads_back(data, 4, maximum_attribute_byte_count, 0);
        assert(data.subrange(6, 6 + ids.len() as int) =~= ids);
        element_reads_back(attribute_id_list, data, 6, 0);
        assert(data.skip(6 + ids.len() as int) =~= continuation_state);
    }
}

#[verifier::spinoff_prover]
#[verifier::rlimit(40)]
proof fn lemma_search_attribute_request_reads_back(pdu: SdpPduV)
    requires
        pdu.valid(),
        pdu is ServiceSearchAttributeRequest,
    ensures
        SdpPduV::from_parameters(pdu.pdu_id(), pdu.transaction_id(), pdu.parameters()->Ok_0) == Ok::<
            SdpPduV,
            ErrorV,
        >(pdu),
{
    reveal(SdpPduV::from_parameters);
    let data = pdu.parameters()->Ok_0;
    if let SdpPduV::ServiceSearchAttributeRequest {
        service_search_pattern,
        maximum_attribute_byte_count,
        attribute_id_list,
        continuation_state,
        ..
    } = pdu {
        let pattern = service_search_pattern.encode()->Ok_0;
        let ids = attribute_id_list.encode()->Ok_0;
        let at = pattern.len() as int;
        let end = at + 2 + ids.len() as int;
        assert(data.subrange(0, at) =~= pattern);
        element_reads_back(service_search_pattern, data, 0, 0);
        assert(data.subrange(at, at + 2) =~= be16(maximum_attribute_byte_count));
        lemma_be_reads_back(data, at, maximum_attribute_byte_count, 0);
        assert(data.subrange(at + 2, end) =~= ids);
        element_reads_back(attribute_id_list, data, at + 2, 0);
        assert(data.skip(end) =~= continuation_state);
    }
}

proof fn lemma_short_response_reads_back(pdu: SdpPduV)
    requires
        pdu.valid(),
        pdu is ErrorResponse || pdu is ServiceAttributeResponse || pdu
            is ServiceSearchAttributeResponse,
    ensures
        SdpPduV::from_parameters(pdu.pdu_id(), pdu.transaction_id(), pdu.parameters()->Ok_0) == Ok::<
            SdpPduV,
            ErrorV,
        >(pdu),
{
    reveal(SdpPduV::from_parameters);
    let data = pdu.parameters()->Ok_0;
    match pdu {
        SdpPduV::ServiceAttributeResponse { attribute_list, continuation_state, .. } => {
            lemma_block(data, attribute_list, continuation_state);
        },
        SdpPduV::ServiceSearchAttributeResponse { attribute_lists, continuation_state, .. } => {
            lemma_block(data, attribute_lists, continuation_state);
        },
        _ => {},
    }
}

proof fn lemma_parameters_read_back(pdu: SdpPduV)
    requires
        pdu.valid(),
    ensures
        SdpPduV::from_parameters(pdu.pdu_id(), pdu.transaction_id(), pdu.parameters()->Ok_0) == Ok::<
            SdpPduV,
            ErrorV,
        >(pdu),
{
    match pdu {
        SdpPduV::ServiceSearchRequest { .. } => lemma_search_request_reads_back(pdu),
        SdpPduV::ServiceSearchResponse { .. } => lemma_search_response_reads_back(pdu),
        SdpPduV::ServiceAttributeRequest { .. } => lemma_attribute_request_reads_back(pdu),
        SdpPduV::ServiceSearchAttributeRequest { .. } => lemma_search_attribute_request_reads_back(
            pdu,
        ),
        _ => lemma_short_response_reads_back(pdu),
    }
}

proof fn lemma_block(data: Seq<u8>, block: Seq<u8>, rest: Seq<u8>)
    requires
        data == be16((block.len() % 65536) as u16) + block + rest,
        data.len() <= 65535,
    ensures
        block_at(data, 0) == Ok::<Seq<u8>, ErrorV>(block),
        data.skip(2 + block.len() as int) == rest,
{
    assert(data.subrange(0, 2) =~= be16(block.len() as u16));
    lemma_be_reads_back(data, 0, block.len() as u16, 0);
    assert(data.subrange(2, 2 + block.len() as int) =~= block);
    assert(data.skip(2 + block.len() as int) =~= rest);
}

/// Every valid unit is read back from its own bytes, whatever follows them.
pub proof fn pdu_reads_back(pdu: SdpPduV, tail: Seq<u8>)
    requires
        pdu.valid(),
    ensures
        pdu.encode() is Ok,
        SdpPduV::decode(pdu.encode()->Ok_0 + tail) == Ok::<SdpPduV, ErrorV>(pdu),
{
    let parameters = pdu.parameters()->Ok_0;
    let bytes = pdu.encode()->Ok_0 + tail;
    lemma_parameters_read_back(pdu);
    assert(bytes.subrange(1, 3) =~= be16(pdu.transaction_id()));
    lemma_be_reads_back(bytes, 1, pdu.transaction_id(), 0);
    assert(bytes.subrange(3, 5) =~= be16(parameters.len() as u16));
    lemma_be_reads_back(bytes, 3, parameters.len() as u16, 0);
    assert(bytes.subrange(5, 5 + parameters.len() as int) =~= parameters);
}

} // verus!
