//! Identifiers of protocol data units.

use vstd::prelude::*;

verus! {

pub const SDP_ERROR_RESPONSE: u8 = 0x01;

pub const SDP_SERVICE_SEARCH_REQUEST: u8 = 0x02;

pub const SDP_SERVICE_SEARCH_RESPONSE: u8 = 0x03;

pub const SDP_SERVICE_ATTRIBUTE_REQUEST: u8 = 0x04;

pub const SDP_SERVICE_ATTRIBUTE_RESPONSE: u8 = 0x05;

pub const SDP_SERVICE_SEARCH_ATTRIBUTE_REQUEST: u8 = 0x06;

pub const SDP_SERVICE_SEARCH_ATTRIBUTE_RESPONSE: u8 = 0x07;

} // verus!
