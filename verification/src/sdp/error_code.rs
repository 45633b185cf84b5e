//! Codes carried by error responses.

use vstd::prelude::*;

verus! {

pub const INVALID_SDP_VERSION: u16 = 0x0001;

pub const INVALID_SERVICE_RECORD_HANDLE: u16 = 0x0002;

pub const INVALID_REQUEST_SYNTAX: u16 = 0x0003;

pub const INVALID_PDU_SIZE: u16 = 0x0004;

pub const INVALID_CONTINUATION_STATE: u16 = 0x0005;

pub const INSUFFICIENT_RESOURCES_TO_SATISFY_REQUEST: u16 = 0x0006;

} // verus!
