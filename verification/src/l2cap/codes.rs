//! L2CAP signaling command codes.

use vstd::prelude::*;

verus! {

pub const COMMAND_REJECT: u8 = 0x01;

pub const CONNECTION_REQUEST: u8 = 0x02;

pub const CONNECTION_RESPONSE: u8 = 0x03;

pub const CONFIGURE_REQUEST: u8 = 0x04;

pub const CONFIGURE_RESPONSE: u8 = 0x05;

pub const DISCONNECTION_REQUEST: u8 = 0x06;

pub const DISCONNECTION_RESPONSE: u8 = 0x07;

pub const ECHO_REQUEST: u8 = 0x08;

pub const ECHO_RESPONSE: u8 = 0x09;

pub const INFORMATION_REQUEST: u8 = 0x0A;

pub const INFORMATION_RESPONSE: u8 = 0x0B;

pub const CONNECTION_PARAMETER_UPDATE_REQUEST: u8 = 0x12;

pub const CONNECTION_PARAMETER_UPDATE_RESPONSE: u8 = 0x13;

pub const LE_CREDIT_BASED_CONNECTION_REQUEST: u8 = 0x14;

pub const LE_CREDIT_BASED_CONNECTION_RESPONSE: u8 = 0x15;

pub const LE_FLOW_CONTROL_CREDIT: u8 = 0x16;

pub const CREDIT_BASED_CONNECTION_REQUEST: u8 = 0x17;

pub const CREDIT_BASED_CONNECTION_RESPONSE: u8 = 0x18;

pub const CREDIT_BASED_RECONFIGURE_REQUEST: u8 = 0x19;

pub const CREDIT_BASED_RECONFIGURE_RESPONSE: u8 = 0x1A;

} // verus!
