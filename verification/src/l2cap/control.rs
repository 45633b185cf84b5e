//! Signaling frames: the typed requests and responses of the signaling channel
//! and their bytes.

use vstd::prelude::*;

use super::codes;
use super::{agrees, parse_psm, psm_at, psm_bytes, psm_reads_back, self_delimiting_psm, serialize_psm, Error};
use crate::bytes::{append_bytes, copy_bytes, copy_range, le16, le16_at, push_le16, read_le16};
use crate::text::{decimal, decimal_text};
use vstd::slice::slice_subrange;

verus! {

/// The contents of a signaling frame.
#[allow(inconsistent_fields)]
pub enum ControlFrameV {
    CommandReject { identifier: u8, reason: u16, data: Seq<u8> },
    ConnectionRequest { identifier: u8, psm: u32, source_cid: u16 },
    ConnectionResponse { identifier: u8, destination_cid: u16, source_cid: u16, result: u16, status: u16 },
    ConfigureRequest { identifier: u8, destination_cid: u16, flags: u16, options: Seq<u8> },
    ConfigureResponse { identifier: u8, source_cid: u16, flags: u16, result: u16, options: Seq<u8> },
    DisconnectionRequest { identifier: u8, destination_cid: u16, source_cid: u16 },
    DisconnectionResponse { identifier: u8, destination_cid: u16, source_cid: u16 },
    EchoRequest { identifier: u8, data: Seq<u8> },
    EchoResponse { identifier: u8, data: Seq<u8> },
    InformationRequest { identifier: u8, info_type: u16 },
    InformationResponse { identifier: u8, info_type: u16, result: u16, data: Seq<u8> },
    ConnectionParameterUpdateRequest { identifier: u8, interval_min: u16, interval_max: u16, latency: u16, timeout: u16 },
    ConnectionParameterUpdateResponse { identifier: u8, result: u16 },
    LeCreditBasedConnectionRequest { identifier: u8, le_psm: u16, source_cid: u16, mtu: u16, mps: u16, initial_credits: u16 },
    LeCreditBasedConnectionResponse { identifier: u8, destination_cid: u16, mtu: u16, mps: u16, initial_credits: u16, result: u16 },
    LeFlowControlCredit { identifier: u8, cid: u16, credits: u16 },
    CreditBasedConnectionRequest { identifier: u8, spsm: u16, mtu: u16, mps: u16, initial_credits: u16, source_cid: Seq<u16> },
    CreditBasedConnectionResponse { identifier: u8, mtu: u16, mps: u16, initial_credits: u16, result: u16, destination_cid: Seq<u16> },
    CreditBasedReconfigureRequest { identifier: u8, mtu: u16, mps: u16, destination_cid: Seq<u16> },
    CreditBasedReconfigureResponse { identifier: u8, result: u16 },
    Generic { code: u8, identifier: u8, payload: Seq<u8> },
}

/// An L2CAP signaling frame. Typed variants carry decoded fields;
/// [`ControlFrame::Generic`] preserves any other signaling code.
#[allow(inconsistent_fields)]
#[derive(Clone, Debug, PartialEq, Eq)]
pub enum ControlFrame {
    CommandReject { identifier: u8, reason: u16, data: Vec<u8> },
    ConnectionRequest { identifier: u8, psm: u32, source_cid: u16 },
    ConnectionResponse { identifier: u8, destination_cid: u16, source_cid: u16, result: u16, status: u16 },
    ConfigureRequest { identifier: u8, destination_cid: u16, flags: u16, options: Vec<u8> },
    ConfigureResponse { identifier: u8, source_cid: u16, flags: u16, result: u16, options: Vec<u8> },
    DisconnectionRequest { identifier: u8, destination_cid: u16, source_cid: u16 },
    DisconnectionResponse { identifier: u8, destination_cid: u16, source_cid: u16 },
    EchoRequest { identifier: u8, data: Vec<u8> },
    EchoResponse { identifier: u8, data: Vec<u8> },
    InformationRequest { identifier: u8, info_type: u16 },
    InformationResponse { identifier: u8, info_type: u16, result: u16, data: Vec<u8> },
    ConnectionParameterUpdateRequest { identifier: u8, interval_min: u16, interval_max: u16, latency: u16, timeout: u16 },
    ConnectionParameterUpdateResponse { identifier: u8, result: u16 },
    LeCreditBasedConnectionRequest { identifier: u8, le_psm: u16, source_cid: u16, mtu: u16, mps: u16, initial_credits: u16 },
    LeCreditBasedConnectionResponse { identifier: u8, destination_cid: u16, mtu: u16, mps: u16, initial_credits: u16, result: u16 },
    LeFlowControlCredit { identifier: u8, cid: u16, credits: u16 },
    CreditBasedConnectionRequest { identifier: u8, spsm: u16, mtu: u16, mps: u16, initial_credits: u16, source_cid: Vec<u16> },
    CreditBasedConnectionResponse { identifier: u8, mtu: u16, mps: u16, initial_credits: u16, result: u16, destination_cid: Vec<u16> },
    CreditBasedReconfigureRequest { identifier: u8, mtu: u16, mps: u16, destination_cid: Vec<u16> },
    CreditBasedReconfigureResponse { identifier: u8, result: u16 },
    /// Any signaling code without a typed frame.
    Generic { code: u8, identifier: u8, payload: Vec<u8> },
}

impl View for ControlFrame {
    type V = ControlFrameV;

    open spec fn view(&self) -> ControlFrameV {
        match *self {
            ControlFrame::CommandReject { identifier, reason, data } => ControlFrameV::CommandReject { identifier, reason, data: data@ },
            ControlFrame::ConnectionRequest { identifier, psm, source_cid } => ControlFrameV::ConnectionRequest { identifier, psm, source_cid },
            ControlFrame::ConnectionResponse { identifier, destination_cid, source_cid, result, status } => ControlFrameV::ConnectionResponse { identifier, destination_cid, source_cid, result, status },
            ControlFrame::ConfigureRequest { identifier, destination_cid, flags, options } => ControlFrameV::ConfigureRequest { identifier, destination_cid, flags, options: options@ },
            ControlFrame::ConfigureResponse { identifier, source_cid, flags, result, options } => ControlFrameV::ConfigureResponse { identifier, source_cid, flags, result, options: options@ },
            ControlFrame::DisconnectionRequest { identifier, destination_cid, source_cid } => ControlFrameV::DisconnectionRequest { identifier, destination_cid, source_cid },
            ControlFrame::DisconnectionResponse { identifier, destination_cid, source_cid } => ControlFrameV::DisconnectionResponse { identifier, destination_cid, source_cid },
            ControlFrame::EchoRequest { identifier, data } => ControlFrameV::EchoRequest { identifier, data: data@ },
            ControlFrame::EchoResponse { identifier, data } => ControlFrameV::EchoResponse { identifier, data: data@ },
            ControlFrame::InformationRequest { identifier, info_type } => ControlFrameV::InformationRequest { identifier, info_type },
            ControlFrame::InformationResponse { identifier, info_type, result, data } => ControlFrameV::InformationResponse { identifier, info_type, result, data: data@ },
            ControlFrame::ConnectionParameterUpdateRequest { identifier, interval_min, interval_max, latency, timeout } => ControlFrameV::ConnectionParameterUpdateRequest { identifier, interval_min, interval_max, latency, timeout },
            ControlFrame::ConnectionParameterUpdateResponse { identifier, result } => ControlFrameV::ConnectionParameterUpdateResponse { identifier, result },
            ControlFrame::LeCreditBasedConnectionRequest { identifier, le_psm, source_cid, mtu, mps, initial_credits } => ControlFrameV::LeCreditBasedConnectionRequest { identifier, le_psm, source_cid, mtu, mps, initial_credits },
            ControlFrame::LeCreditBasedConnectionResponse { identifier, destination_cid, mtu, mps, initial_credits, result } => ControlFrameV::LeCreditBasedConnectionResponse { identifier, destination_cid, mtu, mps, initial_credits, result },
            ControlFrame::LeFlowControlCredit { identifier, cid, credits } => ControlFrameV::LeFlowControlCredit { identifier, cid, credits },
            ControlFrame::CreditBasedConnectionRequest { identifier, spsm, mtu, mps, initial_credits, source_cid } => ControlFrameV::CreditBasedConnectionRequest { identifier, spsm, mtu, mps, initial_credits, source_cid: source_cid@ },
            ControlFrame::CreditBasedConnectionResponse { identifier, mtu, mps, initial_credits, result, destination_cid } => ControlFrameV::CreditBasedConnectionResponse { identifier, mtu, mps, initial_credits, result, destination_cid: destination_cid@ },
            ControlFrame::CreditBasedReconfigureRequest { identifier, mtu, mps, destination_cid } => ControlFrameV::CreditBasedReconfigureRequest { identifier, mtu, mps, destination_cid: destination_cid@ },
            ControlFrame::CreditBasedReconfigureResponse { identifier, result } => ControlFrameV::CreditBasedReconfigureResponse { identifier, result },
            ControlFrame::Generic { code, identifier, payload } => ControlFrameV::Generic { code, identifier, payload: payload@ },
        }
    }
}

/// Channel identifiers as consecutive little-endian pairs of bytes.
pub open spec fn cid_bytes(cids: Seq<u16>) -> Seq<u8> {
    Seq::new(
        2 * cids.len(),
        |i: int|
            if i % 2 == 0 {
                (cids[i / 2] % 256) as u8
            } else {
                (cids[i / 2] / 256) as u8
            },
    )
}

/// The channel identifiers in consecutive pairs of bytes.
pub open spec fn cids_of(data: Seq<u8>) -> Seq<u16> {
    Seq::new(data.len() / 2, |i: int| le16_at(data, 2 * i))
}

/// The reason for refusing a payload of `actual` bytes where `needed` are needed.
pub open spec fn short_payload(needed: int, actual: int) -> Seq<char> {
    "control frame payload too short: need "@ + decimal(needed as nat) + ", have "@ + decimal(
        actual as nat,
    )
}

impl ControlFrameV {
    pub open spec fn code(self) -> u8 {
        match self {
            ControlFrameV::CommandReject { .. } => codes::COMMAND_REJECT,
            ControlFrameV::ConnectionRequest { .. } => codes::CONNECTION_REQUEST,
            ControlFrameV::ConnectionResponse { .. } => codes::CONNECTION_RESPONSE,
            ControlFrameV::ConfigureRequest { .. } => codes::CONFIGURE_REQUEST,
            ControlFrameV::ConfigureResponse { .. } => codes::CONFIGURE_RESPONSE,
            ControlFrameV::DisconnectionRequest { .. } => codes::DISCONNECTION_REQUEST,
            ControlFrameV::DisconnectionResponse { .. } => codes::DISCONNECTION_RESPONSE,
            ControlFrameV::EchoRequest { .. } => codes::ECHO_REQUEST,
            ControlFrameV::EchoResponse { .. } => codes::ECHO_RESPONSE,
            ControlFrameV::InformationRequest { .. } => codes::INFORMATION_REQUEST,
            ControlFrameV::InformationResponse { .. } => codes::INFORMATION_RESPONSE,
            ControlFrameV::ConnectionParameterUpdateRequest { .. } => codes::CONNECTION_PARAMETER_UPDATE_REQUEST,
            ControlFrameV::ConnectionParameterUpdateResponse { .. } => codes::CONNECTION_PARAMETER_UPDATE_RESPONSE,
            ControlFrameV::LeCreditBasedConnectionRequest { .. } => codes::LE_CREDIT_BASED_CONNECTION_REQUEST,
            ControlFrameV::LeCreditBasedConnectionResponse { .. } => codes::LE_CREDIT_BASED_CONNECTION_RESPONSE,
            ControlFrameV::LeFlowControlCredit { .. } => codes::LE_FLOW_CONTROL_CREDIT,
            ControlFrameV::CreditBasedConnectionRequest { .. } => codes::CREDIT_BASED_CONNECTION_REQUEST,
            ControlFrameV::CreditBasedConnectionResponse { .. } => codes::CREDIT_BASED_CONNECTION_RESPONSE,
            ControlFrameV::CreditBasedReconfigureRequest { .. } => codes::CREDIT_BASED_RECONFIGURE_REQUEST,
            ControlFrameV::CreditBasedReconfigureResponse { .. } => codes::CREDIT_BASED_RECONFIGURE_RESPONSE,
            ControlFrameV::Generic { code, .. } => code,
        }
    }

    pub open spec fn identifier(self) -> u8 {
        match self {
            ControlFrameV::CommandReject { identifier, .. } => identifier,
            ControlFrameV::ConnectionRequest { identifier, .. } => identifier,
            ControlFrameV::ConnectionResponse { identifier, .. } => identifier,
            ControlFrameV::ConfigureRequest { identifier, .. } => identifier,
            ControlFrameV::ConfigureResponse { identifier, .. } => identifier,
            ControlFrameV::DisconnectionRequest { identifier, .. } => identifier,
            ControlFrameV::DisconnectionResponse { identifier, .. } => identifier,
            ControlFrameV::EchoRequest { identifier, .. } => identifier,
            ControlFrameV::EchoResponse { identifier, .. } => identifier,
            ControlFrameV::InformationRequest { identifier, .. } => identifier,
            ControlFrameV::InformationResponse { identifier, .. } => identifier,
            ControlFrameV::ConnectionParameterUpdateRequest { identifier, .. } => identifier,
            ControlFrameV::ConnectionParameterUpdateResponse { identifier, .. } => identifier,
            ControlFrameV::LeCreditBasedConnectionRequest { identifier, .. } => identifier,
            ControlFrameV::LeCreditBasedConnectionResponse { identifier, .. } => identifier,
            ControlFrameV::LeFlowControlCredit { identifier, .. } => identifier,
            ControlFrameV::CreditBasedConnectionRequest { identifier, .. } => identifier,
            ControlFrameV::CreditBasedConnectionResponse { identifier, .. } => identifier,
            ControlFrameV::CreditBasedReconfigureRequest { identifier, .. } => identifier,
            ControlFrameV::CreditBasedReconfigureResponse { identifier, .. } => identifier,
            ControlFrameV::Generic { identifier, .. } => identifier,
        }
    }

    /// The bytes after the four-byte header.
    pub open spec fn payload(self) -> Seq<u8> {
        match self {
            ControlFrameV::CommandReject { reason, data, .. } => le16(reason) + data,
            ControlFrameV::ConnectionRequest { psm, source_cid, .. } => psm_bytes(psm) + le16(source_cid),
            ControlFrameV::ConnectionResponse { destination_cid, source_cid, result, status, .. } => le16(destination_cid) + le16(source_cid) + le16(result) + le16(status),
            ControlFrameV::ConfigureRequest { destination_cid, flags, options, .. } => le16(destination_cid) + le16(flags) + options,
            ControlFrameV::ConfigureResponse { source_cid, flags, result, options, .. } => le16(source_cid) + le16(flags) + le16(result) + options,
            ControlFrameV::DisconnectionRequest { destination_cid, source_cid, .. } => le16(destination_cid) + le16(source_cid),
            ControlFrameV::DisconnectionResponse { destination_cid, source_cid, .. } => le16(destination_cid) + le16(source_cid),
            ControlFrameV::EchoRequest { data, .. } => data,
            ControlFrameV::EchoResponse { data, .. } => data,
            ControlFrameV::InformationRequest { info_type, .. } => le16(info_type),
            ControlFrameV::InformationResponse { info_type, result, data, .. } => le16(info_type) + le16(result) + data,
            ControlFrameV::ConnectionParameterUpdateRequest { interval_min, interval_max, latency, timeout, .. } => le16(interval_min) + le16(interval_max) + le16(latency) + le16(timeout),
            ControlFrameV::ConnectionParameterUpdateResponse { result, .. } => le16(result),
            ControlFrameV::LeCreditBasedConnectionRequest { le_psm, source_cid, mtu, mps, initial_credits, .. } => le16(le_psm) + le16(source_cid) + le16(mtu) + le16(mps) + le16(initial_credits),
            ControlFrameV::LeCreditBasedConnectionResponse { destination_cid, mtu, mps, initial_credits, result, .. } => le16(destination_cid) + le16(mtu) + le16(mps) + le16(initial_credits) + le16(result),
            ControlFrameV::LeFlowControlCredit { cid, credits, .. } => le16(cid) + le16(credits),
            ControlFrameV::CreditBasedConnectionRequest { spsm, mtu, mps, initial_credits, source_cid, .. } => le16(spsm) + le16(mtu) + le16(mps) + le16(initial_credits) + cid_bytes(source_cid),
            ControlFrameV::CreditBasedConnectionResponse { mtu, mps, initial_credits, result, destination_cid, .. } => le16(mtu) + le16(mps) + le16(initial_credits) + le16(result) + cid_bytes(destination_cid),
            ControlFrameV::CreditBasedReconfigureRequest { mtu, mps, destination_cid, .. } => le16(mtu) + le16(mps) + cid_bytes(destination_cid),
            ControlFrameV::CreditBasedReconfigureResponse { result, .. } => le16(result),
            ControlFrameV::Generic { payload, .. } => payload,
        }
    }

    /// The whole frame: code, identifier, payload length and payload.
    pub open spec fn encode(self) -> Seq<u8> {
        seq![self.code(), self.identifier()] + le16((self.payload().len() % 65536) as u16)
            + self.payload()
    }

    /// The frame with this code, identifier and payload.
    pub open spec fn from_parts(code: u8, identifier: u8, payload: Seq<u8>) -> Result<ControlFrameV, Seq<char>> {
        if code == codes::COMMAND_REJECT {
            if payload.len() < 2 {
                Err(short_payload(2, payload.len() as int))
            } else {
                Ok(ControlFrameV::CommandReject { identifier, reason: le16_at(payload, 0), data: payload.skip(2) })
            }
        } else if code == codes::CONNECTION_REQUEST {
            match psm_at(payload, 0) {
                Err(reason) => Err(reason),
                Ok((offset, psm)) => if offset + 2 > payload.len() {
                    Err("truncated Connection_Request"@)
                } else {
                    Ok(ControlFrameV::ConnectionRequest { identifier, psm, source_cid: le16_at(payload, offset as int) })
                },
            }
        } else if code == codes::CONNECTION_RESPONSE {
            if payload.len() < 8 {
                Err(short_payload(8, payload.len() as int))
            } else {
                Ok(ControlFrameV::ConnectionResponse { identifier, destination_cid: le16_at(payload, 0), source_cid: le16_at(payload, 2), result: le16_at(payload, 4), status: le16_at(payload, 6) })
            }
        } else if code == codes::CONFIGURE_REQUEST {
            if payload.len() < 4 {
                Err(short_payload(4, payload.len() as int))
            } else {
                Ok(ControlFrameV::ConfigureRequest { identifier, destination_cid: le16_at(payload, 0), flags: le16_at(payload, 2), options: payload.skip(4) })
            }
        } else if code == codes::CONFIGURE_RESPONSE {
            if payload.len() < 6 {
                Err(short_payload(6, payload.len() as int))
            } else {
                Ok(ControlFrameV::ConfigureResponse { identifier, source_cid: le16_at(payload, 0), flags: le16_at(payload, 2), result: le16_at(payload, 4), options: payload.skip(6) })
            }
        } else if code == codes::DISCONNECTION_REQUEST {
            if payload.len() < 4 {
                Err(short_payload(4, payload.len() as int))
            } else {
                Ok(ControlFrameV::DisconnectionRequest { identifier, destination_cid: le16_at(payload, 0), source_cid: le16_at(payload, 2) })
            }
        } else if code == codes::DISCONNECTION_RESPONSE {
            if payload.len() < 4 {
                Err(short_payload(4, payload.len() as int))
            } else {
                Ok(ControlFrameV::DisconnectionResponse { identifier, destination_cid: le16_at(payload, 0), source_cid: le16_at(payload, 2) })
            }
        } else if code == codes::ECHO_REQUEST {
            Ok(ControlFrameV::EchoRequest { identifier, data: payload })
        } else if code == codes::ECHO_RESPONSE {
            Ok(ControlFrameV::EchoResponse { identifier, data: payload })
        } else if code == codes::INFORMATION_REQUEST {
            if payload.len() < 2 {
                Err(short_payload(2, payload.len() as int))
            } else {
                Ok(ControlFrameV::InformationRequest { identifier, info_type: le16_at(payload, 0) })
            }
        } else if code == codes::INFORMATION_RESPONSE {
            if payload.len() < 4 {
                Err(short_payload(4, payload.len() as int))
            } else {
                Ok(ControlFrameV::InformationResponse { identifier, info_type: le16_at(payload, 0), result: le16_at(payload, 2), data: payload.skip(4) })
            }
        } else if code == codes::CONNECTION_PARAMETER_UPDATE_REQUEST {
            if payload.len() < 8 {
                Err(short_payload(8, payload.len() as int))
            } else {
                Ok(ControlFrameV::ConnectionParameterUpdateRequest { identifier, interval_min: le16_at(payload, 0), interval_max: le16_at(payload, 2), latency: le16_at(payload, 4), timeout: le16_at(payload, 6) })
            }
        } else if code == codes::CONNECTION_PARAMETER_UPDATE_RESPONSE {
            if payload.len() < 2 {
                Err(short_payload(2, payload.len() as int))
            } else {
                Ok(ControlFrameV::ConnectionParameterUpdateResponse { identifier, result: le16_at(payload, 0) })
            }
        } else if code == codes::LE_CREDIT_BASED_CONNECTION_REQUEST {
            if payload.len() < 10 {
                Err(short_payload(10, payload.len() as int))
            } else {
                Ok(ControlFrameV::LeCreditBasedConnectionRequest { identifier, le_psm: le16_at(payload, 0), source_cid: le16_at(payload, 2), mtu: le16_at(payload, 4), mps: le16_at(payload, 6), initial_credits: le16_at(payload, 8) })
            }
        } else if code == codes::LE_CREDIT_BASED_CONNECTION_RESPONSE {
            if payload.len() < 10 {
                Err(short_payload(10, payload.len() as int))
            } else {
                Ok(ControlFrameV::LeCreditBasedConnectionResponse { identifier, destination_cid: le16_at(payload, 0), mtu: le16_at(payload, 2), mps: le16_at(payload, 4), initial_credits: le16_at(payload, 6), result: le16_at(payload, 8) })
            }
        } else if code == codes::LE_FLOW_CONTROL_CREDIT {
            if payload.len() < 4 {
                Err(short_payload(4, payload.len() as int))
            } else {
                Ok(ControlFrameV::LeFlowControlCredit { identifier, cid: le16_at(payload, 0), credits: le16_at(payload, 2) })
            }
        } else if code == codes::CREDIT_BASED_CONNECTION_REQUEST {
            if payload.len() < 8 {
                Err(short_payload(8, payload.len() as int))
            } else if payload.len() % 2 != 0 {
                Err("CID list has an odd byte length"@)
            } else {
                Ok(ControlFrameV::CreditBasedConnectionRequest { identifier, spsm: le16_at(payload, 0), mtu: le16_at(payload, 2), mps: le16_at(payload, 4), initial_credits: le16_at(payload, 6), source_cid: cids_of(payload.skip(8)) })
            }
        } else if code == codes::CREDIT_BASED_CONNECTION_RESPONSE {
            if payload.len() < 8 {
                Err(short_payload(8, payload.len() as int))
            } else if payload.len() % 2 != 0 {
                Err("CID list has an odd byte length"@)
            } else {
                Ok(ControlFrameV::CreditBasedConnectionResponse { identifier, mtu: le16_at(payload, 0), mps: le16_at(payload, 2), initial_credits: le16_at(payload, 4), result: le16_at(payload, 6), destination_cid: cids_of(payload.skip(8)) })
            }
        } else if code == codes::CREDIT_BASED_RECONFIGURE_REQUEST {
            if payload.len() < 4 {
                Err(short_payload(4, payload.len() as int))
            } else if payload.len() % 2 != 0 {
                Err("CID list has an odd byte length"@)
            } else {
                Ok(ControlFrameV::CreditBasedReconfigureRequest { identifier, mtu: le16_at(payload, 0), mps: le16_at(payload, 2), destination_cid: cids_of(payload.skip(4)) })
            }
        } else if code == codes::CREDIT_BASED_RECONFIGURE_RESPONSE {
            if payload.len() < 2 {
                Err(short_payload(2, payload.len() as int))
            } else {
                Ok(ControlFrameV::CreditBasedReconfigureResponse { identifier, result: le16_at(payload, 0) })
            }
        } else {
            Ok(ControlFrameV::Generic { code, identifier, payload })
        }
    }

    pub open spec fn decode(pdu: Seq<u8>) -> Result<ControlFrameV, Seq<char>> {
        if pdu.len() < 4 {
            Err("not enough data for control frame"@)
        } else {
            let declared = 4 + le16_at(pdu, 2);
            let end = if declared < pdu.len() {
                declared
            } else {
                pdu.len() as int
            };
            Self::from_parts(pdu[0], pdu[1], pdu.subrange(4, end))
        }
    }

    /// A frame that its bytes determine: the payload fits the length field, a
    /// PSM marks its own end, and a generic frame has none of the typed codes.
    pub open spec fn valid(self) -> bool {
        &&& self.payload().len() <= 65535
        &&& self matches ControlFrameV::ConnectionRequest { psm, .. } ==> self_delimiting_psm(psm)
        &&& self matches ControlFrameV::Generic { code, .. } ==> !typed_code(code)
    }
}

/// Whether a typed frame has this code.
pub open spec fn typed_code(code: u8) -> bool {
    0x01 <= code <= 0x0B || 0x12 <= code <= 0x1A
}

fn push_cids(buffer: &mut Vec<u8>, cids: &Vec<u16>)
    ensures
        final(buffer)@ == old(buffer)@ + cid_bytes(cids@),
{
    let mut index: usize = 0;
    assert(cid_bytes(cids@.take(0)) =~= Seq::<u8>::empty());
    assert(buffer@ =~= old(buffer)@ + cid_bytes(cids@.take(0)));
    while index < cids.len()
        invariant
            index <= cids@.len(),
            buffer@ == old(buffer)@ + cid_bytes(cids@.take(index as int)),
        decreases cids@.len() - index,
    {
        push_le16(buffer, cids[index]);
        assert(cid_bytes(cids@.take(index as int)) + le16(cids@[index as int]) =~= cid_bytes(
            cids@.take(index + 1),
        ));
        assert(buffer@ =~= old(buffer)@ + cid_bytes(cids@.take(index + 1)));
        index = index + 1;
    }
    assert(cids@.take(index as int) =~= cids@);
}

fn read_cid_list(data: &[u8]) -> (result: Result<Vec<u16>, Error>)
    ensures
        agrees(
            result,
            if data@.len() % 2 != 0 {
                Err("CID list has an odd byte length"@)
            } else {
                Ok(cids_of(data@))
            },
        ),
{
    if data.len() % 2 != 0 {
        return Err(Error::new("CID list has an odd byte length"));
    }
    let mut cids: Vec<u16> = Vec::new();
    let mut at: usize = 0;
    while at < data.len()
        invariant
            at <= data@.len(),
            at % 2 == 0,
            data@.len() % 2 == 0,
            cids@ == cids_of(data@.take(at as int)),
        decreases data@.len() - at,
    {
        cids.push(read_le16(data, at));
        assert(cids@ =~= cids_of(data@.take(at + 2)));
        at = at + 2;
    }
    assert(data@.take(at as int) =~= data@);
    Ok(cids)
}

fn need(payload: &[u8], needed: usize) -> (result: Result<(), Error>)
    ensures
        match result {
            Ok(_) => payload@.len() >= needed,
            Err(error) => payload@.len() < needed && error@ == short_payload(
                needed as int,
                payload@.len() as int,
            ),
        },
{
    if payload.len() < needed {
        let mut reason = "control frame payload too short: need ".to_owned();
        reason.append(decimal_text(needed as u64).as_str());
        reason.append(", have ");
        reason.append(decimal_text(payload.len() as u64).as_str());
        Err(Error::InvalidPacket(reason))
    } else {
        Ok(())
    }
}

impl ControlFrame {
    pub fn code(&self) -> (code: u8)
        ensures
            code == self@.code(),
    {
        match self {
            ControlFrame::CommandReject { .. } => codes::COMMAND_REJECT,
            ControlFrame::ConnectionRequest { .. } => codes::CONNECTION_REQUEST,
            ControlFrame::ConnectionResponse { .. } => codes::CONNECTION_RESPONSE,
            ControlFrame::ConfigureRequest { .. } => codes::CONFIGURE_REQUEST,
            ControlFrame::ConfigureResponse { .. } => codes::CONFIGURE_RESPONSE,
            ControlFrame::DisconnectionRequest { .. } => codes::DISCONNECTION_REQUEST,
            ControlFrame::DisconnectionResponse { .. } => codes::DISCONNECTION_RESPONSE,
            ControlFrame::EchoRequest { .. } => codes::ECHO_REQUEST,
            ControlFrame::EchoResponse { .. } => codes::ECHO_RESPONSE,
            ControlFrame::InformationRequest { .. } => codes::INFORMATION_REQUEST,
            ControlFrame::InformationResponse { .. } => codes::INFORMATION_RESPONSE,
            ControlFrame::ConnectionParameterUpdateRequest { .. } => codes::CONNECTION_PARAMETER_UPDATE_REQUEST,
            ControlFrame::ConnectionParameterUpdateResponse { .. } => codes::CONNECTION_PARAMETER_UPDATE_RESPONSE,
            ControlFrame::LeCreditBasedConnectionRequest { .. } => codes::LE_CREDIT_BASED_CONNECTION_REQUEST,
            ControlFrame::LeCreditBasedConnectionResponse { .. } => codes::LE_CREDIT_BASED_CONNECTION_RESPONSE,
            ControlFrame::LeFlowControlCredit { .. } => codes::LE_FLOW_CONTROL_CREDIT,
            ControlFrame::CreditBasedConnectionRequest { .. } => codes::CREDIT_BASED_CONNECTION_REQUEST,
            ControlFrame::CreditBasedConnectionResponse { .. } => codes::CREDIT_BASED_CONNECTION_RESPONSE,
            ControlFrame::CreditBasedReconfigureRequest { .. } => codes::CREDIT_BASED_RECONFIGURE_REQUEST,
            ControlFrame::CreditBasedReconfigureResponse { .. } => codes::CREDIT_BASED_RECONFIGURE_RESPONSE,
            ControlFrame::Generic { code, .. } => *code,
        }
    }

    pub fn identifier(&self) -> (identifier: u8)
        ensures
            identifier == self@.identifier(),
    {
        match self {
            ControlFrame::CommandReject { identifier, .. } => *identifier,
            ControlFrame::ConnectionRequest { identifier, .. } => *identifier,
            ControlFrame::ConnectionResponse { identifier, .. } => *identifier,
            ControlFrame::ConfigureRequest { identifier, .. } => *identifier,
            ControlFrame::ConfigureResponse { identifier, .. } => *identifier,
            ControlFrame::DisconnectionRequest { identifier, .. } => *identifier,
            ControlFrame::DisconnectionResponse { identifier, .. } => *identifier,
            ControlFrame::EchoRequest { identifier, .. } => *identifier,
            ControlFrame::EchoResponse { identifier, .. } => *identifier,
            ControlFrame::InformationRequest { identifier, .. } => *identifier,
            ControlFrame::InformationResponse { identifier, .. } => *identifier,
            ControlFrame::ConnectionParameterUpdateRequest { identifier, .. } => *identifier,
            ControlFrame::ConnectionParameterUpdateResponse { identifier, .. } => *identifier,
            ControlFrame::LeCreditBasedConnectionRequest { identifier, .. } => *identifier,
            ControlFrame::LeCreditBasedConnectionResponse { identifier, .. } => *identifier,
            ControlFrame::LeFlowControlCredit { identifier, .. } => *identifier,
            ControlFrame::CreditBasedConnectionRequest { identifier, .. } => *identifier,
            ControlFrame::CreditBasedConnectionResponse { identifier, .. } => *identifier,
            ControlFrame::CreditBasedReconfigureRequest { identifier, .. } => *identifier,
            ControlFrame::CreditBasedReconfigureResponse { identifier, .. } => *identifier,
            ControlFrame::Generic { identifier, .. } => *identifier,
        }
    }

    /// The bytes after the four-byte header.
    #[verifier::spinoff_prover]
    pub fn payload(&self) -> (payload: Vec<u8>)
        ensures
            payload@ == self@.payload(),
    {
        let mut bytes: Vec<u8> = Vec::new();
        match self {
            ControlFrame::CommandReject { reason, data, .. } => {
                push_le16(&mut bytes, *reason);
                append_bytes(&mut bytes, data);
            },
            ControlFrame::ConnectionRequest { psm, source_cid, .. } => {
                let psm_field = serialize_psm(*psm);
                append_bytes(&mut bytes, &psm_field);
                push_le16(&mut bytes, *source_cid);
            },
            ControlFrame::ConnectionResponse { destination_cid, source_cid, result, status, .. } => {
                push_le16(&mut bytes, *destination_cid);
                push_le16(&mut bytes, *source_cid);
                push_le16(&mut bytes, *result);
                push_le16(&mut bytes, *status);
            },
            ControlFrame::ConfigureRequest { destination_cid, flags, options, .. } => {
                push_le16(&mut bytes, *destination_cid);
                push_le16(&mut bytes, *flags);
                append_bytes(&mut bytes, options);
            },
            ControlFrame::ConfigureResponse { source_cid, flags, result, options, .. } => {
                push_le16(&mut bytes, *source_cid);
                push_le16(&mut bytes, *flags);
                push_le16(&mut bytes, *result);
                append_bytes(&mut bytes, options);
            },
            ControlFrame::DisconnectionRequest { destination_cid, source_cid, .. } => {
                push_le16(&mut bytes, *destination_cid);
                push_le16(&mut bytes, *source_cid);
            },
            ControlFrame::DisconnectionResponse { destination_cid, source_cid, .. } => {
                push_le16(&mut bytes, *destination_cid);
                push_le16(&mut bytes, *source_cid);
            },
            ControlFrame::EchoRequest { data, .. } => {
                append_bytes(&mut bytes, data);
            },
            ControlFrame::EchoResponse { data, .. } => {
                append_bytes(&mut bytes, data);
            },
            ControlFrame::InformationRequest { info_type, .. } => {
                push_le16(&mut bytes, *info_type);
            },
            ControlFrame::InformationResponse { info_type, result, data, .. } => {
                push_le16(&mut bytes, *info_type);
                push_le16(&mut bytes, *result);
                append_bytes(&mut bytes, data);
            },
            ControlFrame::ConnectionParameterUpdateRequest { interval_min, interval_max, latency, timeout, .. } => {
                push_le16(&mut bytes, *interval_min);
                push_le16(&mut bytes, *interval_max);
                push_le16(&mut bytes, *latency);
                push_le16(&mut bytes, *timeout);
            },
            ControlFrame::ConnectionParameterUpdateResponse { result, .. } => {
                push_le16(&mut bytes, *result);
            },
            ControlFrame::LeCreditBasedConnectionRequest { le_psm, source_cid, mtu, mps, initial_credits, .. } => {
                push_le16(&mut bytes, *le_psm);
                push_le16(&mut bytes, *source_cid);
                push_le16(&mut bytes, *mtu);
                push_le16(&mut bytes, *mps);
                push_le16(&mut bytes, *initial_credits);
            },
            ControlFrame::LeCreditBasedConnectionResponse { destination_cid, mtu, mps, initial_credits, result, .. } => {
                push_le16(&mut bytes, *destination_cid);
                push_le16(&mut bytes, *mtu);
                push_le16(&mut bytes, *mps);
                push_le16(&mut bytes, *initial_credits);
                push_le16(&mut bytes, *result);
            },
            ControlFrame::LeFlowControlCredit { cid, credits, .. } => {
                push_le16(&mut bytes, *cid);
                push_le16(&mut bytes, *credits);
            },
            ControlFrame::CreditBasedConnectionRequest { spsm, mtu, mps, initial_credits, source_cid, .. } => {
                push_le16(&mut bytes, *spsm);
                push_le16(&mut bytes, *mtu);
                push_le16(&mut bytes, *mps);
                push_le16(&mut bytes, *initial_credits);
                push_cids(&mut bytes, source_cid);
            },
            ControlFrame::CreditBasedConnectionResponse { mtu, mps, initial_credits, result, destination_cid, .. } => {
                push_le16(&mut bytes, *mtu);
                push_le16(&mut bytes, *mps);
                push_le16(&mut bytes, *initial_credits);
                push_le16(&mut bytes, *result);
                push_cids(&mut bytes, destination_cid);
            },
            ControlFrame::CreditBasedReconfigureRequest { mtu, mps, destination_cid, .. } => {
                push_le16(&mut bytes, *mtu);
                push_le16(&mut bytes, *mps);
                push_cids(&mut bytes, destination_cid);
            },
            ControlFrame::CreditBasedReconfigureResponse { result, .. } => {
                push_le16(&mut bytes, *result);
            },
            ControlFrame::Generic { payload, .. } => {
                append_bytes(&mut bytes, payload);
            },
        }
        assert(bytes@ =~= self@.payload());
        bytes
    }

    /// The whole frame.
    pub fn to_bytes(&self) -> (bytes: Vec<u8>)
        ensures
            bytes@ == self@.encode(),
    {
        let payload = self.payload();
        let mut bytes: Vec<u8> = Vec::new();
        bytes.push(self.code());
        bytes.push(self.identifier());
        push_le16(&mut bytes, (payload.len() % 65536) as u16);
        append_bytes(&mut bytes, &payload);
        assert(bytes@ =~= self@.encode());
        bytes
    }

    /// Reads a signaling frame.
    pub fn from_bytes(pdu: &[u8]) -> (result: Result<ControlFrame, Error>)
        ensures
            agrees(result, ControlFrameV::decode(pdu@)),
    {
        if pdu.len() < 4 {
            return Err(Error::new("not enough data for control frame"));
        }
        let declared: usize = 4 + read_le16(pdu, 2) as usize;
        let end: usize = if declared < pdu.len() {
            declared
        } else {
            pdu.len()
        };
        ControlFrame::from_payload(pdu[0], pdu[1], slice_subrange(pdu, 4, end))
    }

    #[verifier::spinoff_prover]
    fn from_payload(code: u8, identifier: u8, payload: &[u8]) -> (result: Result<ControlFrame, Error>)
        ensures
            agrees(result, ControlFrameV::from_parts(code, identifier, payload@)),
    {
        match code {
            codes::COMMAND_REJECT => {
                match need(payload, 2) {
                    Err(error) => {
                        return Err(error);
                    },
                    Ok(()) => {},
                }
                Ok(ControlFrame::CommandReject { identifier, reason: read_le16(payload, 0), data: copy_range(payload, 2, payload.len()) })
            },
            codes::CONNECTION_REQUEST => {
                match parse_psm(payload, 0) {
                    Err(error) => Err(error),
                    Ok((offset, psm)) => {
                        if payload.len() < 2 || offset > payload.len() - 2 {
                            return Err(Error::new("truncated Connection_Request"));
                        }
                        Ok(ControlFrame::ConnectionRequest { identifier, psm, source_cid: read_le16(payload, offset) })
                    },
                }
            },
            codes::CONNECTION_RESPONSE => {
                match need(payload, 8) {
                    Err(error) => {
                        return Err(error);
                    },
                    Ok(()) => {},
                }
                Ok(ControlFrame::ConnectionResponse { identifier, destination_cid: read_le16(payload, 0), source_cid: read_le16(payload, 2), result: read_le16(payload, 4), status: read_le16(payload, 6) })
            },
            codes::CONFIGURE_REQUEST => {
                match need(payload, 4) {
                    Err(error) => {
                        return Err(error);
                    },
                    Ok(()) => {},
                }
                Ok(ControlFrame::ConfigureRequest { identifier, destination_cid: read_le16(payload, 0), flags: read_le16(payload, 2), options: copy_range(payload, 4, payload.len()) })
            },
            codes::CONFIGURE_RESPONSE => {
                match need(payload, 6) {
                    Err(error) => {
                        return Err(error);
                    },
                    Ok(()) => {},
                }
                Ok(ControlFrame::ConfigureResponse { identifier, source_cid: read_le16(payload, 0), flags: read_le16(payload, 2), result: read_le16(payload, 4), options: copy_range(payload, 6, payload.len()) })
            },
            codes::DISCONNECTION_REQUEST => {
                match need(payload, 4) {
                    Err(error) => {
                        return Err(error);
                    },
                    Ok(()) => {},
                }
                Ok(ControlFrame::DisconnectionRequest { identifier, destination_cid: read_le16(payload, 0), source_cid: read_le16(payload, 2) })
            },
            codes::DISCONNECTION_RESPONSE => {
                match need(payload, 4) {
                    Err(error) => {
                        return Err(error);
                    },
                    Ok(()) => {},
                }
                Ok(ControlFrame::DisconnectionResponse { identifier, destination_cid: read_le16(payload, 0), source_cid: read_le16(payload, 2) })
            },
            codes::ECHO_REQUEST => {
                Ok(ControlFrame::EchoRequest { identifier, data: copy_bytes(payload) })
            },
            codes::ECHO_RESPONSE => {
                Ok(ControlFrame::EchoResponse { identifier, data: copy_bytes(payload) })
            },
            codes::INFORMATION_REQUEST => {
                match need(payload, 2) {
                    Err(error) => {
                        return Err(error);
                    },
                    Ok(()) => {},
                }
                Ok(ControlFrame::InformationRequest { identifier, info_type: read_le16(payload, 0) })
            },
            codes::INFORMATION_RESPONSE => {
                match need(payload, 4) {
                    Err(error) => {
                        return Err(error);
                    },
                    Ok(()) => {},
                }
                Ok(ControlFrame::InformationResponse { identifier, info_type: read_le16(payload, 0), result: read_le16(payload, 2), data: copy_range(payload, 4, payload.len()) })
            },
            codes::CONNECTION_PARAMETER_UPDATE_REQUEST => {
                match need(payload, 8) {
                    Err(error) => {
                        return Err(error);
                    },
                    Ok(()) => {},
                }
                Ok(ControlFrame::ConnectionParameterUpdateRequest { identifier, interval_min: read_le16(payload, 0), interval_max: read_le16(payload, 2), latency: read_le16(payload, 4), timeout: read_le16(payload, 6) })
            },
            codes::CONNECTION_PARAMETER_UPDATE_RESPONSE => {
                match need(payload, 2) {
                    Err(error) => {
                        return Err(error);
                    },
                    Ok(()) => {},
                }
                Ok(ControlFrame::ConnectionParameterUpdateResponse { identifier, result: read_le16(payload, 0) })
            },
            codes::LE_CREDIT_BASED_CONNECTION_REQUEST => {
                match need(payload, 10) {
                    Err(error) => {
                        return Err(error);
                    },
                    Ok(()) => {},
                }
                Ok(ControlFrame::LeCreditBasedConnectionRequest { identifier, le_psm: read_le16(payload, 0), source_cid: read_le16(payload, 2), mtu: read_le16(payload, 4), mps: read_le16(payload, 6), initial_credits: read_le16(payload, 8) })
            },
            codes::LE_CREDIT_BASED_CONNECTION_RESPONSE => {
                match need(payload, 10) {
                    Err(error) => {
                        return Err(error);
                    },
                    Ok(()) => {},
                }
                Ok(ControlFrame::LeCreditBasedConnectionResponse { identifier, destination_cid: read_le16(payload, 0), mtu: read_le16(payload, 2), mps: read_le16(payload, 4), initial_credits: read_le16(payload, 6), result: read_le16(payload, 8) })
            },
            codes::LE_FLOW_CONTROL_CREDIT => {
                match need(payload, 4) {
                    Err(error) => {
                        return Err(error);
                    },
                    Ok(()) => {},
                }
                Ok(ControlFrame::LeFlowControlCredit { identifier, cid: read_le16(payload, 0), credits: read_le16(payload, 2) })
            },
            codes::CREDIT_BASED_CONNECTION_REQUEST => {
                match need(payload, 8) {
                    Err(error) => {
                        return Err(error);
                    },
                    Ok(()) => {},
                }
                assert(payload@.skip(8) =~= payload@.subrange(8, payload@.len() as int));
                match read_cid_list(slice_subrange(payload, 8, payload.len())) {
                    Err(error) => Err(error),
                    Ok(cids) => Ok(ControlFrame::CreditBasedConnectionRequest { identifier, spsm: read_le16(payload, 0), mtu: read_le16(payload, 2), mps: read_le16(payload, 4), initial_credits: read_le16(payload, 6), source_cid: cids }),
                }
            },
            codes::CREDIT_BASED_CONNECTION_RESPONSE => {
                match need(payload, 8) {
                    Err(error) => {
                        return Err(error);
                    },
                    Ok(()) => {},
                }
                assert(payload@.skip(8) =~= payload@.subrange(8, payload@.len() as int));
                match read_cid_list(slice_subrange(payload, 8, payload.len())) {
                    Err(error) => Err(error),
                    Ok(cids) => Ok(ControlFrame::CreditBasedConnectionResponse { identifier, mtu: read_le16(payload, 0), mps: read_le16(payload, 2), initial_credits: read_le16(payload, 4), result: read_le16(payload, 6), destination_cid: cids }),
                }
            },
            codes::CREDIT_BASED_RECONFIGURE_REQUEST => {
                match need(payload, 4) {
                    Err(error) => {
                        return Err(error);
                    },
                    Ok(()) => {},
                }
                assert(payload@.skip(4) =~= payload@.subrange(4, payload@.len() as int));
                match read_cid_list(slice_subrange(payload, 4, payload.len())) {
                    Err(error) => Err(error),
                    Ok(cids) => Ok(ControlFrame::CreditBasedReconfigureRequest { identifier, mtu: read_le16(payload, 0), mps: read_le16(payload, 2), destination_cid: cids }),
                }
            },
            codes::CREDIT_BASED_RECONFIGURE_RESPONSE => {
                match need(payload, 2) {
                    Err(error) => {
                        return Err(error);
                    },
                    Ok(()) => {},
                }
                Ok(ControlFrame::CreditBasedReconfigureResponse { identifier, result: read_le16(payload, 0) })
            },
            _ => Ok(ControlFrame::Generic { code, identifier, payload: copy_bytes(payload) }),
        }
    }
}

proof fn lemma_cids_read_back(cids: Seq<u16>)
    ensures
        cids_of(cid_bytes(cids)) == cids,
        cid_bytes(cids).len() % 2 == 0,
{
    assert forall|i: int| 0 <= i < cids.len() implies cids_of(cid_bytes(cids))[i] == cids[i] by {
        assert(cid_bytes(cids)[2 * i] == (cids[i] % 256) as u8);
        assert(cid_bytes(cids)[2 * i + 1] == (cids[i] / 256) as u8);
    }
    assert(cids_of(cid_bytes(cids)) =~= cids);
}

#[verifier::spinoff_prover]
#[verifier::rlimit(60)]
proof fn lemma_payload_reads_back(frame: ControlFrameV)
    requires
        frame.valid(),
    ensures
        ControlFrameV::from_parts(frame.code(), frame.identifier(), frame.payload()) == Ok::<
            ControlFrameV,
            Seq<char>,
        >(frame),
{
    let payload = frame.payload();
    match frame {
        ControlFrameV::CommandReject { reason, data, .. } => {
            assert(le16_at(payload, 0) == reason);
            assert(payload.skip(2) =~= data);
        },
        ControlFrameV::ConnectionRequest { psm, source_cid, .. } => {
            psm_reads_back(psm, le16(source_cid));
        },
        ControlFrameV::ConnectionResponse { destination_cid, source_cid, result, status, .. } => {
            assert(le16_at(payload, 0) == destination_cid);
            assert(le16_at(payload, 2) == source_cid);
            assert(le16_at(payload, 4) == result);
            assert(le16_at(payload, 6) == status);
        },
        ControlFrameV::ConfigureRequest { destination_cid, flags, options, .. } => {
            assert(le16_at(payload, 0) == destination_cid);
            assert(le16_at(payload, 2) == flags);
            assert(payload.skip(4) =~= options);
        },
        ControlFrameV::ConfigureResponse { source_cid, flags, result, options, .. } => {
            assert(le16_at(payload, 0) == source_cid);
            assert(le16_at(payload, 2) == flags);
            assert(le16_at(payload, 4) == result);
            assert(payload.skip(6) =~= options);
        },
        ControlFrameV::DisconnectionRequest { destination_cid, source_cid, .. } => {
            assert(le16_at(payload, 0) == destination_cid);
            assert(le16_at(payload, 2) == source_cid);
        },
        ControlFrameV::DisconnectionResponse { destination_cid, source_cid, .. } => {
            assert(le16_at(payload, 0) == destination_cid);
            assert(le16_at(payload, 2) == source_cid);
        },
        ControlFrameV::InformationRequest { info_type, .. } => {
            assert(le16_at(payload, 0) == info_type);
        },
        ControlFrameV::InformationResponse { info_type, result, data, .. } => {
            assert(le16_at(payload, 0) == info_type);
            assert(le16_at(payload, 2) == result);
            assert(payload.skip(4) =~= data);
        },
        ControlFrameV::ConnectionParameterUpdateRequest { interval_min, interval_max, latency, timeout, .. } => {
            assert(le16_at(payload, 0) == interval_min);
            assert(le16_at(payload, 2) == interval_max);
            assert(le16_at(payload, 4) == latency);
            assert(le16_at(payload, 6) == timeout);
        },
        ControlFrameV::ConnectionParameterUpdateResponse { result, .. } => {
            assert(le16_at(payload, 0) == result);
        },
        ControlFrameV::LeCreditBasedConnectionRequest { le_psm, source_cid, mtu, mps, initial_credits, .. } => {
            assert(le16_at(payload, 0) == le_psm);
            assert(le16_at(payload, 2) == source_cid);
            assert(le16_at(payload, 4) == mtu);
            assert(le16_at(payload, 6) == mps);
            assert(le16_at(payload, 8) == initial_credits);
        },
        ControlFrameV::LeCreditBasedConnectionResponse { destination_cid, mtu, mps, initial_credits, result, .. } => {
            assert(le16_at(payload, 0) == destination_cid);
            assert(le16_at(payload, 2) == mtu);
            assert(le16_at(payload, 4) == mps);
            assert(le16_at(payload, 6) == initial_credits);
            assert(le16_at(payload, 8) == result);
        },
        ControlFrameV::LeFlowControlCredit { cid, credits, .. } => {
            assert(le16_at(payload, 0) == cid);
            assert(le16_at(payload, 2) == credits);
        },
        ControlFrameV::CreditBasedConnectionRequest { spsm, mtu, mps, initial_credits, source_cid, .. } => {
            assert(le16_at(payload, 0) == spsm);
            assert(le16_at(payload, 2) == mtu);
            assert(le16_at(payload, 4) == mps);
            assert(le16_at(payload, 6) == initial_credits);
            lemma_cids_read_back(source_cid);
            assert(payload.skip(8) =~= cid_bytes(source_cid));
        },
        ControlFrameV::CreditBasedConnectionResponse { mtu, mps, initial_credits, result, destination_cid, .. } => {
            assert(le16_at(payload, 0) == mtu);
            assert(le16_at(payload, 2) == mps);
            assert(le16_at(payload, 4) == initial_credits);
            assert(le16_at(payload, 6) == result);
            lemma_cids_read_back(destination_cid);
            assert(payload.skip(8) =~= cid_bytes(destination_cid));
        },
        ControlFrameV::CreditBasedReconfigureRequest { mtu, mps, destination_cid, .. } => {
            assert(le16_at(payload, 0) == mtu);
            assert(le16_at(payload, 2) == mps);
            lemma_cids_read_back(destination_cid);
            assert(payload.skip(4) =~= cid_bytes(destination_cid));
        },
        ControlFrameV::CreditBasedReconfigureResponse { result, .. } => {
            assert(le16_at(payload, 0) == result);
        },
        _ => {},
    }
}

/// Every valid signaling frame is read back from its own bytes, whatever
/// follows them.
pub proof fn control_frame_reads_back(frame: ControlFrameV, tail: Seq<u8>)
    requires
        frame.valid(),
    ensures
        ControlFrameV::decode(frame.encode() + tail) == Ok::<ControlFrameV, Seq<char>>(frame),
{
    let bytes = frame.encode() + tail;
    lemma_payload_reads_back(frame);
    assert(bytes.subrange(4, 4 + frame.payload().len() as int) =~= frame.payload());
}

} // verus!
