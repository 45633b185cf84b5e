//! What the signaling channel says, byte for byte.

use vstd::prelude::*;

use super::control::ControlFrameV;
use super::L2capPduV;

verus! {

/// The two bytes of a number, least significant first.
pub open spec fn two(value: u16) -> Seq<u8> {
    seq![(value % 256) as u8, (value / 256) as u8]
}

/// The bytes of a signaling frame: its code, its identifier, how many bytes come
/// behind, and those.
pub open spec fn signal(code: u8, identifier: u8, body: Seq<u8>) -> Seq<u8> {
    seq![code, identifier] + two(body.len() as u16) + body
}

proof fn lemma_signal(frame: ControlFrameV, code: u8, identifier: u8, body: Seq<u8>)
    requires
        body.len() <= 65535,
        frame.code() == code,
        frame.identifier() == identifier,
        frame.payload() =~= body,
    ensures
        frame.encode() == signal(code, identifier, body),
{
    assert(frame.encode() =~= signal(code, identifier, body));
}

/// The frames that make, configure and end channels on the wire. All numbers are
/// little-endian.
pub proof fn channel_frames_have_their_bytes(
    identifier: u8,
    psm: u16,
    to: u16,
    from: u16,
    result: u16,
    flags: u16,
    options: Seq<u8>,
)
    requires
        options.len() <= 60000,
    ensures
        (ControlFrameV::ConnectionRequest { identifier, psm: psm as u32, source_cid: from }).encode()
            == signal(0x02, identifier, two(psm) + two(from)),
        (ControlFrameV::ConnectionResponse {
            identifier,
            destination_cid: to,
            source_cid: from,
            result,
            status: flags,
        }).encode() == signal(0x03, identifier, two(to) + two(from) + two(result) + two(flags)),
        (ControlFrameV::ConfigureRequest {
            identifier,
            destination_cid: to,
            flags,
            options,
        }).encode() == signal(0x04, identifier, two(to) + two(flags) + options),
        (ControlFrameV::ConfigureResponse {
            identifier,
            source_cid: from,
            flags,
            result,
            options,
        }).encode() == signal(0x05, identifier, two(from) + two(flags) + two(result) + options),
        (ControlFrameV::DisconnectionRequest {
            identifier,
            destination_cid: to,
            source_cid: from,
        }).encode() == signal(0x06, identifier, two(to) + two(from)),
        (ControlFrameV::DisconnectionResponse {
            identifier,
            destination_cid: to,
            source_cid: from,
        }).encode() == signal(0x07, identifier, two(to) + two(from)),
{
    lemma_signal(
        ControlFrameV::ConnectionRequest { identifier, psm: psm as u32, source_cid: from },
        0x02,
        identifier,
        two(psm) + two(from),
    );
    lemma_signal(
        ControlFrameV::ConnectionResponse {
            identifier,
            destination_cid: to,
            source_cid: from,
            result,
            status: flags,
        },
        0x03,
        identifier,
        two(to) + two(from) + two(result) + two(flags),
    );
    lemma_signal(
        ControlFrameV::ConfigureRequest { identifier, destination_cid: to, flags, options },
        0x04,
        identifier,
        two(to) + two(flags) + options,
    );
    lemma_signal(
        ControlFrameV::ConfigureResponse { identifier, source_cid: from, flags, result, options },
        0x05,
        identifier,
        two(from) + two(flags) + two(result) + options,
    );
    lemma_signal(
        ControlFrameV::DisconnectionRequest { identifier, destination_cid: to, source_cid: from },
        0x06,
        identifier,
        two(to) + two(from),
    );
    lemma_signal(
        ControlFrameV::DisconnectionResponse { identifier, destination_cid: to, source_cid: from },
        0x07,
        identifier,
        two(to) + two(from),
    );
}

/// The other frames of Classic links on the wire.
pub proof fn link_frames_have_their_bytes(
    identifier: u8,
    kind: u16,
    result: u16,
    data: Seq<u8>,
)
    requires
        data.len() <= 60000,
    ensures
        (ControlFrameV::CommandReject { identifier, reason: kind, data }).encode() == signal(
            0x01,
            identifier,
            two(kind) + data,
        ),
        (ControlFrameV::EchoRequest { identifier, data }).encode() == signal(0x08, identifier, data),
        (ControlFrameV::EchoResponse { identifier, data }).encode() == signal(0x09, identifier, data),
        (ControlFrameV::InformationRequest { identifier, info_type: kind }).encode() == signal(
            0x0A,
            identifier,
            two(kind),
        ),
        (ControlFrameV::InformationResponse { identifier, info_type: kind, result, data }).encode()
            == signal(0x0B, identifier, two(kind) + two(result) + data),
{
    lemma_signal(
        ControlFrameV::CommandReject { identifier, reason: kind, data },
        0x01,
        identifier,
        two(kind) + data,
    );
    lemma_signal(ControlFrameV::EchoRequest { identifier, data }, 0x08, identifier, data);
    lemma_signal(ControlFrameV::EchoResponse { identifier, data }, 0x09, identifier, data);
    lemma_signal(
        ControlFrameV::InformationRequest { identifier, info_type: kind },
        0x0A,
        identifier,
        two(kind),
    );
    lemma_signal(
        ControlFrameV::InformationResponse { identifier, info_type: kind, result, data },
        0x0B,
        identifier,
        two(kind) + two(result) + data,
    );
}

/// The bytes of channel identifiers one after the other.
pub open spec fn twos(values: Seq<u16>) -> Seq<u8>
    decreases values.len(),
{
    if values.len() == 0 {
        seq![]
    } else {
        twos(values.drop_last()) + two(values.last())
    }
}

proof fn lemma_twos(values: Seq<u16>)
    ensures
        super::control::cid_bytes(values) == twos(values),
        twos(values).len() == 2 * values.len(),
    decreases values.len(),
{
    if values.len() > 0 {
        lemma_twos(values.drop_last());
    }
    assert(super::control::cid_bytes(values) =~= twos(values));
}

/// The frames of credit based channels and of connection parameters on the wire.
pub proof fn credit_frames_have_their_bytes(
    identifier: u8,
    a: u16,
    b: u16,
    c: u16,
    d: u16,
    e: u16,
    cids: Seq<u16>,
)
    requires
        cids.len() <= 1000,
    ensures
        (ControlFrameV::ConnectionParameterUpdateRequest {
            identifier,
            interval_min: a,
            interval_max: b,
            latency: c,
            timeout: d,
        }).encode() == signal(0x12, identifier, two(a) + two(b) + two(c) + two(d)),
        (ControlFrameV::ConnectionParameterUpdateResponse { identifier, result: a }).encode()
            == signal(0x13, identifier, two(a)),
        (ControlFrameV::LeCreditBasedConnectionRequest {
            identifier,
            le_psm: a,
            source_cid: b,
            mtu: c,
            mps: d,
            initial_credits: e,
        }).encode() == signal(0x14, identifier, two(a) + two(b) + two(c) + two(d) + two(e)),
        (ControlFrameV::LeCreditBasedConnectionResponse {
            identifier,
            destination_cid: a,
            mtu: b,
            mps: c,
            initial_credits: d,
            result: e,
        }).encode() == signal(0x15, identifier, two(a) + two(b) + two(c) + two(d) + two(e)),
        (ControlFrameV::LeFlowControlCredit { identifier, cid: a, credits: b }).encode() == signal(
            0x16,
            identifier,
            two(a) + two(b),
        ),
        (ControlFrameV::CreditBasedConnectionRequest {
            identifier,
            spsm: a,
            mtu: b,
            mps: c,
            initial_credits: d,
            source_cid: cids,
        }).encode() == signal(
            0x17,
            identifier,
            two(a) + two(b) + two(c) + two(d) + twos(cids),
        ),
        (ControlFrameV::CreditBasedConnectionResponse {
            identifier,
            mtu: a,
            mps: b,
            initial_credits: c,
            result: d,
            destination_cid: cids,
        }).encode() == signal(
            0x18,
            identifier,
            two(a) + two(b) + two(c) + two(d) + twos(cids),
        ),
        (ControlFrameV::CreditBasedReconfigureRequest {
            identifier,
            mtu: a,
            mps: b,
            destination_cid: cids,
        }).encode() == signal(0x19, identifier, two(a) + two(b) + twos(cids)),
        (ControlFrameV::CreditBasedReconfigureResponse { identifier, result: a }).encode() == signal(
            0x1A,
            identifier,
            two(a),
        ),
{
    lemma_twos(cids);
    lemma_signal(
        ControlFrameV::ConnectionParameterUpdateRequest {
            identifier,
            interval_min: a,
            interval_max: b,
            latency: c,
            timeout: d,
        },
        0x12,
        identifier,
        two(a) + two(b) + two(c) + two(d),
    );
    lemma_signal(
        ControlFrameV::ConnectionParameterUpdateResponse { identifier, result: a },
        0x13,
        identifier,
        two(a),
    );
    lemma_signal(
        ControlFrameV::LeCreditBasedConnectionRequest {
            identifier,
            le_psm: a,
            source_cid: b,
            mtu: c,
            mps: d,
            initial_credits: e,
        },
        0x14,
        identifier,
        two(a) + two(b) + two(c) + two(d) + two(e),
    );
    lemma_signal(
        ControlFrameV::LeCreditBasedConnectionResponse {
            identifier,
            destination_cid: a,
            mtu: b,
            mps: c,
            initial_credits: d,
            result: e,
        },
        0x15,
        identifier,
        two(a) + two(b) + two(c) + two(d) + two(e),
    );
    lemma_signal(
        ControlFrameV::LeFlowControlCredit { identifier, cid: a, credits: b },
        0x16,
        identifier,
        two(a) + two(b),
    );
    lemma_signal(
        ControlFrameV::CreditBasedConnectionRequest {
            identifier,
            spsm: a,
            mtu: b,
            mps: c,
            initial_credits: d,
            source_cid: cids,
        },
        0x17,
        identifier,
        two(a) + two(b) + two(c) + two(d) + twos(cids),
    );
    lemma_signal(
        ControlFrameV::CreditBasedConnectionResponse {
            identifier,
            mtu: a,
            mps: b,
            initial_credits: c,
            result: d,
            destination_cid: cids,
        },
        0x18,
        identifier,
        two(a) + two(b) + two(c) + two(d) + twos(cids),
    );
    lemma_signal(
        ControlFrameV::CreditBasedReconfigureRequest {
            identifier,
            mtu: a,
            mps: b,
            destination_cid: cids,
        },
        0x19,
        identifier,
        two(a) + two(b) + twos(cids),
    );
    lemma_signal(
        ControlFrameV::CreditBasedReconfigureResponse { identifier, result: a },
        0x1A,
        identifier,
        two(a),
    );
}

/// A unit on the signaling channel.
pub open spec fn on_signaling(bytes: Seq<u8>) -> L2capPduV {
    L2capPduV { cid: 0x0001, payload: bytes }
}

/// A unit on the wire: how long its payload is, its channel and its payload.
pub proof fn units_have_their_bytes(cid: u16, payload: Seq<u8>)
    requires
        payload.len() <= 65535,
    ensures
        (L2capPduV { cid, payload }).encode(false) == two(payload.len() as u16) + two(cid)
            + payload,
{
    assert((L2capPduV { cid, payload }).encode(false) =~= two(payload.len() as u16) + two(cid)
        + payload);
}

} // verus!
