//! Connection-oriented BR/EDR channels: what each end asks for, the state of one
//! end of a channel, and the frame check sequence on its frames.

use std::collections::VecDeque;
use vstd::prelude::*;

use super::ertm::{buffers, ErtmEngine, ErtmEngineV};
use super::{agrees, crc, crc_16, Error, CONNECTION_SUCCESSFUL};
use crate::bytes::{
    append_bytes, copy_range, first_of, le16, le16_at, optional_bytes, push_le16, read_le16,
    rest_of,
};

pub use super::manager::{ChannelManager, ChannelManagerV};

verus! {

pub const L2CAP_MIN_BR_EDR_MTU: u16 = 48;

pub const L2CAP_DEFAULT_MTU: u16 = 2048;

pub const L2CAP_DEFAULT_MPS: u16 = 1010;

pub const L2CAP_ACL_U_DYNAMIC_CID_RANGE_START: u16 = 0x0040;

pub const L2CAP_ACL_U_DYNAMIC_CID_RANGE_END: u16 = 0xffff;

pub const L2CAP_PSM_DYNAMIC_RANGE_START: u32 = 0x1001;

pub const L2CAP_PSM_DYNAMIC_RANGE_END: u32 = 0xffff;

pub const DEFAULT_ERTM_TX_WINDOW_SIZE: u8 = 63;

pub const DEFAULT_ERTM_MAX_RETRANSMISSIONS: u8 = 1;

pub const DEFAULT_ERTM_RETRANSMISSION_TIMEOUT_MS: u16 = 2_000;

pub const DEFAULT_ERTM_MONITOR_TIMEOUT_MS: u16 = 12_000;

pub const RETRANSMISSION_MODE_ENHANCED: u8 = 0x03;

/// What one end wants of a basic mode channel.
#[derive(Clone, Copy, Debug, PartialEq, Eq, Structural)]
pub struct ClassicChannelSpec {
    pub mtu: u16,
}

impl Default for ClassicChannelSpec {
    fn default() -> (spec: Self)
        ensures
            spec == (ClassicChannelSpec { mtu: L2CAP_DEFAULT_MTU }),
    {
        ClassicChannelSpec { mtu: L2CAP_DEFAULT_MTU }
    }
}

/// What one end wants of an enhanced retransmission mode channel.
#[derive(Clone, Copy, Debug, PartialEq, Eq, Structural)]
pub struct ErtmChannelSpec {
    pub mtu: u16,
    pub mps: u16,
    pub tx_window_size: u8,
    pub max_retransmissions: u8,
    pub retransmission_timeout_ms: u16,
    pub monitor_timeout_ms: u16,
    pub fcs_enabled: bool,
}

impl Default for ErtmChannelSpec {
    fn default() -> (spec: Self)
        ensures
            spec == (ErtmChannelSpec {
                mtu: L2CAP_DEFAULT_MTU,
                mps: L2CAP_DEFAULT_MPS,
                tx_window_size: DEFAULT_ERTM_TX_WINDOW_SIZE,
                max_retransmissions: DEFAULT_ERTM_MAX_RETRANSMISSIONS,
                retransmission_timeout_ms: DEFAULT_ERTM_RETRANSMISSION_TIMEOUT_MS,
                monitor_timeout_ms: DEFAULT_ERTM_MONITOR_TIMEOUT_MS,
                fcs_enabled: false,
            }),
    {
        ErtmChannelSpec {
            mtu: L2CAP_DEFAULT_MTU,
            mps: L2CAP_DEFAULT_MPS,
            tx_window_size: DEFAULT_ERTM_TX_WINDOW_SIZE,
            max_retransmissions: DEFAULT_ERTM_MAX_RETRANSMISSIONS,
            retransmission_timeout_ms: DEFAULT_ERTM_RETRANSMISSION_TIMEOUT_MS,
            monitor_timeout_ms: DEFAULT_ERTM_MONITOR_TIMEOUT_MS,
            fcs_enabled: false,
        }
    }
}

#[derive(Clone, Copy, Debug, PartialEq, Eq, Structural)]
pub enum ClassicChannelMode {
    Basic,
    EnhancedRetransmission,
}

/// What one end wants of a channel of either mode.
#[derive(Clone, Copy, Debug, PartialEq, Eq, Structural)]
pub enum ChannelSpec {
    Basic(ClassicChannelSpec),
    Ertm(ErtmChannelSpec),
}

impl ChannelSpec {
    pub open spec fn spec_mtu(self) -> u16 {
        match self {
            ChannelSpec::Basic(spec) => spec.mtu,
            ChannelSpec::Ertm(spec) => spec.mtu,
        }
    }

    pub open spec fn spec_mode(self) -> ClassicChannelMode {
        match self {
            ChannelSpec::Basic(_) => ClassicChannelMode::Basic,
            ChannelSpec::Ertm(_) => ClassicChannelMode::EnhancedRetransmission,
        }
    }

    pub fn mtu(self) -> (mtu: u16)
        ensures
            mtu == self.spec_mtu(),
    {
        match self {
            ChannelSpec::Basic(spec) => spec.mtu,
            ChannelSpec::Ertm(spec) => spec.mtu,
        }
    }

    pub fn mode(self) -> (mode: ClassicChannelMode)
        ensures
            mode == self.spec_mode(),
    {
        match self {
            ChannelSpec::Basic(_) => ClassicChannelMode::Basic,
            ChannelSpec::Ertm(_) => ClassicChannelMode::EnhancedRetransmission,
        }
    }
}

#[derive(Clone, Copy, Debug, PartialEq, Eq, Structural)]
pub enum ClassicChannelState {
    Closed,
    WaitConnectResponse,
    Configuring,
    Open,
    WaitDisconnect,
}

/// The state of a channel.
pub struct ClassicChannelV {
    pub psm: u32,
    pub source_cid: u16,
    pub destination_cid: u16,
    pub mtu: u16,
    pub peer_mtu: u16,
    pub peer_mps: u16,
    pub mode: ClassicChannelMode,
    pub fcs_enabled: bool,
    pub state: ClassicChannelState,
    pub connection_result: Option<u16>,
    pub incoming: bool,
    pub peer_configuration_received: bool,
    pub configuration_response_received: bool,
    pub open_announced: bool,
    pub spec: ChannelSpec,
    pub ertm: Option<ErtmEngineV>,
    pub received: Seq<Seq<u8>>,
}

/// One end of a channel.
#[derive(Debug)]
pub struct ClassicChannel {
    pub psm: u32,
    pub source_cid: u16,
    pub destination_cid: u16,
    pub mtu: u16,
    pub peer_mtu: u16,
    pub peer_mps: u16,
    pub mode: ClassicChannelMode,
    pub fcs_enabled: bool,
    pub state: ClassicChannelState,
    /// `Some(0)` after a successful connection response, or the peer's refusal
    /// result after a failed outgoing connection attempt.
    pub connection_result: Option<u16>,
    pub(crate) incoming: bool,
    pub(crate) peer_configuration_received: bool,
    pub(crate) configuration_response_received: bool,
    pub(crate) open_announced: bool,
    pub(crate) spec: ChannelSpec,
    pub(crate) ertm: Option<ErtmEngine>,
    pub(crate) received: VecDeque<Vec<u8>>,
}

/// The state of an engine, where there is one.
pub open spec fn engine_view(engine: Option<ErtmEngine>) -> Option<ErtmEngineV> {
    match engine {
        Some(engine) => Some(engine@),
        None => None,
    }
}

impl View for ClassicChannel {
    type V = ClassicChannelV;

    open(crate) spec fn view(&self) -> ClassicChannelV {
        ClassicChannelV {
            psm: self.psm,
            source_cid: self.source_cid,
            destination_cid: self.destination_cid,
            mtu: self.mtu,
            peer_mtu: self.peer_mtu,
            peer_mps: self.peer_mps,
            mode: self.mode,
            fcs_enabled: self.fcs_enabled,
            state: self.state,
            connection_result: self.connection_result,
            incoming: self.incoming,
            peer_configuration_received: self.peer_configuration_received,
            configuration_response_received: self.configuration_response_received,
            open_announced: self.open_announced,
            spec: self.spec,
            ertm: engine_view(self.ertm),
            received: buffers(self.received@),
        }
    }
}

impl ClassicChannelV {
    /// A channel that this end asked for.
    pub open spec fn started(psm: u32, source_cid: u16, spec: ChannelSpec) -> ClassicChannelV {
        ClassicChannelV {
            psm,
            source_cid,
            destination_cid: 0,
            mtu: spec.spec_mtu(),
            peer_mtu: L2CAP_MIN_BR_EDR_MTU,
            peer_mps: L2CAP_DEFAULT_MPS,
            mode: spec.spec_mode(),
            fcs_enabled: false,
            state: ClassicChannelState::WaitConnectResponse,
            connection_result: None,
            incoming: false,
            peer_configuration_received: false,
            configuration_response_received: false,
            open_announced: false,
            spec,
            ertm: None,
            received: seq![],
        }
    }

    /// A channel that the peer asked for.
    pub open spec fn accepted(
        psm: u32,
        source_cid: u16,
        destination_cid: u16,
        spec: ChannelSpec,
    ) -> ClassicChannelV {
        ClassicChannelV {
            destination_cid,
            state: ClassicChannelState::Configuring,
            connection_result: Some(CONNECTION_SUCCESSFUL),
            incoming: true,
            ..ClassicChannelV::started(psm, source_cid, spec)
        }
    }
}

impl ClassicChannel {
    pub(crate) fn outgoing(psm: u32, source_cid: u16, spec: ChannelSpec) -> (channel: Self)
        ensures
            channel@ == ClassicChannelV::started(psm, source_cid, spec),
    {
        let channel = ClassicChannel {
            psm,
            source_cid,
            destination_cid: 0,
            mtu: spec.mtu(),
            peer_mtu: L2CAP_MIN_BR_EDR_MTU,
            peer_mps: L2CAP_DEFAULT_MPS,
            mode: spec.mode(),
            fcs_enabled: false,
            state: ClassicChannelState::WaitConnectResponse,
            connection_result: None,
            incoming: false,
            peer_configuration_received: false,
            configuration_response_received: false,
            open_announced: false,
            spec,
            ertm: None,
            received: VecDeque::new(),
        };
        assert(channel@.received =~= seq![]);
        channel
    }

    pub(crate) fn incoming(psm: u32, source_cid: u16, destination_cid: u16, spec: ChannelSpec) -> (channel:
        Self)
        ensures
            channel@ == ClassicChannelV::accepted(psm, source_cid, destination_cid, spec),
    {
        let mut channel = ClassicChannel::outgoing(psm, source_cid, spec);
        channel.destination_cid = destination_cid;
        channel.state = ClassicChannelState::Configuring;
        channel.connection_result = Some(CONNECTION_SUCCESSFUL);
        channel.incoming = true;
        channel
    }

    pub fn is_open(&self) -> (open: bool)
        ensures
            open == (self@.state == ClassicChannelState::Open),
    {
        self.state == ClassicChannelState::Open
    }

    /// Takes the next SDU that came in.
    pub fn pop_received(&mut self) -> (sdu: Option<Vec<u8>>)
        ensures
            optional_bytes(sdu) == first_of(old(self)@.received),
            final(self)@ == (ClassicChannelV {
                received: rest_of(old(self)@.received),
                ..old(self)@
            }),
    {
        let sdu = self.received.pop_front();
        assert(self@.received =~= rest_of(old(self)@.received));
        sdu
    }
}

/// What an engine step makes of the channel that holds the engine.
pub open spec fn with_engine(channel: ClassicChannelV, engine: ErtmEngineV) -> ClassicChannelV {
    ClassicChannelV { ertm: Some(engine), ..channel }
}

impl ClassicChannel {
    pub(crate) fn push_received(&mut self, sdu: Vec<u8>)
        ensures
            final(self)@ == (ClassicChannelV {
                received: old(self)@.received.push(sdu@),
                ..old(self)@
            }),
    {
        let ghost model = sdu@;
        self.received.push_back(sdu);
        assert(self@.received =~= old(self)@.received.push(model));
    }

    pub(crate) fn receive_frame(&mut self, frame: &[u8]) -> (result: Result<(), Error>)
        requires
            old(self)@.ertm is Some,
        ensures
            final(self)@ == with_engine(old(self)@, old(self)@.ertm->0.frame_received(frame@).0),
            agrees(result, old(self)@.ertm->0.frame_received(frame@).1),
    {
        match &mut self.ertm {
            None => Ok(()),
            Some(engine) => engine.receive_frame(frame),
        }
    }

    pub(crate) fn send_sdu(&mut self, sdu: &[u8]) -> (result: Result<(), Error>)
        requires
            old(self)@.ertm is Some,
        ensures
            final(self)@ == with_engine(old(self)@, old(self)@.ertm->0.sdu_sent(sdu@).0),
            agrees(result, old(self)@.ertm->0.sdu_sent(sdu@).1),
    {
        match &mut self.ertm {
            None => Ok(()),
            Some(engine) => engine.send_sdu(sdu),
        }
    }

    pub(crate) fn set_receiver_busy(&mut self, busy: bool) -> (result: Result<(), Error>)
        requires
            old(self)@.ertm is Some,
        ensures
            final(self)@ == with_engine(old(self)@, old(self)@.ertm->0.busy_set(busy).0),
            agrees(result, old(self)@.ertm->0.busy_set(busy).1),
    {
        match &mut self.ertm {
            None => Ok(()),
            Some(engine) => engine.set_receiver_busy(busy),
        }
    }

    pub(crate) fn tick(&mut self, ticks: u32) -> (result: Result<(), Error>)
        requires
            old(self)@.ertm is Some,
        ensures
            final(self)@ == with_engine(old(self)@, old(self)@.ertm->0.ticked(ticks).0),
            agrees(result, old(self)@.ertm->0.ticked(ticks).1),
    {
        match &mut self.ertm {
            None => Ok(()),
            Some(engine) => engine.tick(ticks),
        }
    }

    /// Takes the frames that the engine has to send, and delivers the SDUs that
    /// it has completed.
    pub(crate) fn drain_engine(&mut self) -> (frames: Vec<Vec<u8>>)
        requires
            old(self)@.ertm is Some,
        ensures
            buffers(frames@) == old(self)@.ertm->0.outbound,
            final(self)@ == (ClassicChannelV {
                ertm: Some(
                    ErtmEngineV { outbound: seq![], received: seq![], ..old(self)@.ertm->0 },
                ),
                received: old(self)@.received + old(self)@.ertm->0.received,
                ..old(self)@
            }),
    {
        match &mut self.ertm {
            None => Vec::new(),
            Some(engine) => {
                let ghost start = engine@;
                let frames = engine.drain_outbound();
                let mut sdus = engine.drain_received();
                let ghost delivered = buffers(self.received@);
                self.received.append(&mut sdus);
                assert(buffers(self.received@) =~= delivered + start.received);
                frames
            },
        }
    }
}

/// The reason a channel specification is refused, if it is.
pub open spec fn spec_fault(spec: ClassicChannelSpec) -> Option<Seq<char>> {
    if spec.mtu < L2CAP_MIN_BR_EDR_MTU {
        Some("Classic MTU must be at least 48"@)
    } else {
        None
    }
}

/// The reason an enhanced retransmission mode specification is refused, if it is.
pub open spec fn ertm_spec_fault(spec: ErtmChannelSpec) -> Option<Seq<char>> {
    if spec.mtu < L2CAP_MIN_BR_EDR_MTU {
        Some("Classic MTU must be at least 48"@)
    } else if spec.mps == 0 {
        Some("ERTM MPS cannot be zero"@)
    } else if !(1 <= spec.tx_window_size < 64) {
        Some("ERTM transmit window must be between 1 and 63"@)
    } else if spec.retransmission_timeout_ms == 0 || spec.monitor_timeout_ms == 0 {
        Some("ERTM timeout cannot be zero"@)
    } else {
        None
    }
}

/// A PSM that channels can use: its lowest byte is odd and all others are even.
pub open spec fn valid_psm(psm: u32) -> bool {
    &&& psm % 2 == 1
    &&& psm / 256 % 2 == 0
    &&& psm / 65536 % 2 == 0
    &&& psm / 16777216 % 2 == 0
}

pub(crate) fn validate_spec(spec: ClassicChannelSpec) -> (result: Result<(), Error>)
    ensures
        match result {
            Ok(_) => spec_fault(spec) is None,
            Err(error) => spec_fault(spec) == Some(error@),
        },
{
    if spec.mtu < L2CAP_MIN_BR_EDR_MTU {
        return Err(Error::new("Classic MTU must be at least 48"));
    }
    Ok(())
}

pub(crate) fn validate_ertm_spec(spec: ErtmChannelSpec) -> (result: Result<(), Error>)
    ensures
        match result {
            Ok(_) => ertm_spec_fault(spec) is None,
            Err(error) => ertm_spec_fault(spec) == Some(error@),
        },
{
    match validate_spec(ClassicChannelSpec { mtu: spec.mtu }) {
        Err(error) => {
            return Err(error);
        },
        Ok(()) => {},
    }
    if spec.mps == 0 {
        return Err(Error::new("ERTM MPS cannot be zero"));
    }
    if spec.tx_window_size < 1 || spec.tx_window_size >= 64 {
        return Err(Error::new("ERTM transmit window must be between 1 and 63"));
    }
    if spec.retransmission_timeout_ms == 0 || spec.monitor_timeout_ms == 0 {
        return Err(Error::new("ERTM timeout cannot be zero"));
    }
    Ok(())
}

pub(crate) fn validate_psm(psm: u32) -> (result: Result<(), Error>)
    ensures
        match result {
            Ok(_) => valid_psm(psm),
            Err(error) => !valid_psm(psm) && error@ == "invalid Classic PSM"@,
        },
{
    if psm == 0 || psm % 2 == 0 {
        return Err(Error::new("invalid Classic PSM"));
    }
    if psm / 256 % 2 != 0 || psm / 65536 % 2 != 0 || psm / 16777216 % 2 != 0 {
        return Err(Error::new("invalid Classic PSM"));
    }
    Ok(())
}

/// What the retransmission and flow control option says.
#[derive(Clone, Copy, Debug, PartialEq, Eq, Structural)]
pub struct ErtmOption {
    pub mode: u8,
    pub tx_window_size: u8,
    pub max_retransmissions: u8,
    pub mps: u16,
}

pub open spec fn ertm_option_bytes(spec: ErtmChannelSpec) -> Seq<u8> {
    seq![RETRANSMISSION_MODE_ENHANCED, spec.tx_window_size, spec.max_retransmissions] + le16(
        spec.retransmission_timeout_ms,
    ) + le16(spec.monitor_timeout_ms) + le16(spec.mps)
}

pub open spec fn ertm_option_of(value: Seq<u8>) -> Option<ErtmOption> {
    if value.len() == 9 {
        Some(
            ErtmOption {
                mode: value[0],
                tx_window_size: value[1],
                max_retransmissions: value[2],
                mps: le16_at(value, 7),
            },
        )
    } else {
        None
    }
}

pub(crate) fn encode_ertm_option(spec: ErtmChannelSpec) -> (value: Vec<u8>)
    ensures
        value@ == ertm_option_bytes(spec),
{
    let mut value: Vec<u8> = Vec::new();
    value.push(RETRANSMISSION_MODE_ENHANCED);
    value.push(spec.tx_window_size);
    value.push(spec.max_retransmissions);
    push_le16(&mut value, spec.retransmission_timeout_ms);
    push_le16(&mut value, spec.monitor_timeout_ms);
    push_le16(&mut value, spec.mps);
    assert(value@ =~= ertm_option_bytes(spec));
    value
}

pub(crate) fn decode_ertm_option(value: &[u8]) -> (option: Option<ErtmOption>)
    ensures
        option == ertm_option_of(value@),
{
    if value.len() == 9 {
        Some(
            ErtmOption {
                mode: value[0],
                tx_window_size: value[1],
                max_retransmissions: value[2],
                mps: read_le16(value, 7),
            },
        )
    } else {
        None
    }
}

/// The peer reads from the option what this end wrote into it.
pub proof fn ertm_option_reads_back(spec: ErtmChannelSpec)
    ensures
        ertm_option_of(ertm_option_bytes(spec)) == Some(
            ErtmOption {
                mode: RETRANSMISSION_MODE_ENHANCED,
                tx_window_size: spec.tx_window_size,
                max_retransmissions: spec.max_retransmissions,
                mps: spec.mps,
            },
        ),
{
}

/// The bytes that a frame check sequence on channel `cid` covers.
pub open spec fn fcs_input(cid: u16, length: u16, payload: Seq<u8>) -> Seq<u8> {
    le16(length) + le16(cid) + payload
}

/// A payload with its frame check sequence.
pub open spec fn fcs_appended(cid: u16, payload: Seq<u8>) -> Result<Seq<u8>, Seq<char>> {
    if payload.len() + 2 > 65535 {
        Err("ERTM frame is too large"@)
    } else {
        Ok(payload + le16(crc(fcs_input(cid, (payload.len() + 2) as u16, payload))))
    }
}

/// A payload without its frame check sequence, which must be right.
pub open spec fn fcs_stripped(cid: u16, payload: Seq<u8>) -> Result<Seq<u8>, Seq<char>> {
    let body = payload.take(payload.len() - 2);
    if payload.len() < 2 {
        Err("ERTM frame is missing its FCS"@)
    } else if payload.len() > 65535 {
        Err("ERTM frame is too large"@)
    } else if crc(fcs_input(cid, payload.len() as u16, body)) != le16_at(payload, payload.len() - 2) {
        Err("ERTM frame has an invalid FCS"@)
    } else {
        Ok(body)
    }
}

fn frame_check(cid: u16, length: u16, payload: &[u8]) -> (check: u16)
    ensures
        check == crc(fcs_input(cid, length, payload@)),
{
    let mut checked: Vec<u8> = Vec::new();
    push_le16(&mut checked, length);
    push_le16(&mut checked, cid);
    append_bytes(&mut checked, payload);
    assert(checked@ =~= fcs_input(cid, length, payload@));
    crc_16(&checked)
}

pub(crate) fn append_fcs(cid: u16, payload: Vec<u8>) -> (result: Result<Vec<u8>, Error>)
    ensures
        agrees(result, fcs_appended(cid, payload@)),
{
    if payload.len() > 65533 {
        return Err(Error::new("ERTM frame is too large"));
    }
    let check: u16 = frame_check(cid, (payload.len() + 2) as u16, &payload);
    let mut framed = payload;
    push_le16(&mut framed, check);
    Ok(framed)
}

pub(crate) fn verify_and_strip_fcs(cid: u16, payload: &[u8]) -> (result: Result<Vec<u8>, Error>)
    ensures
        agrees(result, fcs_stripped(cid, payload@)),
{
    if payload.len() < 2 {
        return Err(Error::new("ERTM frame is missing its FCS"));
    }
    if payload.len() > 65535 {
        return Err(Error::new("ERTM frame is too large"));
    }
    let split: usize = payload.len() - 2;
    let body = copy_range(payload, 0, split);
    assert(body@ =~= payload@.take(split as int));
    if frame_check(cid, payload.len() as u16, &body) != read_le16(payload, split) {
        return Err(Error::new("ERTM frame has an invalid FCS"));
    }
    Ok(body)
}

/// A payload that was given a frame check sequence passes the check on the
/// other end, which gets the payload back.
pub proof fn fcs_reads_back(cid: u16, payload: Seq<u8>)
    requires
        payload.len() + 2 <= 65535,
    ensures
        fcs_appended(cid, payload) is Ok,
        fcs_stripped(cid, fcs_appended(cid, payload)->Ok_0) == Ok::<Seq<u8>, Seq<char>>(payload),
{
    let framed = fcs_appended(cid, payload)->Ok_0;
    assert(framed.take(framed.len() - 2) =~= payload);
}

} // verus!
