//! Enhanced retransmission mode: control fields, and the engine that numbers,
//! acknowledges, repeats and reassembles frames without doing any input or
//! output itself.

use std::collections::VecDeque;
use vstd::prelude::*;

use super::{agrees, Error};
use crate::bytes::{
    append_bytes, copy_bytes, copy_range, first_of, le16, le16_at, optional_bytes, push_le16,
    read_le16, rest_of,
};
use crate::text::{decimal, decimal_text, with_decimal};
use vstd::slice::slice_subrange;

verus! {

pub const ERTM_SEQUENCE_MODULUS: u8 = 64;

/// The place of a frame in the SDU that it belongs to.
#[derive(Clone, Copy, Debug, PartialEq, Eq, Structural)]
pub enum SegmentationAndReassembly {
    Unsegmented,
    Start,
    End,
    Continuation,
}

impl SegmentationAndReassembly {
    pub open spec fn spec_code(self) -> u8 {
        match self {
            SegmentationAndReassembly::Unsegmented => 0,
            SegmentationAndReassembly::Start => 1,
            SegmentationAndReassembly::End => 2,
            SegmentationAndReassembly::Continuation => 3,
        }
    }

    /// The two-bit code of the value.
    pub fn code(self) -> (code: u8)
        ensures
            code == self.spec_code(),
    {
        match self {
            SegmentationAndReassembly::Unsegmented => 0,
            SegmentationAndReassembly::Start => 1,
            SegmentationAndReassembly::End => 2,
            SegmentationAndReassembly::Continuation => 3,
        }
    }

    /// The value with a two-bit code.
    pub fn try_from(value: u8) -> (result: Result<Self, Error>)
        ensures
            match result {
                Ok(sar) => sar.spec_code() == value,
                Err(error) => value > 3 && error@ == "invalid ERTM SAR value"@,
            },
    {
        match value {
            0 => Ok(SegmentationAndReassembly::Unsegmented),
            1 => Ok(SegmentationAndReassembly::Start),
            2 => Ok(SegmentationAndReassembly::End),
            3 => Ok(SegmentationAndReassembly::Continuation),
            _ => Err(Error::new("invalid ERTM SAR value")),
        }
    }
}

/// What a supervisory frame says.
#[derive(Clone, Copy, Debug, PartialEq, Eq, Structural)]
pub enum SupervisoryFunction {
    ReceiverReady,
    Reject,
    ReceiverNotReady,
    SelectiveReject,
}

impl SupervisoryFunction {
    pub open spec fn spec_code(self) -> u8 {
        match self {
            SupervisoryFunction::ReceiverReady => 0,
            SupervisoryFunction::Reject => 1,
            SupervisoryFunction::ReceiverNotReady => 2,
            SupervisoryFunction::SelectiveReject => 3,
        }
    }

    /// The two-bit code of the function.
    pub fn code(self) -> (code: u8)
        ensures
            code == self.spec_code(),
    {
        match self {
            SupervisoryFunction::ReceiverReady => 0,
            SupervisoryFunction::Reject => 1,
            SupervisoryFunction::ReceiverNotReady => 2,
            SupervisoryFunction::SelectiveReject => 3,
        }
    }

    /// The function with a two-bit code.
    pub fn try_from(value: u8) -> (result: Result<Self, Error>)
        ensures
            match result {
                Ok(function) => function.spec_code() == value,
                Err(error) => value > 3 && error@ == "invalid ERTM supervisory function"@,
            },
    {
        match value {
            0 => Ok(SupervisoryFunction::ReceiverReady),
            1 => Ok(SupervisoryFunction::Reject),
            2 => Ok(SupervisoryFunction::ReceiverNotReady),
            3 => Ok(SupervisoryFunction::SelectiveReject),
            _ => Err(Error::new("invalid ERTM supervisory function")),
        }
    }
}

/// The two-byte control field in front of every frame.
#[derive(Clone, Copy, Debug, PartialEq, Eq, Structural)]
pub enum EnhancedControlField {
    Information { tx_seq: u8, final_bit: bool, req_seq: u8, sar: SegmentationAndReassembly },
    Supervisory { function: SupervisoryFunction, poll: bool, final_bit: bool, req_seq: u8 },
}

pub open spec fn bit(set: bool, weight: int) -> int {
    if set {
        weight
    } else {
        0
    }
}

/// The value with a two-bit code.
pub open spec fn sar_of(code: int) -> SegmentationAndReassembly {
    if code == 0 {
        SegmentationAndReassembly::Unsegmented
    } else if code == 1 {
        SegmentationAndReassembly::Start
    } else if code == 2 {
        SegmentationAndReassembly::End
    } else {
        SegmentationAndReassembly::Continuation
    }
}

/// The function with a two-bit code.
pub open spec fn function_of(code: int) -> SupervisoryFunction {
    if code == 0 {
        SupervisoryFunction::ReceiverReady
    } else if code == 1 {
        SupervisoryFunction::Reject
    } else if code == 2 {
        SupervisoryFunction::ReceiverNotReady
    } else {
        SupervisoryFunction::SelectiveReject
    }
}

impl View for EnhancedControlField {
    type V = EnhancedControlField;

    open spec fn view(&self) -> EnhancedControlField {
        *self
    }
}

impl EnhancedControlField {
    /// Whether the sequence numbers are in range.
    pub open spec fn valid(self) -> bool {
        match self {
            EnhancedControlField::Information { tx_seq, req_seq, .. } => tx_seq < 64 && req_seq < 64,
            EnhancedControlField::Supervisory { req_seq, .. } => req_seq < 64,
        }
    }

    /// The two bytes of a field whose sequence numbers are in range.
    pub open spec fn bytes(self) -> Seq<u8> {
        match self {
            EnhancedControlField::Information { tx_seq, final_bit, req_seq, sar } => seq![
                (2 * (tx_seq % 64) + bit(final_bit, 128)) as u8,
                (req_seq % 64 + 64 * sar.spec_code()) as u8,
            ],
            EnhancedControlField::Supervisory { function, poll, final_bit, req_seq } => seq![
                (1 + 4 * function.spec_code() + bit(poll, 16) + bit(final_bit, 128)) as u8,
                (req_seq % 64) as u8,
            ],
        }
    }

    pub open spec fn encode(self) -> Result<Seq<u8>, Seq<char>> {
        match self {
            EnhancedControlField::Information { tx_seq, req_seq, .. } => if tx_seq >= 64 {
                Err("ERTM transmit sequence number out of range"@)
            } else if req_seq >= 64 {
                Err("ERTM request sequence number out of range"@)
            } else {
                Ok(self.bytes())
            },
            EnhancedControlField::Supervisory { req_seq, .. } => if req_seq >= 64 {
                Err("ERTM request sequence number out of range"@)
            } else {
                Ok(self.bytes())
            },
        }
    }

    pub open spec fn decode(data: Seq<u8>) -> Result<EnhancedControlField, Seq<char>> {
        if data.len() < 2 {
            Err("truncated ERTM control field"@)
        } else if data[0] % 2 == 0 {
            Ok(
                EnhancedControlField::Information {
                    tx_seq: (data[0] / 2 % 64) as u8,
                    final_bit: data[0] >= 128,
                    req_seq: (data[1] % 64) as u8,
                    sar: sar_of((data[1] / 64) as int),
                },
            )
        } else {
            Ok(
                EnhancedControlField::Supervisory {
                    function: function_of((data[0] / 4 % 4) as int),
                    poll: data[0] / 16 % 2 == 1,
                    final_bit: data[0] >= 128,
                    req_seq: (data[1] % 64) as u8,
                },
            )
        }
    }

    pub open spec fn spec_req_seq(self) -> u8 {
        match self {
            EnhancedControlField::Information { req_seq, .. } => req_seq,
            EnhancedControlField::Supervisory { req_seq, .. } => req_seq,
        }
    }

    /// Reads the control field at the start of a frame.
    pub fn from_bytes(data: &[u8]) -> (result: Result<Self, Error>)
        ensures
            agrees(result, EnhancedControlField::decode(data@)),
    {
        if data.len() < 2 {
            return Err(Error::new("truncated ERTM control field"));
        }
        let first: u8 = data[0];
        let second: u8 = data[1];
        if first % 2 == 0 {
            match SegmentationAndReassembly::try_from(second / 64) {
                Err(error) => Err(error),
                Ok(sar) => Ok(
                    EnhancedControlField::Information {
                        tx_seq: first / 2 % 64,
                        final_bit: first >= 128,
                        req_seq: second % 64,
                        sar,
                    },
                ),
            }
        } else {
            match SupervisoryFunction::try_from(first / 4 % 4) {
                Err(error) => Err(error),
                Ok(function) => Ok(
                    EnhancedControlField::Supervisory {
                        function,
                        poll: first / 16 % 2 == 1,
                        final_bit: first >= 128,
                        req_seq: second % 64,
                    },
                ),
            }
        }
    }

    /// The two bytes of the field, with each sequence number taken modulo 64.
    fn raw_bytes(self) -> (bytes: [u8; 2])
        ensures
            bytes@ == self.bytes(),
    {
        let bytes: [u8; 2] = match self {
            EnhancedControlField::Information { tx_seq, final_bit, req_seq, sar } => {
                let flag: u8 = if final_bit {
                    128
                } else {
                    0
                };
                [2 * (tx_seq % 64) + flag, req_seq % 64 + 64 * sar.code()]
            },
            EnhancedControlField::Supervisory { function, poll, final_bit, req_seq } => {
                let poll_flag: u8 = if poll {
                    16
                } else {
                    0
                };
                let flag: u8 = if final_bit {
                    128
                } else {
                    0
                };
                [1 + 4 * function.code() + poll_flag + flag, req_seq % 64]
            },
        };
        assert(bytes@ =~= self.bytes());
        bytes
    }

    /// The two bytes of the field, if its sequence numbers are in range.
    pub fn to_bytes(self) -> (result: Result<[u8; 2], Error>)
        ensures
            agrees(result, self.encode()),
    {
        match self {
            EnhancedControlField::Information { tx_seq, req_seq, .. } => {
                if tx_seq >= ERTM_SEQUENCE_MODULUS {
                    return Err(Error::new("ERTM transmit sequence number out of range"));
                }
                if req_seq >= ERTM_SEQUENCE_MODULUS {
                    return Err(Error::new("ERTM request sequence number out of range"));
                }
            },
            EnhancedControlField::Supervisory { req_seq, .. } => {
                if req_seq >= ERTM_SEQUENCE_MODULUS {
                    return Err(Error::new("ERTM request sequence number out of range"));
                }
            },
        }
        Ok(self.raw_bytes())
    }

    pub fn req_seq(self) -> (req_seq: u8)
        ensures
            req_seq == self.spec_req_seq(),
    {
        match self {
            EnhancedControlField::Information { req_seq, .. } => req_seq,
            EnhancedControlField::Supervisory { req_seq, .. } => req_seq,
        }
    }
}

/// A control field in range is read back from its bytes, whatever follows them.
pub proof fn control_field_reads_back(field: EnhancedControlField, tail: Seq<u8>)
    requires
        field.valid(),
    ensures
        field.encode() == Ok::<Seq<u8>, Seq<char>>(field.bytes()),
        EnhancedControlField::decode(field.bytes() + tail) == Ok::<EnhancedControlField, Seq<char>>(
            field,
        ),
{
    let data = field.bytes() + tail;
    assert(data[0] == field.bytes()[0]);
    assert(data[1] == field.bytes()[1]);
}

/// A control field that is read is in range, whatever the two bytes were.
pub proof fn control_field_read_is_valid(data: Seq<u8>)
    requires
        data.len() >= 2,
    ensures
        EnhancedControlField::decode(data) is Ok,
        EnhancedControlField::decode(data)->Ok_0.valid(),
{
}

/// What both ends agreed on.
#[derive(Clone, Copy, Debug, PartialEq, Eq, Structural)]
pub struct ErtmConfig {
    pub local_mtu: u16,
    pub peer_mtu: u16,
    pub local_mps: u16,
    pub peer_mps: u16,
    pub tx_window_size: u8,
    /// Zero means unlimited.
    pub max_retransmissions: u8,
    /// Logical ticks of the caller's choosing. The engine reads no clock.
    pub retransmission_timeout_ticks: u32,
}

impl View for ErtmConfig {
    type V = ErtmConfig;

    open spec fn view(&self) -> ErtmConfig {
        *self
    }
}

impl Default for ErtmConfig {
    fn default() -> (config: Self)
        ensures
            config == (ErtmConfig {
                local_mtu: 2048,
                peer_mtu: 2048,
                local_mps: 1010,
                peer_mps: 1010,
                tx_window_size: 63,
                max_retransmissions: 0,
                retransmission_timeout_ticks: 2_000,
            }),
    {
        ErtmConfig {
            local_mtu: 2048,
            peer_mtu: 2048,
            local_mps: 1010,
            peer_mps: 1010,
            tx_window_size: 63,
            max_retransmissions: 0,
            retransmission_timeout_ticks: 2_000,
        }
    }
}

impl ErtmConfig {
    /// The configuration, or the reason it cannot be used.
    pub open spec fn checked(self) -> Result<ErtmConfig, Seq<char>> {
        if self.local_mtu == 0 || self.peer_mtu == 0 {
            Err("ERTM MTU cannot be zero"@)
        } else if self.local_mps == 0 || self.peer_mps == 0 {
            Err("ERTM MPS cannot be zero"@)
        } else if !(1 <= self.tx_window_size < 64) {
            Err("ERTM transmit window must be between 1 and 63"@)
        } else if self.retransmission_timeout_ticks == 0 {
            Err("ERTM retransmission timeout cannot be zero"@)
        } else {
            Ok(self)
        }
    }

    pub fn validate(self) -> (result: Result<Self, Error>)
        ensures
            agrees(result, self.checked()),
    {
        if self.local_mtu == 0 || self.peer_mtu == 0 {
            return Err(Error::new("ERTM MTU cannot be zero"));
        }
        if self.local_mps == 0 || self.peer_mps == 0 {
            return Err(Error::new("ERTM MPS cannot be zero"));
        }
        if self.tx_window_size < 1 || self.tx_window_size >= ERTM_SEQUENCE_MODULUS {
            return Err(Error::new("ERTM transmit window must be between 1 and 63"));
        }
        if self.retransmission_timeout_ticks == 0 {
            return Err(Error::new("ERTM retransmission timeout cannot be zero"));
        }
        Ok(self)
    }
}

/// The sequence number `delta` after `sequence`.
#[verifier::opaque]
pub open spec fn seq_add(sequence: u8, delta: int) -> u8 {
    ((sequence + delta) % 64) as u8
}

/// How many steps lead from one sequence number to another.
pub open spec fn seq_distance(from: u8, to: u8) -> int {
    (to - from) % 64
}

/// Steps add up, and a sequence number is below 64.
pub proof fn lemma_seq_add(sequence: u8, first: int, second: int)
    ensures
        seq_add(sequence, first) < 64,
        seq_add(seq_add(sequence, first), second) == seq_add(sequence, first + second),
        sequence < 64 ==> seq_add(sequence, 0) == sequence,
{
    reveal(seq_add);
}

/// The distance between two sequence numbers leads from one to the other.
pub proof fn lemma_seq_distance(from: u8, to: u8)
    requires
        to < 64,
    ensures
        0 <= seq_distance(from, to) < 64,
        seq_add(from, seq_distance(from, to)) == to,
{
    reveal(seq_add);
}

fn sequence_add(sequence: u8, delta: u8) -> (sum: u8)
    ensures
        sum == seq_add(sequence, delta as int),
{
    reveal(seq_add);
    ((sequence as u16 + delta as u16) % 64) as u8
}

fn sequence_distance(from: u8, to: u8) -> (distance: u8)
    ensures
        distance == seq_distance(from, to),
{
    ((to as u16 + 256 - from as u16) % 64) as u8
}

/// A numbered segment of an SDU.
pub struct PendingFrameV {
    pub payload: Seq<u8>,
    pub tx_seq: u8,
    pub sar: SegmentationAndReassembly,
    pub sdu_length: Option<u16>,
}

impl PendingFrameV {
    /// The bytes after the control field: the SDU length on a start frame, then
    /// the payload.
    pub open spec fn body(self) -> Seq<u8> {
        match self.sdu_length {
            Some(length) => le16(length) + self.payload,
            None => self.payload,
        }
    }

    pub open spec fn control(self, req_seq: u8) -> EnhancedControlField {
        EnhancedControlField::Information {
            tx_seq: self.tx_seq,
            final_bit: false,
            req_seq,
            sar: self.sar,
        }
    }

    /// The whole frame, which also acknowledges everything before `req_seq`.
    pub open spec fn encode(self, req_seq: u8) -> Seq<u8> {
        self.control(req_seq).bytes() + self.body()
    }
}

/// A frame that was sent and is not acknowledged yet.
pub struct TransmittedFrameV {
    pub frame: PendingFrameV,
    pub transmissions: u16,
}

pub open spec fn transmitted(frame: PendingFrameV) -> TransmittedFrameV {
    TransmittedFrameV { frame, transmissions: 1 }
}

impl TransmittedFrameV {
    /// Whether the frame may not be repeated any more.
    pub open spec fn exhausted(self, max: u8) -> bool {
        max != 0 && self.transmissions >= 1 + max
    }

    /// The frame after one more transmission.
    pub open spec fn repeated(self) -> TransmittedFrameV {
        TransmittedFrameV {
            frame: self.frame,
            transmissions: if self.transmissions == 65535 {
                65535
            } else {
                (self.transmissions + 1) as u16
            },
        }
    }
}

/// The first frame of the window that may not be repeated any more.
pub open spec fn first_exhausted(window: Seq<TransmittedFrameV>, max: u8) -> Option<TransmittedFrameV>
    decreases window.len(),
{
    if window.len() == 0 {
        None
    } else if window[0].exhausted(max) {
        Some(window[0])
    } else {
        first_exhausted(window.skip(1), max)
    }
}

/// The position of the first frame of the window with this sequence number.
pub open spec fn window_position(window: Seq<TransmittedFrameV>, tx_seq: u8) -> Option<int>
    decreases window.len(),
{
    if window.len() == 0 {
        None
    } else if window[0].frame.tx_seq == tx_seq {
        Some(0)
    } else {
        match window_position(window.skip(1), tx_seq) {
            Some(index) => Some(index + 1),
            None => None,
        }
    }
}

/// The frames for the part of an SDU behind its first segment.
pub open spec fn later_segments(rest: Seq<u8>, mps: int, tx_seq: u8) -> Seq<PendingFrameV>
    decreases rest.len(),
{
    if mps <= 0 || rest.len() <= mps {
        seq![
            PendingFrameV {
                payload: rest,
                tx_seq,
                sar: SegmentationAndReassembly::End,
                sdu_length: None,
            },
        ]
    } else {
        seq![
            PendingFrameV {
                payload: rest.take(mps),
                tx_seq,
                sar: SegmentationAndReassembly::Continuation,
                sdu_length: None,
            },
        ] + later_segments(rest.skip(mps), mps, seq_add(tx_seq, 1))
    }
}

/// The frames that carry an SDU in segments of at most `mps` bytes, numbered
/// from `tx_seq` on.
pub open spec fn segments(sdu: Seq<u8>, mps: int, tx_seq: u8) -> Seq<PendingFrameV> {
    if mps <= 0 || sdu.len() <= mps {
        seq![
            PendingFrameV {
                payload: sdu,
                tx_seq,
                sar: SegmentationAndReassembly::Unsegmented,
                sdu_length: None,
            },
        ]
    } else {
        seq![
            PendingFrameV {
                payload: sdu.take(mps),
                tx_seq,
                sar: SegmentationAndReassembly::Start,
                sdu_length: Some(sdu.len() as u16),
            },
        ] + later_segments(sdu.skip(mps), mps, seq_add(tx_seq, 1))
    }
}

/// The state of one end of an enhanced retransmission mode channel.
pub struct ErtmEngineV {
    pub config: ErtmConfig,
    pub pending: Seq<PendingFrameV>,
    pub tx_window: Seq<TransmittedFrameV>,
    pub outbound: Seq<Seq<u8>>,
    pub received: Seq<Seq<u8>>,
    pub next_tx_seq: u8,
    pub last_acked_tx_seq: u8,
    pub expected_tx_seq: u8,
    pub last_acked_rx_seq: u8,
    pub remote_busy: bool,
    pub local_busy: bool,
    pub input_sdu: Seq<u8>,
    pub input_sdu_length: Option<int>,
    pub now: u64,
    pub retransmission_deadline: Option<u64>,
    pub failed: bool,
}

/// A state and what the operation that led to it returned.
pub type Outcome = (ErtmEngineV, Result<(), Seq<char>>);

pub open spec fn clock_sum(now: u64, ticks: u32) -> u64 {
    if now + ticks > u64::MAX {
        u64::MAX
    } else {
        (now + ticks) as u64
    }
}

impl ErtmEngineV {
    pub open spec fn initial(config: ErtmConfig) -> ErtmEngineV {
        ErtmEngineV {
            config,
            pending: seq![],
            tx_window: seq![],
            outbound: seq![],
            received: seq![],
            next_tx_seq: 0,
            last_acked_tx_seq: 0,
            expected_tx_seq: 0,
            last_acked_rx_seq: 0,
            remote_busy: false,
            local_busy: false,
            input_sdu: seq![],
            input_sdu_length: None,
            now: 0,
            retransmission_deadline: None,
            failed: false,
        }
    }

    /// The timer runs while a frame is unacknowledged, and starts anew.
    pub open spec fn deadline_refreshed(self) -> ErtmEngineV {
        ErtmEngineV {
            retransmission_deadline: if self.tx_window.len() == 0 {
                None
            } else {
                Some(clock_sum(self.now, self.config.retransmission_timeout_ticks))
            },
            ..self
        }
    }

    /// How many waiting frames the window has room for.
    pub open spec fn sendable(self) -> int {
        let room = if self.tx_window.len() < self.config.tx_window_size {
            self.config.tx_window_size - self.tx_window.len()
        } else {
            0
        };
        if self.pending.len() < room {
            self.pending.len() as int
        } else {
            room
        }
    }

    /// Unless the peer is busy, waiting frames move into the window in order,
    /// as far as there is room, and are sent.
    pub open spec fn output_processed(self) -> ErtmEngineV {
        if self.remote_busy {
            self
        } else {
            let sent = self.pending.take(self.sendable());
            ErtmEngineV {
                pending: self.pending.skip(self.sendable()),
                tx_window: self.tx_window + sent.map_values(|frame: PendingFrameV| transmitted(frame)),
                outbound: self.outbound + sent.map_values(
                    |frame: PendingFrameV| frame.encode(self.expected_tx_seq),
                ),
                last_acked_rx_seq: if sent.len() > 0 {
                    self.expected_tx_seq
                } else {
                    self.last_acked_rx_seq
                },
                ..self
            }.deadline_refreshed()
        }
    }

    /// A supervisory frame is sent, which acknowledges everything received.
    pub open spec fn supervised(
        self,
        function: SupervisoryFunction,
        poll: bool,
        final_bit: bool,
    ) -> ErtmEngineV {
        ErtmEngineV {
            outbound: self.outbound.push(
                EnhancedControlField::Supervisory {
                    function,
                    poll,
                    final_bit,
                    req_seq: self.expected_tx_seq,
                }.bytes(),
            ),
            last_acked_rx_seq: self.expected_tx_seq,
            ..self
        }
    }

    pub open spec fn failure(self, tx_seq: u8) -> Outcome {
        (
            ErtmEngineV { failed: true, ..self },
            Err("maximum retransmissions exceeded for ERTM sequence "@ + decimal(tx_seq as nat)),
        )
    }

    /// Unless the peer is busy, every unacknowledged frame is sent again, or
    /// the engine fails because one of them may not be.
    pub open spec fn all_retransmitted(self) -> Outcome {
        if self.remote_busy {
            (self, Ok(()))
        } else {
            match first_exhausted(self.tx_window, self.config.max_retransmissions) {
                Some(sent) => self.failure(sent.frame.tx_seq),
                None => (
                    ErtmEngineV {
                        tx_window: self.tx_window.map_values(
                            |sent: TransmittedFrameV| sent.repeated(),
                        ),
                        outbound: self.outbound + self.tx_window.map_values(
                            |sent: TransmittedFrameV| sent.frame.encode(self.expected_tx_seq),
                        ),
                        last_acked_rx_seq: if self.tx_window.len() > 0 {
                            self.expected_tx_seq
                        } else {
                            self.last_acked_rx_seq
                        },
                        ..self
                    }.deadline_refreshed(),
                    Ok(()),
                ),
            }
        }
    }

    /// Unless the peer is busy, the one frame asked for is sent again.
    pub open spec fn one_retransmitted(self, tx_seq: u8) -> Outcome {
        if self.remote_busy {
            (self, Ok(()))
        } else {
            match window_position(self.tx_window, tx_seq) {
                None => (
                    self,
                    Err(
                        "selective reject requested unknown ERTM sequence "@ + decimal(
                            tx_seq as nat,
                        ),
                    ),
                ),
                Some(index) => {
                    let sent = self.tx_window[index];
                    if sent.exhausted(self.config.max_retransmissions) {
                        self.failure(tx_seq)
                    } else {
                        (
                            ErtmEngineV {
                                tx_window: self.tx_window.update(index, sent.repeated()),
                                outbound: self.outbound.push(sent.frame.encode(self.expected_tx_seq)),
                                last_acked_rx_seq: self.expected_tx_seq,
                                ..self
                            }.deadline_refreshed(),
                            Ok(()),
                        )
                    }
                },
            }
        }
    }

    /// Frames before `new_seq` leave the window. Says whether any did, or why
    /// the acknowledgment is refused.
    pub open spec fn acknowledged(self, new_seq: u8) -> (ErtmEngineV, Result<bool, Seq<char>>) {
        let count = seq_distance(self.last_acked_tx_seq, new_seq);
        if new_seq >= 64 {
            (self, Err("ERTM acknowledgment sequence out of range"@))
        } else if count > self.tx_window.len() {
            (
                self,
                Err(
                    "ERTM acknowledged "@ + decimal(count as nat) + " frames with only "@ + decimal(
                        self.tx_window.len(),
                    ) + " outstanding"@,
                ),
            )
        } else if count == 0 {
            (self, Ok(false))
        } else {
            (
                ErtmEngineV {
                    tx_window: self.tx_window.skip(count),
                    last_acked_tx_seq: new_seq,
                    ..self
                }.deadline_refreshed(),
                Ok(true),
            )
        }
    }

    /// Nothing of an SDU is held.
    pub open spec fn input_idle(self) -> bool {
        self.input_sdu.len() == 0 && self.input_sdu_length is None
    }

    pub open spec fn input_reset(self) -> ErtmEngineV {
        ErtmEngineV { input_sdu: seq![], input_sdu_length: None, ..self }
    }

    /// A start or continuation segment was added: the SDU must not be complete yet.
    pub open spec fn partial_checked(self) -> Outcome {
        if self.input_sdu_length is Some && self.input_sdu.len() >= self.input_sdu_length->0 {
            (
                self.input_reset(),
                Err("ERTM segmented SDU reached its length before an end frame"@),
            )
        } else {
            (self, Ok(()))
        }
    }

    /// The payload of an information frame in sequence joins the SDU.
    pub open spec fn information_accepted(
        self,
        sar: SegmentationAndReassembly,
        payload: Seq<u8>,
    ) -> Outcome {
        match sar {
            SegmentationAndReassembly::Unsegmented => if !self.input_idle() {
                (self.input_reset(), Err("unsegmented frame interrupted an ERTM SDU"@))
            } else if payload.len() > self.config.local_mtu {
                (self, Err("ERTM SDU exceeds local MTU"@))
            } else {
                (ErtmEngineV { received: self.received.push(payload), ..self }, Ok(()))
            },
            SegmentationAndReassembly::Start => if payload.len() < 2 {
                (self, Err("ERTM start frame is missing SDU length"@))
            } else if !self.input_idle() {
                (self.input_reset(), Err("ERTM start frame interrupted an SDU"@))
            } else if le16_at(payload, 0) > self.config.local_mtu {
                (self, Err("ERTM SDU exceeds local MTU"@))
            } else {
                ErtmEngineV {
                    input_sdu: payload.skip(2),
                    input_sdu_length: Some(le16_at(payload, 0) as int),
                    ..self
                }.partial_checked()
            },
            SegmentationAndReassembly::Continuation => if self.input_sdu_length is None {
                (self, Err("ERTM continuation without start"@))
            } else {
                ErtmEngineV { input_sdu: self.input_sdu + payload, ..self }.partial_checked()
            },
            SegmentationAndReassembly::End => if self.input_sdu_length is None {
                (self, Err("ERTM end without start"@))
            } else if (self.input_sdu + payload).len() != self.input_sdu_length->0 {
                (self.input_reset(), Err("ERTM SDU length mismatch"@))
            } else {
                (
                    ErtmEngineV {
                        received: self.received.push(self.input_sdu + payload),
                        ..self.input_reset()
                    },
                    Ok(()),
                )
            },
        }
    }

    /// An information frame came, whose acknowledgment is already taken in.
    pub open spec fn information_received(
        self,
        tx_seq: u8,
        final_bit: bool,
        sar: SegmentationAndReassembly,
        payload: Seq<u8>,
    ) -> Outcome {
        if self.local_busy {
            (self.supervised(SupervisoryFunction::ReceiverNotReady, false, final_bit), Ok(()))
        } else if tx_seq != self.expected_tx_seq {
            (self.supervised(SupervisoryFunction::Reject, false, final_bit), Ok(()))
        } else {
            let (accepted, result) = ErtmEngineV {
                expected_tx_seq: seq_add(self.expected_tx_seq, 1),
                ..self
            }.information_accepted(sar, payload);
            match result {
                Err(reason) => (accepted, Err(reason)),
                Ok(_) => {
                    let sent = accepted.output_processed();
                    if sent.last_acked_rx_seq != sent.expected_tx_seq {
                        (
                            sent.supervised(SupervisoryFunction::ReceiverReady, false, final_bit),
                            Ok(()),
                        )
                    } else {
                        (sent, Ok(()))
                    }
                },
            }
        }
    }

    /// What a supervisory frame makes the engine send again.
    pub open spec fn supervision_answered(
        self,
        function: SupervisoryFunction,
        final_bit: bool,
        req_seq: u8,
        acked: bool,
    ) -> Outcome {
        match function {
            SupervisoryFunction::Reject => self.all_retransmitted(),
            SupervisoryFunction::SelectiveReject => self.one_retransmitted(req_seq),
            _ => if final_bit && !acked && self.tx_window.len() > 0 {
                self.all_retransmitted()
            } else {
                (self, Ok(()))
            },
        }
    }

    pub open spec fn readiness(self) -> SupervisoryFunction {
        if self.local_busy {
            SupervisoryFunction::ReceiverNotReady
        } else {
            SupervisoryFunction::ReceiverReady
        }
    }

    /// A supervisory frame came, whose acknowledgment is already taken in.
    pub open spec fn supervisory_received(
        self,
        function: SupervisoryFunction,
        poll: bool,
        final_bit: bool,
        req_seq: u8,
        acked: bool,
    ) -> Outcome {
        let (answered, result) = ErtmEngineV {
            remote_busy: function == SupervisoryFunction::ReceiverNotReady,
            ..self
        }.supervision_answered(function, final_bit, req_seq, acked);
        match result {
            Err(reason) => (answered, Err(reason)),
            Ok(_) => (
                if poll {
                    answered.supervised(answered.readiness(), false, true)
                } else {
                    answered
                }.output_processed(),
                Ok(()),
            ),
        }
    }

    /// One frame came from the peer.
    #[verifier::opaque]
    pub open spec fn frame_received(self, frame: Seq<u8>) -> Outcome {
        if self.failed {
            (self, Err("ERTM engine has failed"@))
        } else {
            match EnhancedControlField::decode(frame) {
                Err(reason) => (self, Err(reason)),
                Ok(control) => {
                    let (acknowledged, acked) = self.acknowledged(control.spec_req_seq());
                    match acked {
                        Err(reason) => (acknowledged, Err(reason)),
                        Ok(acked) => match control {
                            EnhancedControlField::Information { tx_seq, final_bit, sar, .. } =>
                            acknowledged.information_received(tx_seq, final_bit, sar, frame.skip(2)),
                            EnhancedControlField::Supervisory {
                                function,
                                poll,
                                final_bit,
                                req_seq,
                            } => acknowledged.supervisory_received(
                                function,
                                poll,
                                final_bit,
                                req_seq,
                                acked,
                            ),
                        },
                    }
                },
            }
        }
    }

    /// An SDU was handed over for sending.
    pub open spec fn sdu_sent(self, sdu: Seq<u8>) -> Outcome {
        if self.failed {
            (self, Err("ERTM engine has failed"@))
        } else if sdu.len() > self.config.peer_mtu {
            (self, Err("SDU exceeds peer MTU "@ + decimal(self.config.peer_mtu as nat)))
        } else {
            let frames = segments(sdu, self.config.peer_mps as int, self.next_tx_seq);
            (
                ErtmEngineV {
                    pending: self.pending + frames,
                    next_tx_seq: seq_add(self.next_tx_seq, frames.len() as int),
                    ..self
                }.output_processed(),
                Ok(()),
            )
        }
    }

    /// How many frames wait or are unacknowledged, as far as a `usize` counts.
    pub open spec fn frames_outstanding(self) -> usize {
        if self.pending.len() + self.tx_window.len() > usize::MAX {
            usize::MAX
        } else {
            (self.pending.len() + self.tx_window.len()) as usize
        }
    }

    /// The receiving side became busy, or free again.
    pub open spec fn busy_set(self, busy: bool) -> Outcome {
        if self.failed {
            (self, Err("ERTM engine has failed"@))
        } else if self.local_busy == busy {
            (self, Ok(()))
        } else {
            let changed = ErtmEngineV { local_busy: busy, ..self };
            (changed.supervised(changed.readiness(), false, false), Ok(()))
        }
    }

    /// Time went by.
    pub open spec fn ticked(self, ticks: u32) -> Outcome {
        if self.failed {
            (self, Err("ERTM engine has failed"@))
        } else {
            let later = ErtmEngineV { now: clock_sum(self.now, ticks), ..self };
            if later.retransmission_deadline is Some && later.now
                >= later.retransmission_deadline->0 && later.tx_window.len() > 0 {
                later.all_retransmitted()
            } else {
                (later, Ok(()))
            }
        }
    }
}

#[derive(Clone, Debug)]
pub struct PendingFrame {
    payload: Vec<u8>,
    tx_seq: u8,
    sar: SegmentationAndReassembly,
    sdu_length: Option<u16>,
}

impl View for PendingFrame {
    type V = PendingFrameV;

    closed spec fn view(&self) -> PendingFrameV {
        PendingFrameV {
            payload: self.payload@,
            tx_seq: self.tx_seq,
            sar: self.sar,
            sdu_length: self.sdu_length,
        }
    }
}

impl PendingFrame {
    /// The whole frame, acknowledging everything before `req_seq`.
    fn encode(&self, req_seq: u8) -> (frame: Vec<u8>)
        ensures
            frame@ == self@.encode(req_seq),
    {
        let control = EnhancedControlField::Information {
            tx_seq: self.tx_seq,
            final_bit: false,
            req_seq,
            sar: self.sar,
        };
        let bytes = control.raw_bytes();
        let mut frame = copy_bytes(bytes.as_slice());
        match self.sdu_length {
            Some(length) => {
                push_le16(&mut frame, length);
            },
            None => {},
        }
        append_bytes(&mut frame, &self.payload);
        assert(frame@ =~= self@.encode(req_seq));
        frame
    }
}

#[derive(Clone, Debug)]
pub struct TransmittedFrame {
    frame: PendingFrame,
    transmissions: u16,
}

impl View for TransmittedFrame {
    type V = TransmittedFrameV;

    closed spec fn view(&self) -> TransmittedFrameV {
        TransmittedFrameV { frame: self.frame@, transmissions: self.transmissions }
    }
}

impl TransmittedFrame {
    /// Whether the frame may not be repeated any more.
    fn retransmission_limit_reached(&self, max: u8) -> (reached: bool)
        ensures
            reached == self@.exhausted(max),
    {
        let retransmissions: u16 = self.transmissions.saturating_sub(1);
        max != 0 && retransmissions >= max as u16
    }

    fn count_transmission(&mut self)
        ensures
            final(self)@ == old(self)@.repeated(),
    {
        self.transmissions = self.transmissions.saturating_add(1);
    }
}

fn retransmission_limit_error(tx_seq: u8) -> (error: Error)
    ensures
        error@ == "maximum retransmissions exceeded for ERTM sequence "@ + decimal(tx_seq as nat),
{
    Error::InvalidPacket(
        with_decimal("maximum retransmissions exceeded for ERTM sequence ", tx_seq as u64),
    )
}

/// One end of an enhanced retransmission mode channel. Frames to send are taken
/// with [`Self::poll_outbound`], and delivered SDUs with [`Self::pop_received`].
#[derive(Clone, Debug)]
pub struct ErtmEngine {
    config: ErtmConfig,
    pending: VecDeque<PendingFrame>,
    tx_window: Vec<TransmittedFrame>,
    outbound: VecDeque<Vec<u8>>,
    received: VecDeque<Vec<u8>>,
    next_tx_seq: u8,
    last_acked_tx_seq: u8,
    expected_tx_seq: u8,
    last_acked_rx_seq: u8,
    remote_busy: bool,
    local_busy: bool,
    input_sdu: Vec<u8>,
    input_sdu_length: Option<usize>,
    now: u64,
    retransmission_deadline: Option<u64>,
    failed: bool,
}

/// The contents of a list of byte buffers.
pub open spec fn buffers(list: Seq<Vec<u8>>) -> Seq<Seq<u8>> {
    list.map_values(|buffer: Vec<u8>| buffer@)
}

spec fn pending_views(list: Seq<PendingFrame>) -> Seq<PendingFrameV> {
    list.map_values(|frame: PendingFrame| frame@)
}

spec fn window_views(list: Seq<TransmittedFrame>) -> Seq<TransmittedFrameV> {
    list.map_values(|sent: TransmittedFrame| sent@)
}

impl View for ErtmEngine {
    type V = ErtmEngineV;

    closed spec fn view(&self) -> ErtmEngineV {
        ErtmEngineV {
            config: self.config,
            pending: pending_views(self.pending@),
            tx_window: window_views(self.tx_window@),
            outbound: buffers(self.outbound@),
            received: buffers(self.received@),
            next_tx_seq: self.next_tx_seq,
            last_acked_tx_seq: self.last_acked_tx_seq,
            expected_tx_seq: self.expected_tx_seq,
            last_acked_rx_seq: self.last_acked_rx_seq,
            remote_busy: self.remote_busy,
            local_busy: self.local_busy,
            input_sdu: self.input_sdu@,
            input_sdu_length: match self.input_sdu_length {
                Some(length) => Some(length as int),
                None => None,
            },
            now: self.now,
            retransmission_deadline: self.retransmission_deadline,
            failed: self.failed,
        }
    }
}

impl ErtmEngine {
    /// An engine in its initial state, if the configuration can be used.
    pub fn new(config: ErtmConfig) -> (result: Result<Self, Error>)
        ensures
            agrees(
                result,
                match config.checked() {
                    Ok(config) => Ok(ErtmEngineV::initial(config)),
                    Err(reason) => Err(reason),
                },
            ),
    {
        match config.validate() {
            Err(error) => Err(error),
            Ok(config) => {
                let engine = ErtmEngine {
                    config,
                    pending: VecDeque::new(),
                    tx_window: Vec::new(),
                    outbound: VecDeque::new(),
                    received: VecDeque::new(),
                    next_tx_seq: 0,
                    last_acked_tx_seq: 0,
                    expected_tx_seq: 0,
                    last_acked_rx_seq: 0,
                    remote_busy: false,
                    local_busy: false,
                    input_sdu: Vec::new(),
                    input_sdu_length: None,
                    now: 0,
                    retransmission_deadline: None,
                    failed: false,
                };
                let ghost model = ErtmEngineV::initial(config);
                assert(engine@.pending =~= model.pending);
                assert(engine@.tx_window =~= model.tx_window);
                assert(engine@.outbound =~= model.outbound);
                assert(engine@.received =~= model.received);
                assert(engine@.input_sdu =~= model.input_sdu);
                Ok(engine)
            },
        }
    }

    fn ensure_active(&self) -> (result: Result<(), Error>)
        ensures
            match result {
                Ok(_) => !self@.failed,
                Err(error) => self@.failed && error@ == "ERTM engine has failed"@,
            },
    {
        if self.failed {
            Err(Error::new("ERTM engine has failed"))
        } else {
            Ok(())
        }
    }

    fn refresh_retransmission_deadline(&mut self)
        ensures
            final(self)@ == old(self)@.deadline_refreshed(),
    {
        self.retransmission_deadline = if self.tx_window.len() == 0 {
            None
        } else {
            Some(self.now.saturating_add(self.config.retransmission_timeout_ticks as u64))
        };
    }

    fn reset_input(&mut self)
        ensures
            final(self)@ == old(self)@.input_reset(),
    {
        self.input_sdu.clear();
        self.input_sdu_length = None;
        assert(self@.input_sdu =~= seq![]);
    }

    fn take_tx_seq(&mut self) -> (tx_seq: u8)
        ensures
            tx_seq == old(self)@.next_tx_seq,
            final(self)@ == (ErtmEngineV {
                next_tx_seq: seq_add(old(self)@.next_tx_seq, 1),
                ..old(self)@
            }),
    {
        let tx_seq: u8 = self.next_tx_seq;
        self.next_tx_seq = sequence_add(self.next_tx_seq, 1);
        tx_seq
    }

    fn send_supervisory(&mut self, function: SupervisoryFunction, poll: bool, final_bit: bool)
        ensures
            final(self)@ == old(self)@.supervised(function, poll, final_bit),
    {
        let control = EnhancedControlField::Supervisory {
            function,
            poll,
            final_bit,
            req_seq: self.expected_tx_seq,
        };
        let bytes = control.raw_bytes();
        let frame = copy_bytes(bytes.as_slice());
        self.outbound.push_back(frame);
        self.last_acked_rx_seq = self.expected_tx_seq;
        assert(self@.outbound =~= old(self)@.supervised(function, poll, final_bit).outbound);
    }

    fn push_pending(
        &mut self,
        payload: Vec<u8>,
        sar: SegmentationAndReassembly,
        sdu_length: Option<u16>,
    )
        ensures
            final(self)@ == (ErtmEngineV {
                pending: old(self)@.pending.push(
                    PendingFrameV {
                        payload: payload@,
                        tx_seq: old(self)@.next_tx_seq,
                        sar,
                        sdu_length,
                    },
                ),
                next_tx_seq: seq_add(old(self)@.next_tx_seq, 1),
                ..old(self)@
            }),
    {
        let tx_seq: u8 = self.take_tx_seq();
        let ghost before = self.pending@;
        let frame = PendingFrame { payload, tx_seq, sar, sdu_length };
        let ghost model = frame@;
        self.pending.push_back(frame);
        assert(pending_views(self.pending@) =~= pending_views(before).push(model));
    }

    #[verifier::spinoff_prover]
    fn process_output(&mut self)
        ensures
            final(self)@ == old(self)@.output_processed(),
    {
        if self.remote_busy {
            return;
        }
        let ghost start = self@;
        let ghost total = self@.sendable();
        let ghost mut done: int = 0;
        proof {
            let none = start.pending.take(0);
            assert(start.pending.skip(0) =~= start.pending);
            assert(start.tx_window + none.map_values(|frame: PendingFrameV| transmitted(frame))
                =~= start.tx_window);
            assert(start.outbound + none.map_values(
                |frame: PendingFrameV| frame.encode(start.expected_tx_seq),
            ) =~= start.outbound);
        }
        while self.tx_window.len() < self.config.tx_window_size as usize && self.pending.len() > 0
            invariant
                0 <= done <= total,
                total == start.sendable(),
                !start.remote_busy,
                self@ == (ErtmEngineV {
                    pending: start.pending.skip(done),
                    tx_window: start.tx_window + start.pending.take(done).map_values(
                        |frame: PendingFrameV| transmitted(frame),
                    ),
                    outbound: start.outbound + start.pending.take(done).map_values(
                        |frame: PendingFrameV| frame.encode(start.expected_tx_seq),
                    ),
                    last_acked_rx_seq: if done > 0 {
                        start.expected_tx_seq
                    } else {
                        start.last_acked_rx_seq
                    },
                    ..start
                }),
            decreases self.pending@.len(),
        {
            let ghost before = *self;
            assert(before@.pending.len() == before.pending@.len());
            assert(before@.tx_window.len() == before.tx_window@.len());
            assert(before@.pending == start.pending.skip(done));
            match self.pending.pop_front() {
                None => {},
                Some(frame) => {
                    let encoded = frame.encode(self.expected_tx_seq);
                    let ghost model = frame@;
                    let ghost bytes = encoded@;
                    self.last_acked_rx_seq = self.expected_tx_seq;
                    self.tx_window.push(TransmittedFrame { frame, transmissions: 1 });
                    self.outbound.push_back(encoded);
                    proof {
                        assert(model == before@.pending[0]);
                        assert(model == start.pending[done]);
                        let sent = start.pending.take(done);
                        let more = start.pending.take(done + 1);
                        assert(more =~= sent.push(model));
                        assert(self.pending@ =~= before.pending@.skip(1));
                        assert(pending_views(self.pending@) =~= before@.pending.skip(1));
                        assert(before@.pending.skip(1) =~= start.pending.skip(done + 1));
                        assert(window_views(self.tx_window@) =~= window_views(
                            before.tx_window@,
                        ).push(transmitted(model)));
                        assert(window_views(self.tx_window@) =~= start.tx_window + more.map_values(
                            |frame: PendingFrameV| transmitted(frame),
                        ));
                        assert(buffers(self.outbound@) =~= buffers(before.outbound@).push(bytes));
                        assert(buffers(self.outbound@) =~= start.outbound + more.map_values(
                            |frame: PendingFrameV| frame.encode(start.expected_tx_seq),
                        ));
                        done = done + 1;
                    }
                },
            }
        }
        assert(self@.tx_window.len() == self.tx_window@.len());
        assert(self@.pending.len() == self.pending@.len());
        assert(done == total);
        self.refresh_retransmission_deadline();
    }

    fn acknowledge(&mut self, new_seq: u8) -> (result: Result<bool, Error>)
        ensures
            final(self)@ == old(self)@.acknowledged(new_seq).0,
            agrees(result, old(self)@.acknowledged(new_seq).1),
    {
        if new_seq >= ERTM_SEQUENCE_MODULUS {
            return Err(Error::new("ERTM acknowledgment sequence out of range"));
        }
        let count: usize = sequence_distance(self.last_acked_tx_seq, new_seq) as usize;
        if count > self.tx_window.len() {
            let mut reason = with_decimal("ERTM acknowledged ", count as u64);
            reason.append(" frames with only ");
            reason.append(decimal_text(self.tx_window.len() as u64).as_str());
            reason.append(" outstanding");
            return Err(Error::InvalidPacket(reason));
        }
        if count == 0 {
            return Ok(false);
        }
        let ghost start = self@;
        let mut index: usize = 0;
        assert(start.tx_window.skip(0) =~= start.tx_window);
        while index < count
            invariant
                index <= count <= start.tx_window.len(),
                self@ == (ErtmEngineV { tx_window: start.tx_window.skip(index as int), ..start }),
            decreases count - index,
        {
            let ghost before = self.tx_window@;
            self.tx_window.remove(0);
            assert(window_views(self.tx_window@) =~= window_views(before).skip(1));
            assert(start.tx_window.skip(index as int).skip(1) =~= start.tx_window.skip(index + 1));
            index = index + 1;
        }
        self.last_acked_tx_seq = new_seq;
        self.refresh_retransmission_deadline();
        Ok(true)
    }

    /// The sequence number of the first frame that may not be repeated any more.
    fn exhausted_frame(&self) -> (found: Option<u8>)
        ensures
            match first_exhausted(self@.tx_window, self@.config.max_retransmissions) {
                Some(sent) => found == Some(sent.frame.tx_seq),
                None => found is None,
            },
    {
        let mut index: usize = 0;
        let ghost window = self@.tx_window;
        assert(window.skip(0) =~= window);
        while index < self.tx_window.len()
            invariant
                index <= self.tx_window@.len(),
                window == self@.tx_window,
                first_exhausted(window, self.config.max_retransmissions) == first_exhausted(
                    window.skip(index as int),
                    self.config.max_retransmissions,
                ),
            decreases self.tx_window@.len() - index,
        {
            let sent = &self.tx_window[index];
            let ghost rest = window.skip(index as int);
            assert(rest[0] == sent@);
            assert(rest.skip(1) =~= window.skip(index + 1));
            if sent.retransmission_limit_reached(self.config.max_retransmissions) {
                return Some(sent.frame.tx_seq);
            }
            index = index + 1;
        }
        None
    }

    fn retransmit_all(&mut self) -> (result: Result<(), Error>)
        ensures
            final(self)@ == old(self)@.all_retransmitted().0,
            agrees(result, old(self)@.all_retransmitted().1),
    {
        if self.remote_busy {
            return Ok(());
        }
        match self.exhausted_frame() {
            Some(tx_seq) => {
                self.failed = true;
                return Err(retransmission_limit_error(tx_seq));
            },
            None => {},
        }
        let ghost start = self@;
        let mut index: usize = 0;
        proof {
            assert(start.outbound + start.tx_window.take(0).map_values(
                |sent: TransmittedFrameV| sent.frame.encode(start.expected_tx_seq),
            ) =~= start.outbound);
            assert(start.tx_window.take(0).map_values(|sent: TransmittedFrameV| sent.repeated())
                + start.tx_window.skip(0) =~= start.tx_window);
        }
        while index < self.tx_window.len()
            invariant
                index <= start.tx_window.len() == self.tx_window@.len(),
                self@ == (ErtmEngineV {
                    tx_window: start.tx_window.take(index as int).map_values(
                        |sent: TransmittedFrameV| sent.repeated(),
                    ) + start.tx_window.skip(index as int),
                    outbound: start.outbound + start.tx_window.take(index as int).map_values(
                        |sent: TransmittedFrameV| sent.frame.encode(start.expected_tx_seq),
                    ),
                    last_acked_rx_seq: if index > 0 {
                        start.expected_tx_seq
                    } else {
                        start.last_acked_rx_seq
                    },
                    ..start
                }),
            decreases start.tx_window.len() - index,
        {
            let ghost before = *self;
            let encoded = self.repeat_frame(index);
            let ghost bytes = encoded@;
            self.outbound.push_back(encoded);
            self.last_acked_rx_seq = self.expected_tx_seq;
            proof {
                assert(self@.outbound =~= before@.outbound.push(bytes));
                let sent = start.tx_window[index as int];
                assert(before@.tx_window[index as int] == sent);
                assert(start.tx_window.take(index + 1) =~= start.tx_window.take(index as int).push(
                    sent,
                ));
                assert(self@.tx_window =~= start.tx_window.take(index + 1).map_values(
                    |sent: TransmittedFrameV| sent.repeated(),
                ) + start.tx_window.skip(index + 1));
                assert(self@.outbound =~= start.outbound + start.tx_window.take(
                    index + 1,
                ).map_values(
                    |sent: TransmittedFrameV| sent.frame.encode(start.expected_tx_seq),
                ));
            }
            index = index + 1;
        }
        proof {
            assert(start.tx_window.take(index as int) =~= start.tx_window);
            assert(self@.tx_window =~= start.tx_window.map_values(
                |sent: TransmittedFrameV| sent.repeated(),
            ));
        }
        self.refresh_retransmission_deadline();
        Ok(())
    }

    /// Counts one more transmission of a frame of the window, and encodes it.
    fn repeat_frame(&mut self, index: usize) -> (encoded: Vec<u8>)
        requires
            index < old(self)@.tx_window.len(),
        ensures
            final(self)@ == (ErtmEngineV {
                tx_window: old(self)@.tx_window.update(
                    index as int,
                    old(self)@.tx_window[index as int].repeated(),
                ),
                ..old(self)@
            }),
            encoded@ == old(self)@.tx_window[index as int].frame.encode(old(self)@.expected_tx_seq),
            final(self).outbound == old(self).outbound,
            final(self).expected_tx_seq == old(self).expected_tx_seq,
    {
        let ghost before = self.tx_window@;
        let encoded = self.tx_window[index].frame.encode(self.expected_tx_seq);
        self.tx_window[index].count_transmission();
        assert(window_views(self.tx_window@) =~= window_views(before).update(
            index as int,
            window_views(before)[index as int].repeated(),
        ));
        encoded
    }

    fn retransmit_one(&mut self, tx_seq: u8) -> (result: Result<(), Error>)
        ensures
            final(self)@ == old(self)@.one_retransmitted(tx_seq).0,
            agrees(result, old(self)@.one_retransmitted(tx_seq).1),
    {
        if self.remote_busy {
            return Ok(());
        }
        match self.position(tx_seq) {
            None => Err(
                Error::InvalidPacket(
                    with_decimal(
                        "selective reject requested unknown ERTM sequence ",
                        tx_seq as u64,
                    ),
                ),
            ),
            Some(index) => {
                if self.tx_window[index].retransmission_limit_reached(
                    self.config.max_retransmissions,
                ) {
                    self.failed = true;
                    return Err(retransmission_limit_error(tx_seq));
                }
                let encoded = self.repeat_frame(index);
                self.outbound.push_back(encoded);
                self.last_acked_rx_seq = self.expected_tx_seq;
                assert(self@.outbound =~= old(self)@.outbound.push(
                    old(self)@.tx_window[index as int].frame.encode(old(self)@.expected_tx_seq),
                ));
                self.refresh_retransmission_deadline();
                Ok(())
            },
        }
    }

    /// Where the window holds a sequence number.
    fn position(&self, tx_seq: u8) -> (found: Option<usize>)
        ensures
            match window_position(self@.tx_window, tx_seq) {
                Some(index) => found == Some(index as usize) && 0 <= index < self@.tx_window.len()
                    && self@.tx_window[index].frame.tx_seq == tx_seq && index <= usize::MAX,
                None => found is None,
            },
    {
        let mut index: usize = 0;
        let ghost window = self@.tx_window;
        assert(window.skip(0) =~= window);
        while index < self.tx_window.len()
            invariant
                index <= self.tx_window@.len(),
                window == self@.tx_window,
                match window_position(window.skip(index as int), tx_seq) {
                    Some(later) => window_position(window, tx_seq) == Some(later + index),
                    None => window_position(window, tx_seq) is None,
                },
            decreases self.tx_window@.len() - index,
        {
            let ghost rest = window.skip(index as int);
            assert(rest[0] == self.tx_window@[index as int]@);
            assert(rest.skip(1) =~= window.skip(index + 1));
            if self.tx_window[index].frame.tx_seq == tx_seq {
                return Some(index);
            }
            index = index + 1;
        }
        None
    }

    fn check_partial_length(&mut self) -> (result: Result<(), Error>)
        ensures
            final(self)@ == old(self)@.partial_checked().0,
            agrees(result, old(self)@.partial_checked().1),
    {
        match self.input_sdu_length {
            Some(length) => {
                if self.input_sdu.len() >= length {
                    self.reset_input();
                    return Err(
                        Error::new("ERTM segmented SDU reached its length before an end frame"),
                    );
                }
            },
            None => {},
        }
        Ok(())
    }

    fn deliver(&mut self, sdu: Vec<u8>)
        ensures
            final(self)@ == (ErtmEngineV { received: old(self)@.received.push(sdu@), ..old(self)@ }),
    {
        let ghost model = sdu@;
        self.received.push_back(sdu);
        assert(self@.received =~= old(self)@.received.push(model));
    }

    fn accept_information(&mut self, sar: SegmentationAndReassembly, payload: &[u8]) -> (result:
        Result<(), Error>)
        ensures
            final(self)@ == old(self)@.information_accepted(sar, payload@).0,
            agrees(result, old(self)@.information_accepted(sar, payload@).1),
    {
        match sar {
            SegmentationAndReassembly::Unsegmented => {
                if self.input_sdu.len() != 0 || self.input_sdu_length.is_some() {
                    self.reset_input();
                    return Err(Error::new("unsegmented frame interrupted an ERTM SDU"));
                }
                if payload.len() > self.config.local_mtu as usize {
                    return Err(Error::new("ERTM SDU exceeds local MTU"));
                }
                self.deliver(copy_bytes(payload));
                Ok(())
            },
            SegmentationAndReassembly::Start => {
                if payload.len() < 2 {
                    return Err(Error::new("ERTM start frame is missing SDU length"));
                }
                if self.input_sdu.len() != 0 || self.input_sdu_length.is_some() {
                    self.reset_input();
                    return Err(Error::new("ERTM start frame interrupted an SDU"));
                }
                let length: usize = read_le16(payload, 0) as usize;
                if length > self.config.local_mtu as usize {
                    return Err(Error::new("ERTM SDU exceeds local MTU"));
                }
                self.input_sdu_length = Some(length);
                self.input_sdu = copy_range(payload, 2, payload.len());
                assert(self@.input_sdu =~= payload@.skip(2));
                self.check_partial_length()
            },
            SegmentationAndReassembly::Continuation => {
                if self.input_sdu_length.is_none() {
                    return Err(Error::new("ERTM continuation without start"));
                }
                append_bytes(&mut self.input_sdu, payload);
                self.check_partial_length()
            },
            SegmentationAndReassembly::End => {
                match self.input_sdu_length {
                    None => Err(Error::new("ERTM end without start")),
                    Some(length) => {
                        append_bytes(&mut self.input_sdu, payload);
                        if self.input_sdu.len() != length {
                            self.reset_input();
                            assert(self@ == old(self)@.input_reset());
                            return Err(Error::new("ERTM SDU length mismatch"));
                        }
                        let sdu = copy_bytes(&self.input_sdu);
                        self.reset_input();
                        self.deliver(sdu);
                        Ok(())
                    },
                }
            },
        }
    }

    /// Hands over an SDU, which is split, numbered and sent as the window allows.
    pub fn send_sdu(&mut self, sdu: &[u8]) -> (result: Result<(), Error>)
        ensures
            final(self)@ == old(self)@.sdu_sent(sdu@).0,
            agrees(result, old(self)@.sdu_sent(sdu@).1),
    {
        match self.ensure_active() {
            Err(error) => {
                return Err(error);
            },
            Ok(()) => {},
        }
        if sdu.len() > self.config.peer_mtu as usize {
            return Err(
                Error::InvalidPacket(
                    with_decimal("SDU exceeds peer MTU ", self.config.peer_mtu as u64),
                ),
            );
        }
        let mps: usize = self.config.peer_mps as usize;
        if mps == 0 || sdu.len() <= mps {
            self.push_pending(copy_bytes(sdu), SegmentationAndReassembly::Unsegmented, None);
            assert(self@.pending =~= old(self)@.pending + segments(
                sdu@,
                mps as int,
                old(self)@.next_tx_seq,
            ));
        } else {
            self.queue_segments(sdu, mps);
        }
        self.process_output();
        Ok(())
    }

    #[verifier::spinoff_prover]
    fn queue_segments(&mut self, sdu: &[u8], mps: usize)
        requires
            0 < mps < sdu@.len() <= 65535,
        ensures
            ({
                let frames = segments(sdu@, mps as int, old(self)@.next_tx_seq);
                final(self)@ == (ErtmEngineV {
                    pending: old(self)@.pending + frames,
                    next_tx_seq: seq_add(old(self)@.next_tx_seq, frames.len() as int),
                    ..old(self)@
                })
            }),
    {
        let ghost start = self@;
        let ghost whole = segments(sdu@, mps as int, start.next_tx_seq);
        self.push_pending(
            copy_range(sdu, 0, mps),
            SegmentationAndReassembly::Start,
            Some(sdu.len() as u16),
        );
        let mut offset: usize = mps;
        let ghost mut made = self@.pending.skip(start.pending.len() as int);
        proof {
            assert(sdu@.subrange(0, mps as int) =~= sdu@.take(mps as int));
            assert(self@.pending =~= start.pending + made);
            assert(whole =~= made + later_segments(sdu@.skip(mps as int), mps as int, self@.next_tx_seq));
        }
        while offset < sdu.len()
            invariant
                0 < mps <= offset <= sdu@.len() <= 65535,
                made.len() > 0,
                self@ == (ErtmEngineV {
                    pending: start.pending + made,
                    next_tx_seq: seq_add(start.next_tx_seq, made.len() as int),
                    ..start
                }),
                offset < sdu@.len() ==> whole == made + later_segments(
                    sdu@.skip(offset as int),
                    mps as int,
                    self@.next_tx_seq,
                ),
                offset == sdu@.len() ==> whole == made,
            decreases sdu@.len() - offset,
        {
            let ghost rest = sdu@.skip(offset as int);
            let ghost before = self@;
            let last: bool = sdu.len() - offset <= mps;
            let end: usize = if last {
                sdu.len()
            } else {
                offset + mps
            };
            let sar = if last {
                SegmentationAndReassembly::End
            } else {
                SegmentationAndReassembly::Continuation
            };
            let payload = copy_range(sdu, offset, end);
            proof {
                assert(payload@ =~= rest.take(end - offset));
                assert(last ==> payload@ =~= rest);
                assert(rest.skip(end - offset) =~= sdu@.skip(end as int));
            }
            let ghost frame = PendingFrameV {
                payload: payload@,
                tx_seq: before.next_tx_seq,
                sar,
                sdu_length: None,
            };
            self.push_pending(payload, sar, None);
            proof {
                assert((start.pending + made).push(frame) =~= start.pending + made.push(frame));
                if !last {
                    assert(whole =~= made.push(frame) + later_segments(
                        sdu@.skip(end as int),
                        mps as int,
                        self@.next_tx_seq,
                    ));
                } else {
                    assert(whole =~= made.push(frame));
                }
                lemma_seq_add(start.next_tx_seq, made.len() as int, 1);
                made = made.push(frame);
            }
            offset = end;
        }
    }

    fn receive_information(
        &mut self,
        tx_seq: u8,
        final_bit: bool,
        sar: SegmentationAndReassembly,
        payload: &[u8],
    ) -> (result: Result<(), Error>)
        ensures
            final(self)@ == old(self)@.information_received(tx_seq, final_bit, sar, payload@).0,
            agrees(
                result,
                old(self)@.information_received(tx_seq, final_bit, sar, payload@).1,
            ),
    {
        if self.local_busy {
            self.send_supervisory(SupervisoryFunction::ReceiverNotReady, false, final_bit);
            return Ok(());
        }
        if tx_seq != self.expected_tx_seq {
            self.send_supervisory(SupervisoryFunction::Reject, false, final_bit);
            return Ok(());
        }
        self.expected_tx_seq = sequence_add(self.expected_tx_seq, 1);
        match self.accept_information(sar, payload) {
            Err(error) => {
                return Err(error);
            },
            Ok(()) => {},
        }
        self.process_output();
        if self.last_acked_rx_seq != self.expected_tx_seq {
            self.send_supervisory(SupervisoryFunction::ReceiverReady, false, final_bit);
        }
        Ok(())
    }

    fn receive_supervisory(
        &mut self,
        function: SupervisoryFunction,
        poll: bool,
        final_bit: bool,
        req_seq: u8,
        acked: bool,
    ) -> (result: Result<(), Error>)
        ensures
            final(self)@ == old(self)@.supervisory_received(
                function,
                poll,
                final_bit,
                req_seq,
                acked,
            ).0,
            agrees(
                result,
                old(self)@.supervisory_received(function, poll, final_bit, req_seq, acked).1,
            ),
    {
        self.remote_busy = function == SupervisoryFunction::ReceiverNotReady;
        let answered = match function {
            SupervisoryFunction::Reject => self.retransmit_all(),
            SupervisoryFunction::SelectiveReject => self.retransmit_one(req_seq),
            _ => {
                if final_bit && !acked && self.tx_window.len() != 0 {
                    self.retransmit_all()
                } else {
                    Ok(())
                }
            },
        };
        match answered {
            Err(error) => {
                return Err(error);
            },
            Ok(()) => {},
        }
        if poll {
            let readiness = if self.local_busy {
                SupervisoryFunction::ReceiverNotReady
            } else {
                SupervisoryFunction::ReceiverReady
            };
            self.send_supervisory(readiness, false, true);
        }
        self.process_output();
        Ok(())
    }

    /// Takes one frame from the peer.
    pub fn receive_frame(&mut self, frame: &[u8]) -> (result: Result<(), Error>)
        ensures
            final(self)@ == old(self)@.frame_received(frame@).0,
            agrees(result, old(self)@.frame_received(frame@).1),
    {
        reveal(ErtmEngineV::frame_received);
        match self.ensure_active() {
            Err(error) => {
                return Err(error);
            },
            Ok(()) => {},
        }
        let control = match EnhancedControlField::from_bytes(frame) {
            Err(error) => {
                return Err(error);
            },
            Ok(control) => control,
        };
        let acked = match self.acknowledge(control.req_seq()) {
            Err(error) => {
                return Err(error);
            },
            Ok(acked) => acked,
        };
        match control {
            EnhancedControlField::Information { tx_seq, final_bit, sar, .. } => {
                assert(frame@.subrange(2, frame@.len() as int) =~= frame@.skip(2));
                self.receive_information(
                    tx_seq,
                    final_bit,
                    sar,
                    slice_subrange(frame, 2, frame.len()),
                )
            },
            EnhancedControlField::Supervisory { function, poll, final_bit, req_seq } => {
                self.receive_supervisory(function, poll, final_bit, req_seq, acked)
            },
        }
    }

    /// Says whether the receiving side can take frames, and tells the peer of a change.
    pub fn set_receiver_busy(&mut self, busy: bool) -> (result: Result<(), Error>)
        ensures
            final(self)@ == old(self)@.busy_set(busy).0,
            agrees(result, old(self)@.busy_set(busy).1),
    {
        match self.ensure_active() {
            Err(error) => {
                return Err(error);
            },
            Ok(()) => {},
        }
        if self.local_busy != busy {
            self.local_busy = busy;
            let readiness = if busy {
                SupervisoryFunction::ReceiverNotReady
            } else {
                SupervisoryFunction::ReceiverReady
            };
            self.send_supervisory(readiness, false, false);
        }
        Ok(())
    }

    /// Lets `ticks` go by; unacknowledged frames are repeated once the timeout is over.
    pub fn tick(&mut self, ticks: u32) -> (result: Result<(), Error>)
        ensures
            final(self)@ == old(self)@.ticked(ticks).0,
            agrees(result, old(self)@.ticked(ticks).1),
    {
        match self.ensure_active() {
            Err(error) => {
                return Err(error);
            },
            Ok(()) => {},
        }
        self.now = self.now.saturating_add(ticks as u64);
        let due = match self.retransmission_deadline {
            Some(deadline) => self.now >= deadline,
            None => false,
        };
        if due && self.tx_window.len() != 0 {
            return self.retransmit_all();
        }
        Ok(())
    }

    /// Takes the next frame to send.
    pub fn poll_outbound(&mut self) -> (frame: Option<Vec<u8>>)
        ensures
            optional_bytes(frame) == first_of(old(self)@.outbound),
            final(self)@ == (ErtmEngineV {
                outbound: rest_of(old(self)@.outbound),
                ..old(self)@
            }),
    {
        let frame = self.outbound.pop_front();
        assert(self@.outbound =~= rest_of(old(self)@.outbound));
        frame
    }

    /// Takes all frames to send, in order.
    pub fn drain_outbound(&mut self) -> (frames: Vec<Vec<u8>>)
        ensures
            buffers(frames@) == old(self)@.outbound,
            final(self)@ == (ErtmEngineV { outbound: seq![], ..old(self)@ }),
    {
        let ghost start = self@;
        let mut frames: Vec<Vec<u8>> = Vec::new();
        assert(start.outbound =~= buffers(frames@) + self@.outbound);
        while self.outbound.len() > 0
            invariant
                start.outbound == buffers(frames@) + self@.outbound,
                self@ == (ErtmEngineV { outbound: self@.outbound, ..start }),
            decreases self.outbound@.len(),
        {
            let ghost before = self.outbound@;
            let ghost taken = frames@;
            match self.outbound.pop_front() {
                None => {},
                Some(frame) => {
                    frames.push(frame);
                    assert(buffers(frames@) =~= buffers(taken).push(before[0]@));
                    assert(buffers(self.outbound@) =~= buffers(before).skip(1));
                    assert(start.outbound =~= buffers(frames@) + buffers(self.outbound@));
                },
            }
        }
        assert(self@.outbound =~= seq![]);
        assert(start.outbound =~= buffers(frames@));
        frames
    }

    /// Takes the next delivered SDU.
    pub fn pop_received(&mut self) -> (sdu: Option<Vec<u8>>)
        ensures
            optional_bytes(sdu) == first_of(old(self)@.received),
            final(self)@ == (ErtmEngineV {
                received: rest_of(old(self)@.received),
                ..old(self)@
            }),
    {
        let sdu = self.received.pop_front();
        assert(self@.received =~= rest_of(old(self)@.received));
        sdu
    }

    /// Takes all delivered SDUs, in order.
    pub fn drain_received(&mut self) -> (sdus: VecDeque<Vec<u8>>)
        ensures
            buffers(sdus@) == old(self)@.received,
            final(self)@ == (ErtmEngineV { received: seq![], ..old(self)@ }),
    {
        let mut sdus: VecDeque<Vec<u8>> = VecDeque::new();
        sdus.append(&mut self.received);
        assert(buffers(sdus@) =~= old(self)@.received);
        assert(self@.received =~= seq![]);
        sdus
    }

    /// How many frames wait or are unacknowledged.
    pub fn pending_frames(&self) -> (count: usize)
        ensures
            count == self@.frames_outstanding(),
    {
        assert(self@.pending.len() == self.pending@.len());
        assert(self@.tx_window.len() == self.tx_window@.len());
        self.pending.len().saturating_add(self.tx_window.len())
    }

    pub fn unacked_frames(&self) -> (count: usize)
        ensures
            count == self@.tx_window.len(),
    {
        self.tx_window.len()
    }

    pub fn remote_is_busy(&self) -> (busy: bool)
        ensures
            busy == self@.remote_busy,
    {
        self.remote_busy
    }

    pub fn is_failed(&self) -> (failed: bool)
        ensures
            failed == self@.failed,
    {
        self.failed
    }
}

} // verus!
