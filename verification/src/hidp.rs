//! Human interface device messages and what each end makes of them.

use vstd::prelude::*;
use vstd::slice::slice_subrange;

use crate::bytes::{append_bytes, copy_range, le16, le16_at, push_le16, read_le16, same_outcome};

verus! {

pub const HID_CONTROL_PSM: u16 = 0x0011;

pub const HID_INTERRUPT_PSM: u16 = 0x0013;

/// The kind of a report.
#[derive(Clone, Copy, Debug, PartialEq, Eq, PartialOrd, Ord, Hash, Structural)]
pub struct ReportType(pub u8);

impl ReportType {
    pub const OTHER_REPORT: u8 = 0x00;

    pub const INPUT_REPORT: u8 = 0x01;

    pub const OUTPUT_REPORT: u8 = 0x02;

    pub const FEATURE_REPORT: u8 = 0x03;
}

/// How a request on the control channel went.
#[derive(Clone, Copy, Debug, PartialEq, Eq, PartialOrd, Ord, Hash, Structural)]
pub struct Handshake(pub u8);

impl Handshake {
    pub const SUCCESSFUL: u8 = 0x00;

    pub const NOT_READY: u8 = 0x01;

    pub const ERR_INVALID_REPORT_ID: u8 = 0x02;

    pub const ERR_UNSUPPORTED_REQUEST: u8 = 0x03;

    pub const ERR_INVALID_PARAMETER: u8 = 0x04;

    pub const ERR_UNKNOWN: u8 = 0x0E;

    pub const ERR_FATAL: u8 = 0x0F;
}

/// The upper four bits of a message's first byte.
#[derive(Clone, Copy, Debug, PartialEq, Eq, PartialOrd, Ord, Hash, Structural)]
pub struct MessageType(pub u8);

impl MessageType {
    pub const HANDSHAKE: u8 = 0x00;

    pub const CONTROL: u8 = 0x01;

    pub const GET_REPORT: u8 = 0x04;

    pub const SET_REPORT: u8 = 0x05;

    pub const GET_PROTOCOL: u8 = 0x06;

    pub const SET_PROTOCOL: u8 = 0x07;

    pub const DATA: u8 = 0x0A;
}

/// Which reports a device sends.
#[derive(Clone, Copy, Debug, PartialEq, Eq, PartialOrd, Ord, Hash, Structural)]
pub struct ProtocolMode(pub u8);

impl ProtocolMode {
    pub const BOOT_PROTOCOL: u8 = 0x00;

    pub const REPORT_PROTOCOL: u8 = 0x01;
}

impl Default for ProtocolMode {
    fn default() -> (mode: Self)
        ensures
            mode == ProtocolMode(ProtocolMode::BOOT_PROTOCOL),
    {
        ProtocolMode(ProtocolMode::BOOT_PROTOCOL)
    }
}

/// A command on the control channel.
#[derive(Clone, Copy, Debug, PartialEq, Eq, PartialOrd, Ord, Hash, Structural)]
pub struct ControlCommand(pub u8);

impl ControlCommand {
    pub const SUSPEND: u8 = 0x03;

    pub const EXIT_SUSPEND: u8 = 0x04;

    pub const VIRTUAL_CABLE_UNPLUG: u8 = 0x05;
}

/// How a device's delegate answered.
#[derive(Clone, Copy, Debug, PartialEq, Eq, PartialOrd, Ord, Hash, Structural)]
pub struct GetSetReturn(pub u8);

impl GetSetReturn {
    pub const FAILURE: u8 = 0x00;

    pub const REPORT_ID_NOT_FOUND: u8 = 0x01;

    pub const ERR_UNSUPPORTED_REQUEST: u8 = 0x02;

    pub const ERR_UNKNOWN: u8 = 0x03;

    pub const ERR_INVALID_PARAMETER: u8 = 0x04;

    pub const SUCCESS: u8 = 0xFF;
}

/// A message that cannot be read or written.
#[derive(Clone, Copy, Debug, PartialEq, Eq)]
pub enum Error {
    Truncated(&'static str),
    Invalid(&'static str),
    TrailingBytes(usize),
}

/// The contents of a message.
#[allow(inconsistent_fields)]
pub enum MessageV {
    Handshake(Handshake),
    Control(ControlCommand),
    GetReport { report_type: ReportType, report_id: u8, buffer_size: Option<u16> },
    SetReport { report_type: ReportType, data: Seq<u8> },
    GetProtocol,
    SetProtocol(ProtocolMode),
    Data { report_type: ReportType, data: Seq<u8> },
    Unknown { message_type: MessageType, parameter: u8, data: Seq<u8> },
}

/// A message on the control or interrupt channel.
#[derive(Clone, Debug, PartialEq, Eq)]
pub enum Message {
    Handshake(Handshake),
    Control(ControlCommand),
    GetReport { report_type: ReportType, report_id: u8, buffer_size: Option<u16> },
    SetReport { report_type: ReportType, data: Vec<u8> },
    GetProtocol,
    SetProtocol(ProtocolMode),
    Data { report_type: ReportType, data: Vec<u8> },
    Unknown { message_type: MessageType, parameter: u8, data: Vec<u8> },
}

impl View for Message {
    type V = MessageV;

    open spec fn view(&self) -> MessageV {
        match *self {
            Message::Handshake(result) => MessageV::Handshake(result),
            Message::Control(command) => MessageV::Control(command),
            Message::GetReport { report_type, report_id, buffer_size } => MessageV::GetReport {
                report_type,
                report_id,
                buffer_size,
            },
            Message::SetReport { report_type, data } => MessageV::SetReport {
                report_type,
                data: data@,
            },
            Message::GetProtocol => MessageV::GetProtocol,
            Message::SetProtocol(mode) => MessageV::SetProtocol(mode),
            Message::Data { report_type, data } => MessageV::Data { report_type, data: data@ },
            Message::Unknown { message_type, parameter, data } => MessageV::Unknown {
                message_type,
                parameter,
                data: data@,
            },
        }
    }
}

/// Whether a message type has a typed message.
pub open spec fn typed(message_type: u8) -> bool {
    message_type <= 1 || 4 <= message_type <= 7 || message_type == 0x0A
}

impl MessageV {
    pub open spec fn message_type(self) -> u8 {
        match self {
            MessageV::Handshake(_) => MessageType::HANDSHAKE,
            MessageV::Control(_) => MessageType::CONTROL,
            MessageV::GetReport { .. } => MessageType::GET_REPORT,
            MessageV::SetReport { .. } => MessageType::SET_REPORT,
            MessageV::GetProtocol => MessageType::GET_PROTOCOL,
            MessageV::SetProtocol(_) => MessageType::SET_PROTOCOL,
            MessageV::Data { .. } => MessageType::DATA,
            MessageV::Unknown { message_type, .. } => message_type.0,
        }
    }

    /// The lower four bits of the first byte.
    pub open spec fn parameter(self) -> u8 {
        match self {
            MessageV::Handshake(result) => result.0,
            MessageV::Control(command) => command.0,
            MessageV::GetReport { report_type, buffer_size, .. } => if buffer_size is Some {
                0x08 | report_type.0
            } else {
                report_type.0
            },
            MessageV::SetReport { report_type, .. } => report_type.0,
            MessageV::GetProtocol => 0,
            MessageV::SetProtocol(mode) => mode.0,
            MessageV::Data { report_type, .. } => report_type.0,
            MessageV::Unknown { parameter, .. } => parameter,
        }
    }

    /// The bytes after the first.
    pub open spec fn payload(self) -> Seq<u8> {
        match self {
            MessageV::GetReport { report_id, buffer_size, .. } => match buffer_size {
                Some(size) => seq![report_id] + le16(size),
                None => seq![report_id],
            },
            MessageV::SetReport { data, .. } => data,
            MessageV::Data { data, .. } => data,
            MessageV::Unknown { data, .. } => data,
            _ => seq![],
        }
    }

    pub open spec fn encode(self) -> Result<Seq<u8>, Error> {
        if self.message_type() > 0x0F || self.parameter() > 0x0F {
            Err(Error::Invalid("HIDP header field"))
        } else {
            Ok(seq![(16 * self.message_type() + self.parameter()) as u8] + self.payload())
        }
    }

    /// The message with this type, parameter and payload.
    pub open spec fn from_parts(message_type: u8, parameter: u8, data: Seq<u8>) -> Result<
        MessageV,
        Error,
    > {
        let report_type = ReportType((parameter % 4) as u8);
        let must_be_empty = message_type == MessageType::HANDSHAKE || message_type
            == MessageType::CONTROL || message_type == MessageType::GET_PROTOCOL || message_type
            == MessageType::SET_PROTOCOL;
        if must_be_empty && data.len() > 0 {
            Err(Error::TrailingBytes(data.len() as usize))
        } else if message_type == MessageType::HANDSHAKE {
            Ok(MessageV::Handshake(Handshake(parameter)))
        } else if message_type == MessageType::CONTROL {
            Ok(MessageV::Control(ControlCommand(parameter)))
        } else if message_type == MessageType::GET_REPORT {
            if data.len() == 0 {
                Err(Error::Truncated("HIDP report ID"))
            } else if parameter >= 8 && data.len() < 3 {
                Err(Error::Truncated("HIDP report buffer size"))
            } else if parameter >= 8 && data.len() > 3 {
                Err(Error::TrailingBytes((data.len() - 3) as usize))
            } else if parameter < 8 && data.len() > 1 {
                Err(Error::TrailingBytes((data.len() - 1) as usize))
            } else {
                Ok(
                    MessageV::GetReport {
                        report_type,
                        report_id: data[0],
                        buffer_size: if parameter >= 8 {
                            Some(le16_at(data, 1))
                        } else {
                            None
                        },
                    },
                )
            }
        } else if message_type == MessageType::SET_REPORT {
            Ok(MessageV::SetReport { report_type, data })
        } else if message_type == MessageType::GET_PROTOCOL {
            Ok(MessageV::GetProtocol)
        } else if message_type == MessageType::SET_PROTOCOL {
            Ok(MessageV::SetProtocol(ProtocolMode((parameter % 2) as u8)))
        } else if message_type == MessageType::DATA {
            Ok(MessageV::Data { report_type, data })
        } else {
            Ok(MessageV::Unknown { message_type: MessageType(message_type), parameter, data })
        }
    }

    pub open spec fn decode(bytes: Seq<u8>) -> Result<MessageV, Error> {
        if bytes.len() == 0 {
            Err(Error::Truncated("HIDP header"))
        } else {
            MessageV::from_parts((bytes[0] / 16) as u8, (bytes[0] % 16) as u8, bytes.skip(1))
        }
    }

    /// A message that its bytes determine: every field fits its bits, and an
    /// unknown message has none of the typed ones' types.
    pub open spec fn valid(self) -> bool {
        match self {
            MessageV::Handshake(result) => result.0 <= 0x0F,
            MessageV::Control(command) => command.0 <= 0x0F,
            MessageV::GetReport { report_type, .. } => report_type.0 <= 3,
            MessageV::SetReport { report_type, .. } => report_type.0 <= 3,
            MessageV::GetProtocol => true,
            MessageV::SetProtocol(mode) => mode.0 <= 1,
            MessageV::Data { report_type, .. } => report_type.0 <= 3,
            MessageV::Unknown { message_type, parameter, .. } => message_type.0 <= 0x0F && !typed(
                message_type.0,
            ) && parameter <= 0x0F,
        }
    }
}

/// Every valid message is read back from its own bytes.
pub proof fn message_reads_back(message: MessageV)
    requires
        message.valid(),
    ensures
        message.encode() is Ok,
        MessageV::decode(message.encode()->Ok_0) == Ok::<MessageV, Error>(message),
{
    if let MessageV::GetReport { report_type, .. } = message {
        let kind = report_type.0;
        assert(0x08u8 | kind == 8 + kind) by (bit_vector)
            requires
                kind <= 3,
        ;
    }
    let bytes = message.encode()->Ok_0;
    assert(bytes.skip(1) =~= message.payload());
}

/// A message that is read is valid.
pub proof fn message_read_is_valid(bytes: Seq<u8>)
    requires
        MessageV::decode(bytes) is Ok,
    ensures
        MessageV::decode(bytes)->Ok_0.valid(),
{
}

impl Message {
    pub fn message_type(&self) -> (message_type: MessageType)
        ensures
            message_type.0 == self@.message_type(),
    {
        MessageType(
            match self {
                Message::Handshake(_) => MessageType::HANDSHAKE,
                Message::Control(_) => MessageType::CONTROL,
                Message::GetReport { .. } => MessageType::GET_REPORT,
                Message::SetReport { .. } => MessageType::SET_REPORT,
                Message::GetProtocol => MessageType::GET_PROTOCOL,
                Message::SetProtocol(_) => MessageType::SET_PROTOCOL,
                Message::Data { .. } => MessageType::DATA,
                Message::Unknown { message_type, .. } => message_type.0,
            },
        )
    }

    /// The bytes of the message, if every field fits its bits.
    pub fn to_bytes(&self) -> (result: Result<Vec<u8>, Error>)
        ensures
            same_outcome(result, self@.encode()),
    {
        let message_type: u8 = self.message_type().0;
        let parameter: u8 = match self {
            Message::Handshake(result) => result.0,
            Message::Control(command) => command.0,
            Message::GetReport { report_type, buffer_size, .. } => {
                if buffer_size.is_some() {
                    0x08 | report_type.0
                } else {
                    report_type.0
                }
            },
            Message::SetReport { report_type, .. } => report_type.0,
            Message::GetProtocol => 0,
            Message::SetProtocol(mode) => mode.0,
            Message::Data { report_type, .. } => report_type.0,
            Message::Unknown { parameter, .. } => *parameter,
        };
        if message_type > 0x0F || parameter > 0x0F {
            return Err(Error::Invalid("HIDP header field"));
        }
        let mut bytes: Vec<u8> = Vec::new();
        bytes.push(16 * message_type + parameter);
        match self {
            Message::GetReport { report_id, buffer_size, .. } => {
                bytes.push(*report_id);
                match buffer_size {
                    Some(size) => {
                        push_le16(&mut bytes, *size);
                    },
                    None => {},
                }
            },
            Message::SetReport { data, .. } => {
                append_bytes(&mut bytes, data);
            },
            Message::Data { data, .. } => {
                append_bytes(&mut bytes, data);
            },
            Message::Unknown { data, .. } => {
                append_bytes(&mut bytes, data);
            },
            _ => {},
        }
        assert(bytes@ =~= self@.encode()->Ok_0);
        Ok(bytes)
    }

    /// Reads a message.
    pub fn from_bytes(bytes: &[u8]) -> (result: Result<Self, Error>)
        ensures
            same_outcome(result, MessageV::decode(bytes@)),
    {
        if bytes.len() == 0 {
            return Err(Error::Truncated("HIDP header"));
        }
        let message_type: u8 = bytes[0] / 16;
        let parameter: u8 = bytes[0] % 16;
        let data = copy_range(bytes, 1, bytes.len());
        assert(data@ =~= bytes@.skip(1));
        let report_type = ReportType(parameter % 4);
        let must_be_empty = message_type == MessageType::HANDSHAKE || message_type
            == MessageType::CONTROL || message_type == MessageType::GET_PROTOCOL || message_type
            == MessageType::SET_PROTOCOL;
        if must_be_empty && data.len() > 0 {
            return Err(Error::TrailingBytes(data.len()));
        }
        if message_type == MessageType::HANDSHAKE {
            Ok(Message::Handshake(Handshake(parameter)))
        } else if message_type == MessageType::CONTROL {
            Ok(Message::Control(ControlCommand(parameter)))
        } else if message_type == MessageType::GET_REPORT {
            if data.len() == 0 {
                return Err(Error::Truncated("HIDP report ID"));
            }
            let buffer_size = if parameter >= 8 {
                if data.len() < 3 {
                    return Err(Error::Truncated("HIDP report buffer size"));
                }
                if data.len() > 3 {
                    return Err(Error::TrailingBytes(data.len() - 3));
                }
                Some(read_le16(&data, 1))
            } else {
                if data.len() > 1 {
                    return Err(Error::TrailingBytes(data.len() - 1));
                }
                None
            };
            Ok(Message::GetReport { report_type, report_id: data[0], buffer_size })
        } else if message_type == MessageType::SET_REPORT {
            Ok(Message::SetReport { report_type, data })
        } else if message_type == MessageType::GET_PROTOCOL {
            Ok(Message::GetProtocol)
        } else if message_type == MessageType::SET_PROTOCOL {
            Ok(Message::SetProtocol(ProtocolMode(parameter % 2)))
        } else if message_type == MessageType::DATA {
            Ok(Message::Data { report_type, data })
        } else {
            Ok(Message::Unknown { message_type: MessageType(message_type), parameter, data })
        }
    }
}

/// What a device's delegate answered.
pub struct GetSetStatusV {
    pub data: Seq<u8>,
    pub status: GetSetReturn,
}

/// What a device's delegate answers.
#[derive(Clone, Debug, PartialEq, Eq)]
pub struct GetSetStatus {
    pub data: Vec<u8>,
    pub status: GetSetReturn,
}

impl View for GetSetStatus {
    type V = GetSetStatusV;

    open spec fn view(&self) -> GetSetStatusV {
        GetSetStatusV { data: self.data@, status: self.status }
    }
}

impl GetSetStatus {
    pub fn success(data: Vec<u8>) -> (status: Self)
        ensures
            status@ == (GetSetStatusV { data: data@, status: GetSetReturn(GetSetReturn::SUCCESS) }),
    {
        GetSetStatus { data, status: GetSetReturn(GetSetReturn::SUCCESS) }
    }

    pub fn unsupported() -> (status: Self)
        ensures
            status@ == (GetSetStatusV {
                data: seq![],
                status: GetSetReturn(GetSetReturn::ERR_UNSUPPORTED_REQUEST),
            }),
    {
        let status = GetSetStatus {
            data: Vec::new(),
            status: GetSetReturn(GetSetReturn::ERR_UNSUPPORTED_REQUEST),
        };
        assert(status@.data =~= seq![]);
        status
    }
}

/// The answer to a request that a device does not support.
pub open spec fn unsupported_answer() -> GetSetStatusV {
    GetSetStatusV {
        data: seq![],
        status: GetSetReturn(GetSetReturn::ERR_UNSUPPORTED_REQUEST),
    }
}

/// What a device is asked for on the control channel.
pub enum RequestV {
    GetReport { report_id: u8, report_type: ReportType, buffer_size: Option<u16> },
    SetReport { report_id: u8, report_type: ReportType, report_size: usize, data: Seq<u8> },
    GetProtocol,
    SetProtocol(ProtocolMode),
}

/// What a device does with requests on the control channel. A request that is
/// not overridden is unsupported.
pub trait DeviceDelegate {
    /// Whether the device may give this answer to a request. It may always call
    /// a request unsupported.
    open spec fn may_answer(&self, request: RequestV, answer: GetSetStatusV) -> bool {
        true
    }

    fn get_report(
        &mut self,
        _report_id: u8,
        _report_type: ReportType,
        _buffer_size: Option<u16>,
    ) -> (answer: GetSetStatus)
        ensures
            answer@ == unsupported_answer() || old(self).may_answer(
                (RequestV::GetReport {
                    report_id: _report_id,
                    report_type: _report_type,
                    buffer_size: _buffer_size,
                }),
                answer@,
            ),
    {
        GetSetStatus::unsupported()
    }

    fn set_report(
        &mut self,
        _report_id: u8,
        _report_type: ReportType,
        _report_size: usize,
        _data: &[u8],
    ) -> (answer: GetSetStatus)
        ensures
            answer@ == unsupported_answer() || old(self).may_answer(
                (RequestV::SetReport {
                    report_id: _report_id,
                    report_type: _report_type,
                    report_size: _report_size,
                    data: _data@,
                }),
                answer@,
            ),
    {
        GetSetStatus::unsupported()
    }

    fn get_protocol(&mut self) -> (answer: GetSetStatus)
        ensures
            answer@ == unsupported_answer() || old(self).may_answer(
                RequestV::GetProtocol,
                answer@,
            ),
    {
        GetSetStatus::unsupported()
    }

    fn set_protocol(&mut self, _mode: ProtocolMode) -> (answer: GetSetStatus)
        ensures
            answer@ == unsupported_answer() || old(self).may_answer(
                RequestV::SetProtocol(_mode),
                answer@,
            ),
    {
        GetSetStatus::unsupported()
    }
}

/// A device that supports no request.
#[derive(Clone, Copy, Debug)]
pub struct UnsupportedDelegate;

impl DeviceDelegate for UnsupportedDelegate {
    open spec fn may_answer(&self, request: RequestV, answer: GetSetStatusV) -> bool {
        false
    }
}

/// What a device is to do.
#[allow(inconsistent_fields)]
pub enum DeviceEventV {
    SendControl(MessageV),
    ControlData { report_type: ReportType, data: Seq<u8> },
    InterruptData { report_type: ReportType, data: Seq<u8> },
    Suspend,
    ExitSuspend,
    VirtualCableUnplug,
    Unsupported(MessageV),
}

/// What a device is to do with a message.
#[derive(Clone, Debug, PartialEq, Eq)]
pub enum DeviceEvent {
    SendControl(Message),
    ControlData { report_type: ReportType, data: Vec<u8> },
    InterruptData { report_type: ReportType, data: Vec<u8> },
    Suspend,
    ExitSuspend,
    VirtualCableUnplug,
    Unsupported(Message),
}

impl View for DeviceEvent {
    type V = DeviceEventV;

    open spec fn view(&self) -> DeviceEventV {
        match *self {
            DeviceEvent::SendControl(message) => DeviceEventV::SendControl(message@),
            DeviceEvent::ControlData { report_type, data } => DeviceEventV::ControlData {
                report_type,
                data: data@,
            },
            DeviceEvent::InterruptData { report_type, data } => DeviceEventV::InterruptData {
                report_type,
                data: data@,
            },
            DeviceEvent::Suspend => DeviceEventV::Suspend,
            DeviceEvent::ExitSuspend => DeviceEventV::ExitSuspend,
            DeviceEvent::VirtualCableUnplug => DeviceEventV::VirtualCableUnplug,
            DeviceEvent::Unsupported(message) => DeviceEventV::Unsupported(message@),
        }
    }
}

/// The contents of a list of events.
pub open spec fn event_views(events: Seq<DeviceEvent>) -> Seq<DeviceEventV> {
    events.map_values(|event: DeviceEvent| event@)
}

pub open spec fn handshake(code: u8) -> MessageV {
    MessageV::Handshake(Handshake(code))
}

/// The response to a request for a report, for each answer of the delegate. A
/// report that does not fit the peer's MTU is refused.
pub open spec fn report_response(
    report_type: ReportType,
    report_id: u8,
    answer: GetSetStatusV,
    mtu: int,
) -> MessageV {
    let status = answer.status.0;
    if status == GetSetReturn::SUCCESS {
        if 1 + answer.data.len() < mtu {
            MessageV::Data { report_type, data: seq![report_id] + answer.data }
        } else {
            handshake(Handshake::ERR_INVALID_PARAMETER)
        }
    } else if status == GetSetReturn::REPORT_ID_NOT_FOUND {
        handshake(Handshake::ERR_INVALID_REPORT_ID)
    } else if status == GetSetReturn::ERR_INVALID_PARAMETER {
        handshake(Handshake::ERR_INVALID_PARAMETER)
    } else if status == GetSetReturn::ERR_UNSUPPORTED_REQUEST {
        handshake(Handshake::ERR_UNSUPPORTED_REQUEST)
    } else {
        handshake(Handshake::ERR_UNKNOWN)
    }
}

/// The response to a report that the host set, for each answer of the delegate.
pub open spec fn set_report_response(answer: GetSetStatusV) -> MessageV {
    let status = answer.status.0;
    if status == GetSetReturn::SUCCESS {
        handshake(Handshake::SUCCESSFUL)
    } else if status == GetSetReturn::ERR_INVALID_PARAMETER {
        handshake(Handshake::ERR_INVALID_PARAMETER)
    } else if status == GetSetReturn::REPORT_ID_NOT_FOUND {
        handshake(Handshake::ERR_INVALID_REPORT_ID)
    } else {
        handshake(Handshake::ERR_UNSUPPORTED_REQUEST)
    }
}

/// The response to a request for the protocol, for each answer of the delegate.
pub open spec fn protocol_response(answer: GetSetStatusV) -> MessageV {
    if answer.status.0 == GetSetReturn::SUCCESS {
        MessageV::Data { report_type: ReportType(ReportType::OTHER_REPORT), data: answer.data }
    } else {
        handshake(Handshake::ERR_UNSUPPORTED_REQUEST)
    }
}

/// The response to a protocol that the host set, for each answer of the delegate.
pub open spec fn set_protocol_response(answer: GetSetStatusV) -> MessageV {
    handshake(
        if answer.status.0 == GetSetReturn::SUCCESS {
            Handshake::SUCCESSFUL
        } else {
            Handshake::ERR_UNSUPPORTED_REQUEST
        },
    )
}

/// What the delegate is asked on account of a message. The identifier of a
/// report that is set stands in front of it, and counts towards its size.
pub open spec fn request_of(message: MessageV) -> Option<RequestV> {
    match message {
        MessageV::GetReport { report_type, report_id, buffer_size } => Some(
            RequestV::GetReport { report_id, report_type, buffer_size },
        ),
        MessageV::SetReport { report_type, data } => Some(
            RequestV::SetReport {
                report_id: data[0],
                report_type,
                report_size: data.len() as usize,
                data: data.skip(1),
            },
        ),
        MessageV::GetProtocol => Some(RequestV::GetProtocol),
        MessageV::SetProtocol(mode) => Some(RequestV::SetProtocol(mode)),
        _ => None,
    }
}

/// Whether a delegate gives this answer when it is asked what a message asks for.
pub open spec fn answers<D: DeviceDelegate>(
    asked: &mut D,
    message: MessageV,
    answer: GetSetStatus,
) -> bool {
    match message {
        MessageV::GetReport { report_type, report_id, buffer_size } => call_ensures(
            D::get_report,
            (asked, report_id, report_type, buffer_size),
            answer,
        ),
        MessageV::SetReport { report_type, data } => exists|report: &[u8]|
            report@ == data.skip(1) && #[trigger] call_ensures(
                D::set_report,
                (asked, data[0], report_type, data.len() as usize, report),
                answer,
            ),
        MessageV::GetProtocol => call_ensures(D::get_protocol, (asked,), answer),
        MessageV::SetProtocol(mode) => call_ensures(D::set_protocol, (asked, mode), answer),
        _ => false,
    }
}

/// What a device is to do with a message on the control channel, for each answer
/// of the delegate where it is asked.
pub open spec fn control_events(message: MessageV, answer: GetSetStatusV, mtu: int) -> Seq<
    DeviceEventV,
> {
    match message {
        MessageV::GetReport { report_type, report_id, .. } => seq![
            DeviceEventV::SendControl(report_response(report_type, report_id, answer, mtu)),
        ],
        MessageV::SetReport { .. } => seq![DeviceEventV::SendControl(set_report_response(answer))],
        MessageV::GetProtocol => seq![DeviceEventV::SendControl(protocol_response(answer))],
        MessageV::SetProtocol(_) => seq![DeviceEventV::SendControl(set_protocol_response(answer))],
        MessageV::Data { report_type, data } => seq![
            DeviceEventV::ControlData { report_type, data },
        ],
        MessageV::Control(command) => if command.0 == ControlCommand::SUSPEND {
            seq![DeviceEventV::Suspend]
        } else if command.0 == ControlCommand::EXIT_SUSPEND {
            seq![DeviceEventV::ExitSuspend]
        } else if command.0 == ControlCommand::VIRTUAL_CABLE_UNPLUG {
            seq![DeviceEventV::VirtualCableUnplug]
        } else {
            seq![DeviceEventV::Unsupported(message)]
        },
        _ => seq![
            DeviceEventV::Unsupported(message),
            DeviceEventV::SendControl(handshake(Handshake::ERR_UNSUPPORTED_REQUEST)),
        ],
    }
}

/// The error for a message on the control channel, if it has one.
pub open spec fn control_fault(message: MessageV) -> Option<Error> {
    match message {
        MessageV::SetReport { data, .. } => if data.len() == 0 {
            Some(Error::Truncated("HIDP set-report ID"))
        } else {
            None
        },
        _ => None,
    }
}

/// Builds the response to a request for a report from the delegate's answer.
pub fn respond_to_get_report(
    report_type: ReportType,
    report_id: u8,
    answer: GetSetStatus,
    control_peer_mtu: usize,
) -> (response: Message)
    ensures
        response@ == report_response(report_type, report_id, answer@, control_peer_mtu as int),
{
    let status: u8 = answer.status.0;
    if status == GetSetReturn::SUCCESS {
        let mut data: Vec<u8> = Vec::new();
        data.push(report_id);
        append_bytes(&mut data, &answer.data);
        assert(data@ =~= seq![report_id] + answer.data@);
        if data.len() < control_peer_mtu {
            Message::Data { report_type, data }
        } else {
            Message::Handshake(Handshake(Handshake::ERR_INVALID_PARAMETER))
        }
    } else if status == GetSetReturn::REPORT_ID_NOT_FOUND {
        Message::Handshake(Handshake(Handshake::ERR_INVALID_REPORT_ID))
    } else if status == GetSetReturn::ERR_INVALID_PARAMETER {
        Message::Handshake(Handshake(Handshake::ERR_INVALID_PARAMETER))
    } else if status == GetSetReturn::ERR_UNSUPPORTED_REQUEST {
        Message::Handshake(Handshake(Handshake::ERR_UNSUPPORTED_REQUEST))
    } else {
        Message::Handshake(Handshake(Handshake::ERR_UNKNOWN))
    }
}

/// Builds the response to a report that the host set from the delegate's answer.
pub fn respond_to_set_report(answer: GetSetStatus) -> (response: Message)
    ensures
        response@ == set_report_response(answer@),
{
    let status: u8 = answer.status.0;
    Message::Handshake(
        Handshake(
            if status == GetSetReturn::SUCCESS {
                Handshake::SUCCESSFUL
            } else if status == GetSetReturn::ERR_INVALID_PARAMETER {
                Handshake::ERR_INVALID_PARAMETER
            } else if status == GetSetReturn::REPORT_ID_NOT_FOUND {
                Handshake::ERR_INVALID_REPORT_ID
            } else {
                Handshake::ERR_UNSUPPORTED_REQUEST
            },
        ),
    )
}

/// Builds the response to a request for the protocol from the delegate's answer.
pub fn respond_to_get_protocol(answer: GetSetStatus) -> (response: Message)
    ensures
        response@ == protocol_response(answer@),
{
    if answer.status.0 == GetSetReturn::SUCCESS {
        Message::Data { report_type: ReportType(ReportType::OTHER_REPORT), data: answer.data }
    } else {
        Message::Handshake(Handshake(Handshake::ERR_UNSUPPORTED_REQUEST))
    }
}

/// Builds the response to a protocol that the host set from the delegate's answer.
pub fn respond_to_set_protocol(answer: GetSetStatus) -> (response: Message)
    ensures
        response@ == set_protocol_response(answer@),
{
    Message::Handshake(
        Handshake(
            if answer.status.0 == GetSetReturn::SUCCESS {
                Handshake::SUCCESSFUL
            } else {
                Handshake::ERR_UNSUPPORTED_REQUEST
            },
        ),
    )
}

/// The device's end of the control and interrupt channels.
pub struct DeviceRuntime<D> {
    delegate: D,
    control_peer_mtu: usize,
}

fn single_event(event: DeviceEvent) -> (events: Vec<DeviceEvent>)
    ensures
        event_views(events@) == seq![event@],
{
    let mut events: Vec<DeviceEvent> = Vec::new();
    let ghost model = event@;
    events.push(event);
    assert(event_views(events@) =~= seq![model]);
    events
}

fn ask_for_report<D: DeviceDelegate>(
    delegate: &mut D,
    report_id: u8,
    report_type: ReportType,
    buffer_size: Option<u16>,
) -> (answer: GetSetStatus)
    ensures
        exists|asked: &mut D|
            *asked == *old(delegate) && *final(asked) == *final(delegate) && #[trigger] answers(
                asked,
                (MessageV::GetReport { report_type, report_id, buffer_size }),
                answer,
            ),
        answer@ == unsupported_answer() || old(delegate).may_answer(
            (RequestV::GetReport { report_id, report_type, buffer_size }),
            answer@,
        ),
{
    let ghost before = *delegate;
    let answer = delegate.get_report(report_id, report_type, buffer_size);
    proof {
        let asked = choose|asked: &mut D|
            *asked == before && *final(asked) == *delegate && #[trigger] call_ensures(
                D::get_report,
                (asked, report_id, report_type, buffer_size),
                answer,
            );
        assert(answers(
            asked,
            (MessageV::GetReport { report_type, report_id, buffer_size }),
            answer,
        ));
    }
    answer
}

fn hand_report<D: DeviceDelegate>(
    delegate: &mut D,
    report_type: ReportType,
    data: &Vec<u8>,
) -> (answer: GetSetStatus)
    requires
        data@.len() > 0,
    ensures
        exists|asked: &mut D|
            *asked == *old(delegate) && *final(asked) == *final(delegate) && #[trigger] answers(
                asked,
                (MessageV::SetReport { report_type, data: data@ }),
                answer,
            ),
        answer@ == unsupported_answer() || old(delegate).may_answer(
            (RequestV::SetReport {
                report_id: data@[0],
                report_type,
                report_size: data@.len() as usize,
                data: data@.skip(1),
            }),
            answer@,
        ),
{
    let report = slice_subrange(data.as_slice(), 1, data.len());
    assert(report@ =~= data@.skip(1));
    let ghost before = *delegate;
    let answer = delegate.set_report(data[0], report_type, data.len(), report);
    proof {
        let asked = choose|asked: &mut D|
            *asked == before && *final(asked) == *delegate && #[trigger] call_ensures(
                D::set_report,
                (asked, data@[0], report_type, data@.len() as usize, report),
                answer,
            );
        assert(answers(
            asked,
            (MessageV::SetReport { report_type, data: data@ }),
            answer,
        ));
    }
    answer
}

fn ask_for_protocol<D: DeviceDelegate>(delegate: &mut D) -> (answer: GetSetStatus)
    ensures
        exists|asked: &mut D|
            *asked == *old(delegate) && *final(asked) == *final(delegate) && #[trigger] answers(
                asked,
                MessageV::GetProtocol,
                answer,
            ),
        answer@ == unsupported_answer() || old(delegate).may_answer(
            RequestV::GetProtocol,
            answer@,
        ),
{
    let ghost before = *delegate;
    let answer = delegate.get_protocol();
    proof {
        let asked = choose|asked: &mut D|
            *asked == before && *final(asked) == *delegate && #[trigger] call_ensures(
                D::get_protocol,
                (asked,),
                answer,
            );
        assert(answers(
            asked,
            MessageV::GetProtocol,
            answer,
        ));
    }
    answer
}

fn hand_protocol<D: DeviceDelegate>(delegate: &mut D, mode: ProtocolMode) -> (answer: GetSetStatus)
    ensures
        exists|asked: &mut D|
            *asked == *old(delegate) && *final(asked) == *final(delegate) && #[trigger] answers(
                asked,
                MessageV::SetProtocol(mode),
                answer,
            ),
        answer@ == unsupported_answer() || old(delegate).may_answer(
            RequestV::SetProtocol(mode),
            answer@,
        ),
{
    let ghost before = *delegate;
    let answer = delegate.set_protocol(mode);
    proof {
        let asked = choose|asked: &mut D|
            *asked == before && *final(asked) == *delegate && #[trigger] call_ensures(
                D::set_protocol,
                (asked, mode),
                answer,
            );
        assert(answers(
            asked,
            MessageV::SetProtocol(mode),
            answer,
        ));
    }
    answer
}

impl<D: DeviceDelegate> DeviceRuntime<D> {
    pub closed spec fn inner(self) -> D {
        self.delegate
    }

    /// The MTU of the peer's end of the control channel.
    pub closed spec fn mtu(self) -> int {
        self.control_peer_mtu as int
    }

    pub fn new(delegate: D, control_peer_mtu: usize) -> (runtime: Self)
        ensures
            runtime.inner() == delegate,
            runtime.mtu() == control_peer_mtu,
    {
        DeviceRuntime { delegate, control_peer_mtu }
    }

    pub fn delegate(&self) -> (delegate: &D)
        ensures
            *delegate == self.inner(),
    {
        &self.delegate
    }

    pub fn delegate_mut(&mut self) -> (delegate: &mut D)
        ensures
            *delegate == old(self).inner(),
            final(self).inner() == *final(delegate),
            final(self).mtu() == old(self).mtu(),
    {
        &mut self.delegate
    }

    /// Takes one message on the control channel. Where the delegate is asked,
    /// the events are those for whatever it answered; where it is not, it stays
    /// as it was.
    #[verifier::spinoff_prover]
    pub fn handle_control(&mut self, bytes: &[u8]) -> (result: Result<Vec<DeviceEvent>, Error>)
        ensures
            final(self).mtu() == old(self).mtu(),
            match MessageV::decode(bytes@) {
                Err(error) => result == Err::<Vec<DeviceEvent>, Error>(error) && final(self).inner()
                    == old(self).inner(),
                Ok(message) => match control_fault(message) {
                    Some(error) => result == Err::<Vec<DeviceEvent>, Error>(error) && final(
                        self).inner() == old(self).inner(),
                    None => {
                        &&& result is Ok
                        &&& request_of(message) is None ==> final(self).inner() == old(self).inner()
                            && event_views(result->Ok_0@) == control_events(
                            message,
                            unsupported_answer(),
                            old(self).mtu(),
                        )
                        &&& request_of(message) matches Some(request) ==> exists|
                            asked: &mut D,
                            answer: GetSetStatus,
                        |
                            *asked == old(self).inner() && *final(asked) == final(self).inner()
                                && #[trigger] answers(asked, message, answer) && event_views(
                                result->Ok_0@,
                            ) == control_events(message, answer@, old(self).mtu()) && (answer@
                                == unsupported_answer() || old(self).inner().may_answer(
                                request,
                                answer@,
                            ))
                    },
                },
            },
    {
        let message = match Message::from_bytes(bytes) {
            Err(error) => {
                return Err(error);
            },
            Ok(message) => message,
        };
        let ghost model = message@;
        let ghost mtu = self.mtu();
        let ghost silent = unsupported_answer();
        match message {
            Message::GetReport { report_type, report_id, buffer_size } => {
                let answer = ask_for_report(
                    &mut self.delegate,
                    report_id,
                    report_type,
                    buffer_size,
                );
                let ghost given = answer@;
                let response = respond_to_get_report(
                    report_type,
                    report_id,
                    answer,
                    self.control_peer_mtu,
                );
                let events = single_event(DeviceEvent::SendControl(response));
                assert(event_views(events@) =~= control_events(model, given, mtu));
                Ok(events)
            },
            Message::SetReport { report_type, data } => {
                if data.len() == 0 {
                    return Err(Error::Truncated("HIDP set-report ID"));
                }
                let answer = hand_report(&mut self.delegate, report_type, &data);
                let ghost given = answer@;
                let events = single_event(DeviceEvent::SendControl(respond_to_set_report(answer)));
                assert(event_views(events@) =~= control_events(model, given, mtu));
                Ok(events)
            },
            Message::GetProtocol => {
                let answer = ask_for_protocol(&mut self.delegate);
                let ghost given = answer@;
                let events = single_event(
                    DeviceEvent::SendControl(respond_to_get_protocol(answer)),
                );
                assert(event_views(events@) =~= control_events(model, given, mtu));
                Ok(events)
            },
            Message::SetProtocol(mode) => {
                let answer = hand_protocol(&mut self.delegate, mode);
                let ghost given = answer@;
                let events = single_event(
                    DeviceEvent::SendControl(respond_to_set_protocol(answer)),
                );
                assert(event_views(events@) =~= control_events(model, given, mtu));
                Ok(events)
            },
            Message::Data { report_type, data } => {
                let events = single_event(DeviceEvent::ControlData { report_type, data });
                assert(event_views(events@) =~= control_events(model, silent, mtu));
                Ok(events)
            },
            Message::Control(command) => {
                let event = if command.0 == ControlCommand::SUSPEND {
                    DeviceEvent::Suspend
                } else if command.0 == ControlCommand::EXIT_SUSPEND {
                    DeviceEvent::ExitSuspend
                } else if command.0 == ControlCommand::VIRTUAL_CABLE_UNPLUG {
                    DeviceEvent::VirtualCableUnplug
                } else {
                    DeviceEvent::Unsupported(Message::Control(command))
                };
                let events = single_event(event);
                assert(event_views(events@) =~= control_events(model, silent, mtu));
                Ok(events)
            },
            other => {
                let mut events = single_event(DeviceEvent::Unsupported(other));
                let ghost before = events@;
                let refusal = DeviceEvent::SendControl(
                    Message::Handshake(Handshake(Handshake::ERR_UNSUPPORTED_REQUEST)),
                );
                let ghost refusal_model = refusal@;
                events.push(refusal);
                assert(event_views(events@) =~= event_views(before).push(refusal_model));
                assert(event_views(events@) =~= control_events(model, silent, mtu));
                Ok(events)
            },
        }
    }

    /// Takes one message on the interrupt channel.
    pub fn handle_interrupt(&mut self, bytes: &[u8]) -> (result: Result<DeviceEvent, Error>)
        ensures
            *final(self) == *old(self),
            same_outcome(
                result,
                match MessageV::decode(bytes@) {
                    Err(error) => Err(error),
                    Ok(MessageV::Data { report_type, data }) => Ok(
                        (DeviceEventV::InterruptData { report_type, data }),
                    ),
                    Ok(message) => Ok(DeviceEventV::Unsupported(message)),
                },
            ),
    {
        match Message::from_bytes(bytes) {
            Err(error) => Err(error),
            Ok(Message::Data { report_type, data }) => Ok(
                DeviceEvent::InterruptData { report_type, data },
            ),
            Ok(message) => Ok(DeviceEvent::Unsupported(message)),
        }
    }
}

/// What a host learns from a device.
#[allow(inconsistent_fields)]
pub enum HostEventV {
    Handshake(Handshake),
    ControlData { report_type: ReportType, data: Seq<u8> },
    InterruptData { report_type: ReportType, data: Seq<u8> },
    VirtualCableUnplug,
    Unsupported(MessageV),
}

/// What a host learns from a message.
#[derive(Clone, Debug, PartialEq, Eq)]
pub enum HostEvent {
    Handshake(Handshake),
    ControlData { report_type: ReportType, data: Vec<u8> },
    InterruptData { report_type: ReportType, data: Vec<u8> },
    VirtualCableUnplug,
    Unsupported(Message),
}

impl View for HostEvent {
    type V = HostEventV;

    open spec fn view(&self) -> HostEventV {
        match *self {
            HostEvent::Handshake(result) => HostEventV::Handshake(result),
            HostEvent::ControlData { report_type, data } => HostEventV::ControlData {
                report_type,
                data: data@,
            },
            HostEvent::InterruptData { report_type, data } => HostEventV::InterruptData {
                report_type,
                data: data@,
            },
            HostEvent::VirtualCableUnplug => HostEventV::VirtualCableUnplug,
            HostEvent::Unsupported(message) => HostEventV::Unsupported(message@),
        }
    }
}

/// The host's end of the control and interrupt channels.
#[derive(Clone, Copy, Debug)]
pub struct HostRuntime;

impl Default for HostRuntime {
    fn default() -> (runtime: Self)
        ensures
            runtime == HostRuntime,
    {
        HostRuntime
    }
}

impl HostRuntime {
    pub fn get_report(report_type: ReportType, report_id: u8, buffer_size: Option<u16>) -> (message:
        Message)
        ensures
            message@ == (MessageV::GetReport { report_type, report_id, buffer_size }),
    {
        Message::GetReport { report_type, report_id, buffer_size }
    }

    pub fn set_report(report_type: ReportType, data: Vec<u8>) -> (message: Message)
        ensures
            message@ == (MessageV::SetReport { report_type, data: data@ }),
    {
        Message::SetReport { report_type, data }
    }

    pub fn get_protocol() -> (message: Message)
        ensures
            message@ == MessageV::GetProtocol,
    {
        Message::GetProtocol
    }

    pub fn set_protocol(mode: ProtocolMode) -> (message: Message)
        ensures
            message@ == MessageV::SetProtocol(mode),
    {
        Message::SetProtocol(mode)
    }

    pub fn suspend() -> (message: Message)
        ensures
            message@ == MessageV::Control(ControlCommand(ControlCommand::SUSPEND)),
    {
        Message::Control(ControlCommand(ControlCommand::SUSPEND))
    }

    pub fn exit_suspend() -> (message: Message)
        ensures
            message@ == MessageV::Control(ControlCommand(ControlCommand::EXIT_SUSPEND)),
    {
        Message::Control(ControlCommand(ControlCommand::EXIT_SUSPEND))
    }

    pub fn virtual_cable_unplug() -> (message: Message)
        ensures
            message@ == MessageV::Control(ControlCommand(ControlCommand::VIRTUAL_CABLE_UNPLUG)),
    {
        Message::Control(ControlCommand(ControlCommand::VIRTUAL_CABLE_UNPLUG))
    }

    pub fn send_data(data: Vec<u8>) -> (message: Message)
        ensures
            message@ == (MessageV::Data {
                report_type: ReportType(ReportType::OUTPUT_REPORT),
                data: data@,
            }),
    {
        Message::Data { report_type: ReportType(ReportType::OUTPUT_REPORT), data }
    }

    /// Takes one message on the control channel.
    pub fn handle_control(bytes: &[u8]) -> (result: Result<HostEvent, Error>)
        ensures
            same_outcome(
                result,
                match MessageV::decode(bytes@) {
                    Err(error) => Err(error),
                    Ok(MessageV::Handshake(code)) => Ok(HostEventV::Handshake(code)),
                    Ok(MessageV::Data { report_type, data }) => Ok(
                        (HostEventV::ControlData { report_type, data }),
                    ),
                    Ok(message) => if message == MessageV::Control(
                        ControlCommand(ControlCommand::VIRTUAL_CABLE_UNPLUG),
                    ) {
                        Ok(HostEventV::VirtualCableUnplug)
                    } else {
                        Ok(HostEventV::Unsupported(message))
                    },
                },
            ),
    {
        match Message::from_bytes(bytes) {
            Err(error) => Err(error),
            Ok(Message::Handshake(code)) => Ok(HostEvent::Handshake(code)),
            Ok(Message::Data { report_type, data }) => Ok(
                HostEvent::ControlData { report_type, data },
            ),
            Ok(Message::Control(command)) => {
                if command.0 == ControlCommand::VIRTUAL_CABLE_UNPLUG {
                    Ok(HostEvent::VirtualCableUnplug)
                } else {
                    Ok(HostEvent::Unsupported(Message::Control(command)))
                }
            },
            Ok(message) => Ok(HostEvent::Unsupported(message)),
        }
    }

    /// Takes one message on the interrupt channel.
    pub fn handle_interrupt(bytes: &[u8]) -> (result: Result<HostEvent, Error>)
        ensures
            same_outcome(
                result,
                match MessageV::decode(bytes@) {
                    Err(error) => Err(error),
                    Ok(MessageV::Data { report_type, data }) => Ok(
                        (HostEventV::InterruptData { report_type, data }),
                    ),
                    Ok(message) => Ok(HostEventV::Unsupported(message)),
                },
            ),
    {
        match Message::from_bytes(bytes) {
            Err(error) => Err(error),
            Ok(Message::Data { report_type, data }) => Ok(
                HostEvent::InterruptData { report_type, data },
            ),
            Ok(message) => Ok(HostEvent::Unsupported(message)),
        }
    }
}

/// An input report of a device.
pub fn device_data(data: Vec<u8>) -> (message: Message)
    ensures
        message@ == (MessageV::Data {
            report_type: ReportType(ReportType::INPUT_REPORT),
            data: data@,
        }),
{
    Message::Data { report_type: ReportType(ReportType::INPUT_REPORT), data }
}

} // verus!
