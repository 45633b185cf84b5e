//! The human interface device service: its service record, and what comes and
//! goes on its control and interrupt channels.

use vstd::prelude::*;
use vstd::string::*;
use vstd::utf8::encode_utf8;

use crate::api::{Channel, HidSdpPolicy, HidServiceConfig};
use crate::bytes::{be16_at, copy_bytes, le16, optional_bytes, read_be16, same_outcome};
use crate::hidp::{
    control_events, control_fault, device_data, event_views, unsupported_answer, DeviceEvent,
    DeviceEventV, DeviceRuntime, Handshake, Message, MessageV, ReportType, UnsupportedDelegate,
};
use crate::sdp::attribute::{attribute_views, uuid_in, ServiceAttribute, ServiceAttributeV};
use crate::sdp::element::{element_views, DataElement, DataElementV};
use crate::sdp::error_code;
use crate::sdp::pdu::{SdpPdu, SdpPduV};
use crate::sdp::server::{
    error_reply, names_uuid, record_matches, SdpRequestHandler, SdpServer, SdpServerV,
    ServiceRecordV,
};
use crate::values::BluetoothUuid;

verus! {

pub const SDP_PSM: u32 = 0x0001;

pub const HID_CONTROL_PSM: u32 = 0x0011;

pub const HID_INTERRUPT_PSM: u32 = 0x0013;

pub const HID_SERVICE_RECORD_HANDLE: u32 = 0x0001_0001;

pub const HID_SERVICE_CLASS_UUID: u16 = 0x1124;

pub const L2CAP_PROTOCOL_UUID: u16 = 0x0100;

pub const HIDP_PROTOCOL_UUID: u16 = 0x0011;

pub const PUBLIC_BROWSE_ROOT_UUID: u16 = 0x1002;

pub open spec fn uuid_element(value: u16) -> DataElementV {
    DataElementV::Uuid(le16(value))
}

pub open spec fn number_element(value: u16) -> DataElementV {
    DataElementV::UnsignedInteger { value: value as u128, size: 2 }
}

pub open spec fn octet_element(value: u8) -> DataElementV {
    DataElementV::UnsignedInteger { value: value as u128, size: 1 }
}

pub open spec fn text_element(text: Seq<char>) -> DataElementV {
    DataElementV::TextString(encode_utf8(text))
}

pub open spec fn list_element(elements: Seq<DataElementV>) -> DataElementV {
    DataElementV::Sequence(elements)
}

pub open spec fn entry(id: u16, value: DataElementV) -> ServiceAttributeV {
    ServiceAttributeV { id, value }
}

/// The protocols under a channel: L2CAP with its PSM, and HIDP.
pub open spec fn protocols(psm: u16) -> DataElementV {
    list_element(
        seq![
            list_element(seq![uuid_element(L2CAP_PROTOCOL_UUID), number_element(psm)]),
            list_element(seq![uuid_element(HIDP_PROTOCOL_UUID)]),
        ],
    )
}

/// An attribute that is there only where its text is given.
pub open spec fn optional_text(id: u16, text: Option<String>) -> Seq<ServiceAttributeV> {
    match text {
        Some(text) => seq![entry(id, text_element(text@))],
        None => seq![],
    }
}

/// What the service is and how it is reached.
pub open spec fn identity_entries(policy: HidSdpPolicy) -> Seq<ServiceAttributeV> {
    seq![
        entry(
            0x0000,
            DataElementV::UnsignedInteger { value: HID_SERVICE_RECORD_HANDLE as u128, size: 4 },
        ),
        entry(0x0001, list_element(seq![uuid_element(HID_SERVICE_CLASS_UUID)])),
        entry(0x0004, protocols(HID_CONTROL_PSM as u16)),
        entry(0x0005, list_element(seq![uuid_element(PUBLIC_BROWSE_ROOT_UUID)])),
        entry(
            0x0006,
            list_element(
                seq![number_element(0x656E), number_element(0x006A), number_element(0x0100)],
            ),
        ),
        entry(0x0100, text_element(policy.service_name@)),
    ]
}

/// The profile and the second channel.
pub open spec fn profile_entries(policy: HidSdpPolicy) -> Seq<ServiceAttributeV> {
    seq![
        entry(
            0x0009,
            list_element(
                seq![
                    list_element(
                        seq![
                            uuid_element(HID_SERVICE_CLASS_UUID),
                            number_element(policy.bluetooth_profile_version),
                        ],
                    ),
                ],
            ),
        ),
        entry(0x000D, list_element(seq![protocols(HID_INTERRUPT_PSM as u16)])),
    ]
}

pub open spec fn release_entries(policy: HidSdpPolicy) -> Seq<ServiceAttributeV> {
    match policy.device_release_number {
        Some(number) => seq![entry(0x0200, number_element(number))],
        None => seq![],
    }
}

/// What the device is and which reports it sends.
pub open spec fn device_entries(descriptor: Seq<u8>, policy: HidSdpPolicy) -> Seq<
    ServiceAttributeV,
> {
    seq![
        entry(0x0201, number_element(policy.parser_version)),
        entry(0x0202, octet_element(policy.device_subclass)),
        entry(0x0203, octet_element(policy.country_code)),
        entry(0x0204, DataElementV::Boolean(policy.virtual_cable)),
        entry(0x0205, DataElementV::Boolean(policy.reconnect_initiate)),
        entry(
            0x0206,
            list_element(
                seq![
                    list_element(seq![octet_element(0x22), DataElementV::TextString(descriptor)]),
                ],
            ),
        ),
        entry(
            0x0207,
            list_element(
                seq![list_element(seq![number_element(0x0409), number_element(0x0100)])],
            ),
        ),
    ]
}

pub open spec fn wake_entries(policy: HidSdpPolicy) -> Seq<ServiceAttributeV> {
    match policy.remote_wake {
        Some(wake) => seq![entry(0x020A, DataElementV::Boolean(wake))],
        None => seq![],
    }
}

/// How the link is kept.
pub open spec fn link_entries(policy: HidSdpPolicy) -> Seq<ServiceAttributeV> {
    seq![
        entry(0x020B, number_element(policy.profile_version)),
        entry(0x020C, number_element(policy.supervision_timeout)),
        entry(0x020D, DataElementV::Boolean(policy.normally_connectable)),
        entry(0x020E, DataElementV::Boolean(policy.boot_device)),
        entry(0x020F, number_element(policy.ssr_host_max_latency)),
        entry(0x0210, number_element(policy.ssr_host_min_timeout)),
    ]
}

/// The service record of a human interface device.
pub open spec fn hid_record(descriptor: Seq<u8>, policy: HidSdpPolicy) -> Seq<ServiceAttributeV> {
    identity_entries(policy) + optional_text(0x0101, policy.service_description) + optional_text(
        0x0102,
        policy.provider_name,
    ) + profile_entries(policy) + release_entries(policy) + device_entries(descriptor, policy)
        + wake_entries(policy) + link_entries(policy)
}

fn uuid16(value: u16) -> (element: DataElement)
    ensures
        element@ == uuid_element(value),
{
    DataElement::uuid(BluetoothUuid::from_u16(value))
}

fn list_of_one(first: DataElement) -> (list: DataElement)
    ensures
        list@ == list_element(seq![first@]),
{
    let ghost models = seq![first@];
    let mut elements: Vec<DataElement> = Vec::new();
    elements.push(first);
    assert(element_views(elements@) =~= models);
    DataElement::sequence(elements)
}

fn list_of_two(first: DataElement, second: DataElement) -> (list: DataElement)
    ensures
        list@ == list_element(seq![first@, second@]),
{
    let ghost models = seq![first@, second@];
    let mut elements: Vec<DataElement> = Vec::new();
    elements.push(first);
    elements.push(second);
    assert(element_views(elements@) =~= models);
    DataElement::sequence(elements)
}

fn list_of_three(first: DataElement, second: DataElement, third: DataElement) -> (list: DataElement)
    ensures
        list@ == list_element(seq![first@, second@, third@]),
{
    let ghost models = seq![first@, second@, third@];
    let mut elements: Vec<DataElement> = Vec::new();
    elements.push(first);
    elements.push(second);
    elements.push(third);
    assert(element_views(elements@) =~= models);
    DataElement::sequence(elements)
}

fn protocol_list(psm: u16) -> (list: DataElement)
    ensures
        list@ == protocols(psm),
{
    list_of_two(
        list_of_two(uuid16(L2CAP_PROTOCOL_UUID), DataElement::unsigned_integer_16(psm)),
        list_of_one(uuid16(HIDP_PROTOCOL_UUID)),
    )
}

fn text(value: &str) -> (element: DataElement)
    ensures
        element@ == text_element(value@),
{
    DataElement::text_string(copy_bytes(value.as_bytes()))
}

/// Adds an attribute to a record.
fn attribute(record: &mut Vec<ServiceAttribute>, id: u16, value: DataElement)
    ensures
        attribute_views(final(record)@) == attribute_views(old(record)@).push(entry(id, value@)),
{
    let ghost model = value@;
    record.push(ServiceAttribute::new(id, value));
    assert(attribute_views(record@) =~= attribute_views(old(record)@).push(entry(id, model)));
}

fn attribute_text(record: &mut Vec<ServiceAttribute>, id: u16, value: &Option<String>)
    ensures
        attribute_views(final(record)@) == attribute_views(old(record)@) + optional_text(
            id,
            *value,
        ),
{
    match value {
        Some(value) => {
            attribute(record, id, text(value.as_str()));
        },
        None => {},
    }
    assert(attribute_views(record@) =~= attribute_views(old(record)@) + optional_text(id, *value));
}

fn add_identity(record: &mut Vec<ServiceAttribute>, policy: &HidSdpPolicy)
    ensures
        attribute_views(final(record)@) == attribute_views(old(record)@) + identity_entries(
            *policy,
        ),
{
    attribute(record, 0x0000, DataElement::unsigned_integer_32(HID_SERVICE_RECORD_HANDLE));
    attribute(record, 0x0001, list_of_one(uuid16(HID_SERVICE_CLASS_UUID)));
    attribute(record, 0x0004, protocol_list(HID_CONTROL_PSM as u16));
    attribute(record, 0x0005, list_of_one(uuid16(PUBLIC_BROWSE_ROOT_UUID)));
    attribute(
        record,
        0x0006,
        list_of_three(
            DataElement::unsigned_integer_16(0x656E),
            DataElement::unsigned_integer_16(0x006A),
            DataElement::unsigned_integer_16(0x0100),
        ),
    );
    attribute(record, 0x0100, text(policy.service_name.as_str()));
    assert(attribute_views(record@) =~= attribute_views(old(record)@) + identity_entries(*policy));
}

fn add_profile(record: &mut Vec<ServiceAttribute>, policy: &HidSdpPolicy)
    ensures
        attribute_views(final(record)@) == attribute_views(old(record)@) + profile_entries(*policy),
{
    attribute(
        record,
        0x0009,
        list_of_one(
            list_of_two(
                uuid16(HID_SERVICE_CLASS_UUID),
                DataElement::unsigned_integer_16(policy.bluetooth_profile_version),
            ),
        ),
    );
    attribute(record, 0x000D, list_of_one(protocol_list(HID_INTERRUPT_PSM as u16)));
    assert(attribute_views(record@) =~= attribute_views(old(record)@) + profile_entries(*policy));
}

fn add_release(record: &mut Vec<ServiceAttribute>, policy: &HidSdpPolicy)
    ensures
        attribute_views(final(record)@) == attribute_views(old(record)@) + release_entries(*policy),
{
    match policy.device_release_number {
        Some(number) => {
            attribute(record, 0x0200, DataElement::unsigned_integer_16(number));
        },
        None => {},
    }
    assert(attribute_views(record@) =~= attribute_views(old(record)@) + release_entries(*policy));
}

fn add_device(record: &mut Vec<ServiceAttribute>, descriptor: &[u8], policy: &HidSdpPolicy)
    ensures
        attribute_views(final(record)@) == attribute_views(old(record)@) + device_entries(
            descriptor@,
            *policy,
        ),
{
    attribute(record, 0x0201, DataElement::unsigned_integer_16(policy.parser_version));
    attribute(record, 0x0202, DataElement::unsigned_integer_8(policy.device_subclass));
    attribute(record, 0x0203, DataElement::unsigned_integer_8(policy.country_code));
    attribute(record, 0x0204, DataElement::boolean(policy.virtual_cable));
    attribute(record, 0x0205, DataElement::boolean(policy.reconnect_initiate));
    attribute(
        record,
        0x0206,
        list_of_one(
            list_of_two(
                DataElement::unsigned_integer_8(0x22),
                DataElement::text_string(copy_bytes(descriptor)),
            ),
        ),
    );
    attribute(
        record,
        0x0207,
        list_of_one(
            list_of_two(
                DataElement::unsigned_integer_16(0x0409),
                DataElement::unsigned_integer_16(0x0100),
            ),
        ),
    );
    assert(attribute_views(record@) =~= attribute_views(old(record)@) + device_entries(
        descriptor@,
        *policy,
    ));
}

fn add_wake(record: &mut Vec<ServiceAttribute>, policy: &HidSdpPolicy)
    ensures
        attribute_views(final(record)@) == attribute_views(old(record)@) + wake_entries(*policy),
{
    match policy.remote_wake {
        Some(wake) => {
            attribute(record, 0x020A, DataElement::boolean(wake));
        },
        None => {},
    }
    assert(attribute_views(record@) =~= attribute_views(old(record)@) + wake_entries(*policy));
}

fn add_link(record: &mut Vec<ServiceAttribute>, policy: &HidSdpPolicy)
    ensures
        attribute_views(final(record)@) == attribute_views(old(record)@) + link_entries(*policy),
{
    attribute(record, 0x020B, DataElement::unsigned_integer_16(policy.profile_version));
    attribute(record, 0x020C, DataElement::unsigned_integer_16(policy.supervision_timeout));
    attribute(record, 0x020D, DataElement::boolean(policy.normally_connectable));
    attribute(record, 0x020E, DataElement::boolean(policy.boot_device));
    attribute(record, 0x020F, DataElement::unsigned_integer_16(policy.ssr_host_max_latency));
    attribute(record, 0x0210, DataElement::unsigned_integer_16(policy.ssr_host_min_timeout));
    assert(attribute_views(record@) =~= attribute_views(old(record)@) + link_entries(*policy));
}

/// Builds the service record of a human interface device.
pub fn build_hid_service_record(configuration: &HidServiceConfig) -> (record: Vec<
    ServiceAttribute,
>)
    ensures
        attribute_views(record@) == hid_record(
            configuration.descriptor(),
            configuration.policy(),
        ),
{
    let policy = configuration.sdp_policy();
    let mut record: Vec<ServiceAttribute> = Vec::new();
    assert(attribute_views(record@) =~= seq![]);
    add_identity(&mut record, policy);
    attribute_text(&mut record, 0x0101, &policy.service_description);
    attribute_text(&mut record, 0x0102, &policy.provider_name);
    add_profile(&mut record, policy);
    add_release(&mut record, policy);
    add_device(&mut record, configuration.report_descriptor(), policy);
    add_wake(&mut record, policy);
    add_link(&mut record, policy);
    assert(attribute_views(record@) =~= hid_record(
        configuration.descriptor(),
        configuration.policy(),
    ));
    record
}

/// The request in an SDU, if the SDU is exactly one.
pub open spec fn complete_request(sdu: Seq<u8>) -> Option<SdpPduV> {
    if sdu.len() < 5 || sdu.len() != 5 + be16_at(sdu, 3) {
        None
    } else {
        match SdpPduV::decode(sdu) {
            Ok(request) => Some(request),
            Err(_) => None,
        }
    }
}

/// What the service answers to an SDU on its discovery channel, and its state
/// afterwards. An SDU too short for a transaction identifier gets no answer, one
/// that is not exactly a request is refused.
pub open spec fn sdu_answered(server: SdpServerV, sdu: Seq<u8>) -> (SdpServerV, Option<Seq<u8>>) {
    if sdu.len() < 3 {
        (server, None)
    } else {
        let (next, response) = match complete_request(sdu) {
            Some(request) => server.handled(request),
            None => (server, error_reply(be16_at(sdu, 1), error_code::INVALID_REQUEST_SYNTAX)),
        };
        (
            next,
            match response.encode() {
                Ok(bytes) => Some(bytes),
                Err(_) => None,
            },
        )
    }
}

/// The service's end of its discovery channel.
#[derive(Debug)]
pub struct HidSdpChannel {
    server: SdpServer,
}

impl View for HidSdpChannel {
    type V = SdpServerV;

    closed spec fn view(&self) -> SdpServerV {
        self.server@
    }
}

/// A server with the service's record alone.
pub open spec fn hid_server(descriptor: Seq<u8>, policy: HidSdpPolicy, peer_mtu: u16) -> SdpServerV {
    SdpServerV {
        records: seq![
            ServiceRecordV {
                handle: HID_SERVICE_RECORD_HANDLE,
                attributes: hid_record(descriptor, policy),
            },
        ],
        current_response: None,
        mtu: peer_mtu,
    }
}

impl HidSdpChannel {
    pub fn new(configuration: &HidServiceConfig, peer_mtu: u16) -> (channel: Self)
        ensures
            channel@ == hid_server(configuration.descriptor(), configuration.policy(), peer_mtu),
    {
        let mut server = SdpServer::new(peer_mtu);
        server.add_service(HID_SERVICE_RECORD_HANDLE, build_hid_service_record(configuration));
        let channel = HidSdpChannel { server };
        assert(channel@.records =~= hid_server(
            configuration.descriptor(),
            configuration.policy(),
            peer_mtu,
        ).records);
        channel
    }

    /// Answers one SDU of the peer.
    pub fn handle_sdu(&mut self, sdu: &[u8]) -> (answer: Option<Vec<u8>>)
        ensures
            final(self)@ == sdu_answered(old(self)@, sdu@).0,
            optional_bytes(answer) == sdu_answered(old(self)@, sdu@).1,
    {
        if sdu.len() < 3 {
            return None;
        }
        let response = match parse_complete_pdu(sdu) {
            Some(request) => self.server.handle_request(&request),
            None => SdpPdu::ErrorResponse {
                transaction_id: read_be16(sdu, 1),
                error_code: error_code::INVALID_REQUEST_SYNTAX,
            },
        };
        match response.to_bytes() {
            Ok(bytes) => Some(bytes),
            Err(_) => None,
        }
    }
}

fn parse_complete_pdu(sdu: &[u8]) -> (request: Option<SdpPdu>)
    ensures
        match (request, complete_request(sdu@)) {
            (Some(request), Some(model)) => request@ == model,
            (None, None) => true,
            _ => false,
        },
{
    if sdu.len() < 5 {
        return None;
    }
    let parameter_length: usize = read_be16(sdu, 3) as usize;
    if sdu.len() != 5 + parameter_length {
        return None;
    }
    match SdpPdu::from_bytes(sdu) {
        Ok(request) => Some(request),
        Err(_) => None,
    }
}

/// What the session is to do about a message.
pub enum HidpBridgeEventV {
    Output { channel: Channel, payload: Seq<u8> },
    ControlResponse(Seq<u8>),
    Suspend,
    Resume,
    VirtualCableUnplug,
    Unsupported { channel: Channel },
}

/// What the session is to do about a message on one of the channels.
#[derive(Clone, Debug, PartialEq, Eq)]
pub enum HidpBridgeEvent {
    Output { channel: Channel, payload: Vec<u8> },
    ControlResponse(Vec<u8>),
    Suspend,
    Resume,
    VirtualCableUnplug,
    Unsupported { channel: Channel },
}

impl View for HidpBridgeEvent {
    type V = HidpBridgeEventV;

    open spec fn view(&self) -> HidpBridgeEventV {
        match *self {
            HidpBridgeEvent::Output { channel, payload } => HidpBridgeEventV::Output {
                channel,
                payload: payload@,
            },
            HidpBridgeEvent::ControlResponse(bytes) => HidpBridgeEventV::ControlResponse(bytes@),
            HidpBridgeEvent::Suspend => HidpBridgeEventV::Suspend,
            HidpBridgeEvent::Resume => HidpBridgeEventV::Resume,
            HidpBridgeEvent::VirtualCableUnplug => HidpBridgeEventV::VirtualCableUnplug,
            HidpBridgeEvent::Unsupported { channel } => HidpBridgeEventV::Unsupported { channel },
        }
    }
}

/// The contents of a list of events.
pub open spec fn bridge_views(events: Seq<HidpBridgeEvent>) -> Seq<HidpBridgeEventV> {
    events.map_values(|event: HidpBridgeEvent| event@)
}

/// Why a message on one of the channels is refused.
#[derive(Clone, Copy, Debug, PartialEq, Eq)]
pub enum HidpBridgeError {
    Malformed { channel: Channel },
    EncodeFailed { channel: Channel },
    PeerMtuExceeded { channel: Channel, encoded_len: usize, peer_mtu: usize },
}

/// Bytes for the peer, if they fit its MTU.
pub open spec fn fitting(channel: Channel, encoded: Seq<u8>, peer_mtu: usize) -> Result<
    Seq<u8>,
    HidpBridgeError,
> {
    if encoded.len() > peer_mtu {
        Err(
            HidpBridgeError::PeerMtuExceeded {
                channel,
                encoded_len: encoded.len() as usize,
                peer_mtu,
            },
        )
    } else {
        Ok(encoded)
    }
}

/// A message for the peer, if it can be written and fits its MTU.
pub open spec fn written(channel: Channel, message: MessageV, peer_mtu: usize) -> Result<
    Seq<u8>,
    HidpBridgeError,
> {
    match message.encode() {
        Err(_) => Err(HidpBridgeError::EncodeFailed { channel }),
        Ok(bytes) => fitting(channel, bytes, peer_mtu),
    }
}

/// What a message on one of the channels says to the device, which supports no
/// request.
pub open spec fn device_events(channel: Channel, bytes: Seq<u8>) -> Result<
    Seq<DeviceEventV>,
    HidpBridgeError,
> {
    match MessageV::decode(bytes) {
        Err(_) => Err(HidpBridgeError::Malformed { channel }),
        Ok(message) => match channel {
            Channel::Control => if control_fault(message) is Some {
                Err(HidpBridgeError::Malformed { channel })
            } else {
                Ok(control_events(message, unsupported_answer(), 0))
            },
            Channel::Interrupt => Ok(
                match message {
                    MessageV::Data { report_type, data } => seq![
                        DeviceEventV::InterruptData { report_type, data },
                    ],
                    _ => seq![DeviceEventV::Unsupported(message)],
                },
            ),
        },
    }
}

/// What the session is to do about one device event. Only output reports reach
/// the application.
pub open spec fn translated_event(channel: Channel, event: DeviceEventV, control_mtu: usize) -> Result<
    HidpBridgeEventV,
    HidpBridgeError,
> {
    match event {
        DeviceEventV::SendControl(message) => match written(
            Channel::Control,
            message,
            control_mtu,
        ) {
            Ok(bytes) => Ok(HidpBridgeEventV::ControlResponse(bytes)),
            Err(error) => Err(error),
        },
        DeviceEventV::ControlData { report_type, data } => Ok(reported(channel, report_type, data)),
        DeviceEventV::InterruptData { report_type, data } => Ok(
            reported(channel, report_type, data),
        ),
        DeviceEventV::Suspend => Ok(HidpBridgeEventV::Suspend),
        DeviceEventV::ExitSuspend => Ok(HidpBridgeEventV::Resume),
        DeviceEventV::VirtualCableUnplug => Ok(HidpBridgeEventV::VirtualCableUnplug),
        DeviceEventV::Unsupported(_) => Ok(HidpBridgeEventV::Unsupported { channel }),
    }
}

/// A report that the peer sent.
pub open spec fn reported(channel: Channel, report_type: ReportType, data: Seq<u8>) -> HidpBridgeEventV {
    if report_type == ReportType(ReportType::OUTPUT_REPORT) {
        HidpBridgeEventV::Output { channel, payload: data }
    } else {
        HidpBridgeEventV::Unsupported { channel }
    }
}

/// What the session is to do about device events, in order, up to the first that
/// is refused.
pub open spec fn translated(channel: Channel, events: Seq<DeviceEventV>, control_mtu: usize) -> Result<
    Seq<HidpBridgeEventV>,
    HidpBridgeError,
>
    decreases events.len(),
{
    if events.len() == 0 {
        Ok(seq![])
    } else {
        match translated(channel, events.drop_last(), control_mtu) {
            Err(error) => Err(error),
            Ok(before) => match translated_event(channel, events.last(), control_mtu) {
                Err(error) => Err(error),
                Ok(event) => Ok(before.push(event)),
            },
        }
    }
}

/// What the session is to do about a message on one of the channels.
pub open spec fn message_handled(channel: Channel, bytes: Seq<u8>, control_mtu: usize) -> Result<
    Seq<HidpBridgeEventV>,
    HidpBridgeError,
> {
    match device_events(channel, bytes) {
        Err(error) => Err(error),
        Ok(events) => translated(channel, events, control_mtu),
    }
}

/// The largest messages that the peer takes.
pub struct HidpBridgeV {
    pub control_peer_mtu: usize,
    pub interrupt_peer_mtu: usize,
}

/// The device's end of the control and interrupt channels. The device supports
/// no request and takes output reports.
pub struct HidpBridge {
    runtime: DeviceRuntime<UnsupportedDelegate>,
    control_peer_mtu: usize,
    interrupt_peer_mtu: usize,
}

impl View for HidpBridge {
    type V = HidpBridgeV;

    closed spec fn view(&self) -> HidpBridgeV {
        HidpBridgeV {
            control_peer_mtu: self.control_peer_mtu,
            interrupt_peer_mtu: self.interrupt_peer_mtu,
        }
    }
}

/// The message in which a device sends a report.
pub open spec fn input_report(payload: Seq<u8>) -> MessageV {
    MessageV::Data { report_type: ReportType(ReportType::INPUT_REPORT), data: payload }
}

impl HidpBridge {
    pub fn new(control_peer_mtu: usize, interrupt_peer_mtu: usize) -> (bridge: Self)
        ensures
            bridge@ == (HidpBridgeV { control_peer_mtu, interrupt_peer_mtu }),
    {
        HidpBridge {
            runtime: DeviceRuntime::new(UnsupportedDelegate, control_peer_mtu),
            control_peer_mtu,
            interrupt_peer_mtu,
        }
    }

    /// Takes one message of the peer.
    #[verifier::spinoff_prover]
    pub fn handle(&mut self, channel: Channel, bytes: &[u8]) -> (result: Result<
        Vec<HidpBridgeEvent>,
        HidpBridgeError,
    >)
        ensures
            final(self)@ == old(self)@,
            match (result, message_handled(channel, bytes@, old(self)@.control_peer_mtu)) {
                (Ok(events), Ok(models)) => bridge_views(events@) == models,
                (Err(error), Err(model)) => error == model,
                _ => false,
            },
    {
        let taken = match channel {
            Channel::Control => self.runtime.handle_control(bytes),
            Channel::Interrupt => match self.runtime.handle_interrupt(bytes) {
                Err(error) => Err(error),
                Ok(event) => {
                    let ghost model = event@;
                    let mut events: Vec<DeviceEvent> = Vec::new();
                    events.push(event);
                    assert(event_views(events@) =~= seq![model]);
                    Ok(events)
                },
            },
        };
        let received = match taken {
            Err(_) => {
                return Err(HidpBridgeError::Malformed { channel });
            },
            Ok(events) => events,
        };
        let ghost models = event_views(received@);
        proof {
            if channel is Control {
                let message = MessageV::decode(bytes@)->Ok_0;
                assert(control_events(message, unsupported_answer(), 0) == control_events(
                    message,
                    unsupported_answer(),
                    old(self).runtime.mtu(),
                ));
            }
            assert(device_events(channel, bytes@) == Ok::<Seq<DeviceEventV>, HidpBridgeError>(
                models,
            ));
        }
        let ghost mtu = self@.control_peer_mtu;
        let mut events: Vec<HidpBridgeEvent> = Vec::new();
        let mut index: usize = 0;
        assert(models.take(0) =~= Seq::<DeviceEventV>::empty());
        assert(bridge_views(events@) =~= Seq::<HidpBridgeEventV>::empty());
        while index < received.len()
            invariant
                index <= received@.len(),
                models == event_views(received@),
                mtu == self@.control_peer_mtu,
                self@ == old(self)@,
                mtu == old(self)@.control_peer_mtu,
                message_handled(channel, bytes@, mtu) == translated(channel, models, mtu),
                translated(channel, models.take(index as int), mtu) == Ok::<
                    Seq<HidpBridgeEventV>,
                    HidpBridgeError,
                >(bridge_views(events@)),
            decreases received@.len() - index,
        {
            proof {
                assert(models.take(index + 1).drop_last() =~= models.take(index as int));
                assert(models.take(index + 1).last() == models[index as int]);
            }
            match self.translate_event(channel, &received[index]) {
                Err(error) => {
                    proof {
                        lemma_refused_event(channel, models, mtu, index + 1);
                    }
                    return Err(error);
                },
                Ok(event) => {
                    let ghost before = bridge_views(events@);
                    let ghost model = event@;
                    events.push(event);
                    assert(bridge_views(events@) =~= before.push(model));
                },
            }
            index = index + 1;
        }
        assert(models.take(index as int) =~= models);
        Ok(events)
    }

    /// The bytes of an input report, if they fit the peer's MTU.
    pub fn encode_input(&self, payload: &[u8]) -> (result: Result<Vec<u8>, HidpBridgeError>)
        ensures
            same_outcome(
                result,
                written(
                    Channel::Interrupt,
                    input_report(payload@),
                    self@.interrupt_peer_mtu,
                ),
            ),
    {
        match device_data(copy_bytes(payload)).to_bytes() {
            Err(_) => Err(HidpBridgeError::EncodeFailed { channel: Channel::Interrupt }),
            Ok(encoded) => check_peer_mtu(Channel::Interrupt, encoded, self.interrupt_peer_mtu),
        }
    }

    pub fn set_peer_mtu(&mut self, channel: Channel, peer_mtu: usize)
        ensures
            final(self)@ == match channel {
                Channel::Control => HidpBridgeV { control_peer_mtu: peer_mtu, ..old(self)@ },
                Channel::Interrupt => HidpBridgeV { interrupt_peer_mtu: peer_mtu, ..old(self)@ },
            },
    {
        match channel {
            Channel::Control => {
                self.control_peer_mtu = peer_mtu;
            },
            Channel::Interrupt => {
                self.interrupt_peer_mtu = peer_mtu;
            },
        }
    }

    /// The answer to a message on the control channel that cannot be read.
    pub fn invalid_parameter_response(&self) -> (result: Result<Vec<u8>, HidpBridgeError>)
        ensures
            same_outcome(
                result,
                written(
                    Channel::Control,
                    MessageV::Handshake(Handshake(Handshake::ERR_INVALID_PARAMETER)),
                    self@.control_peer_mtu,
                ),
            ),
    {
        self.encode_control(&Message::Handshake(Handshake(Handshake::ERR_INVALID_PARAMETER)))
    }

    fn translate_event(&self, channel: Channel, event: &DeviceEvent) -> (result: Result<
        HidpBridgeEvent,
        HidpBridgeError,
    >)
        ensures
            same_outcome(result, translated_event(channel, event@, self@.control_peer_mtu)),
    {
        match event {
            DeviceEvent::SendControl(message) => match self.encode_control(message) {
                Err(error) => Err(error),
                Ok(bytes) => Ok(HidpBridgeEvent::ControlResponse(bytes)),
            },
            DeviceEvent::ControlData { report_type, data } => Ok(
                report(channel, *report_type, data),
            ),
            DeviceEvent::InterruptData { report_type, data } => Ok(
                report(channel, *report_type, data),
            ),
            DeviceEvent::Suspend => Ok(HidpBridgeEvent::Suspend),
            DeviceEvent::ExitSuspend => Ok(HidpBridgeEvent::Resume),
            DeviceEvent::VirtualCableUnplug => Ok(HidpBridgeEvent::VirtualCableUnplug),
            DeviceEvent::Unsupported(_) => Ok(HidpBridgeEvent::Unsupported { channel }),
        }
    }

    fn encode_control(&self, message: &Message) -> (result: Result<Vec<u8>, HidpBridgeError>)
        ensures
            same_outcome(result, written(Channel::Control, message@, self@.control_peer_mtu)),
    {
        match message.to_bytes() {
            Err(_) => Err(HidpBridgeError::EncodeFailed { channel: Channel::Control }),
            Ok(encoded) => check_peer_mtu(Channel::Control, encoded, self.control_peer_mtu),
        }
    }
}

fn report(channel: Channel, report_type: ReportType, data: &Vec<u8>) -> (event: HidpBridgeEvent)
    ensures
        event@ == reported(channel, report_type, data@),
{
    if report_type.0 == ReportType::OUTPUT_REPORT {
        HidpBridgeEvent::Output { channel, payload: copy_bytes(data) }
    } else {
        HidpBridgeEvent::Unsupported { channel }
    }
}

fn check_peer_mtu(channel: Channel, encoded: Vec<u8>, peer_mtu: usize) -> (result: Result<
    Vec<u8>,
    HidpBridgeError,
>)
    ensures
        same_outcome(result, fitting(channel, encoded@, peer_mtu)),
{
    if encoded.len() > peer_mtu {
        return Err(
            HidpBridgeError::PeerMtuExceeded { channel, encoded_len: encoded.len(), peer_mtu },
        );
    }
    Ok(encoded)
}

proof fn lemma_refused_event(
    channel: Channel,
    events: Seq<DeviceEventV>,
    control_mtu: usize,
    count: int,
)
    requires
        0 <= count <= events.len(),
        translated(channel, events.take(count), control_mtu) is Err,
    ensures
        translated(channel, events, control_mtu) == translated(
            channel,
            events.take(count),
            control_mtu,
        ),
    decreases events.len(),
{
    if count == events.len() {
        assert(events.take(count) =~= events);
    } else {
        assert(events.drop_last().take(count) =~= events.take(count));
        lemma_refused_event(channel, events.drop_last(), control_mtu, count);
    }
}

/// A peer that searches for human interface devices finds the service.
pub proof fn hid_service_is_found_by_its_class(descriptor: Seq<u8>, policy: HidSdpPolicy)
    ensures
        record_matches(
            list_element(seq![uuid_element(HID_SERVICE_CLASS_UUID)]),
            hid_record(descriptor, policy),
        ),
{
    let record = hid_record(descriptor, policy);
    let elements = seq![uuid_element(HID_SERVICE_CLASS_UUID)];
    let pattern = list_element(elements);
    assert(pattern->Sequence_0 == elements);
    let class = record[1];
    assert(class == identity_entries(policy)[1]);
    assert(class.value->Sequence_0 == elements);
    assert(uuid_in(le16(HID_SERVICE_CLASS_UUID), elements[0]));
    assert(uuid_in(le16(HID_SERVICE_CLASS_UUID), class.value));
    assert(names_uuid(pattern->Sequence_0[0], record[1]));
}

/// The service record has every attribute at most once.
pub proof fn hid_record_has_no_attribute_twice(descriptor: Seq<u8>, policy: HidSdpPolicy)
    ensures
        forall|i: int, j: int|
            0 <= i < j < hid_record(descriptor, policy).len() ==> (#[trigger] hid_record(
                descriptor,
                policy,
            )[i]).id != (#[trigger] hid_record(descriptor, policy)[j]).id,
{
    let record = hid_record(descriptor, policy);
    let first = identity_entries(policy);
    let second = optional_text(0x0101, policy.service_description);
    let third = optional_text(0x0102, policy.provider_name);
    let fourth = profile_entries(policy);
    let fifth = release_entries(policy);
    let sixth = device_entries(descriptor, policy);
    let seventh = wake_entries(policy);
    let eighth = link_entries(policy);
    assert(record == first + second + third + fourth + fifth + sixth + seventh + eighth);
    assert(second.len() <= 1 && third.len() <= 1 && fifth.len() <= 1 && seventh.len() <= 1);
}

} // verus!
