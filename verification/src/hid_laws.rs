//! What holds of the human interface device service: what its record tells a
//! host, and how messages on its channels are answered, byte for byte.

use vstd::prelude::*;
use vstd::utf8::encode_utf8;

use crate::api::{Channel, HidSdpPolicy};
use crate::hid_service::{
    device_entries, device_events, hid_record, identity_entries, input_report, link_entries,
    message_handled, optional_text, profile_entries, release_entries, translated,
    translated_event, wake_entries, written, HidpBridgeError, HidpBridgeEventV,
};
use crate::hidp::{
    control_events, device_data, request_of, DeviceDelegate, DeviceEvent, DeviceEventV,
    DeviceRuntime, Error, GetSetStatusV, HostEvent, HostEventV, HostRuntime, Message, MessageV,
    ProtocolMode, ReportType, RequestV,
};
use crate::sdp::attribute::ServiceAttributeV;
use crate::sdp::element::DataElementV;

verus! {

/// Whether a record has an attribute with this identifier and value.
pub open spec fn tells(record: Seq<ServiceAttributeV>, id: u16, value: DataElementV) -> bool {
    exists|i: int| 0 <= i < record.len() && #[trigger] record[i] == (ServiceAttributeV { id, value })
}

/// Whether a record says nothing under an identifier.
pub open spec fn silent_on(record: Seq<ServiceAttributeV>, id: u16) -> bool {
    forall|i: int| 0 <= i < record.len() ==> (#[trigger] record[i]).id != id
}

/// A number of two bytes.
pub open spec fn short(value: int) -> DataElementV {
    DataElementV::UnsignedInteger { value: value as u128, size: 2 }
}

/// A number of one byte.
pub open spec fn octet(value: int) -> DataElementV {
    DataElementV::UnsignedInteger { value: value as u128, size: 1 }
}

/// A sixteen-bit UUID, given by its high and low byte.
pub open spec fn uuid(high: u8, low: u8) -> DataElementV {
    DataElementV::Uuid(seq![low, high])
}

/// A list of elements.
pub open spec fn list(elements: Seq<DataElementV>) -> DataElementV {
    DataElementV::Sequence(elements)
}

/// The protocols of a channel: L2CAP (0x0100) with the PSM of the channel, and
/// HIDP (0x0011) above it.
pub open spec fn stack(psm: int) -> DataElementV {
    list(seq![list(seq![uuid(0x01, 0x00), short(psm)]), list(seq![uuid(0x00, 0x11)])])
}

proof fn lemma_told(record: Seq<ServiceAttributeV>, index: int, id: u16, value: DataElementV)
    requires
        0 <= index < record.len(),
        record[index].id == id,
        record[index].value == value,
    ensures
        tells(record, id, value),
{
    assert(record[index] == ServiceAttributeV { id, value });
}

/// The parts of the record and where each begins.
proof fn lemma_parts(descriptor: Seq<u8>, policy: HidSdpPolicy)
    ensures
        ({
            let record = hid_record(descriptor, policy);
            let described = optional_text(0x0101, policy.service_description);
            let provided = optional_text(0x0102, policy.provider_name);
            let released = release_entries(policy);
            let woken = wake_entries(policy);
            let second: int = 6int + described.len();
            let third = second + provided.len();
            let fourth = third + 2;
            let fifth = fourth + released.len();
            let sixth = fifth + 7;
            let seventh = sixth + woken.len();
            &&& record.len() == seventh + 6
            &&& forall|i: int| 0 <= i < 6 ==> record[i] == identity_entries(policy)[i]
            &&& forall|i: int| 0 <= i < described.len() ==> record[6int + i] == described[i]
            &&& forall|i: int| 0 <= i < provided.len() ==> record[second + i] == provided[i]
            &&& forall|i: int| 0 <= i < 2 ==> record[third + i] == profile_entries(policy)[i]
            &&& forall|i: int| 0 <= i < released.len() ==> record[fourth + i] == released[i]
            &&& forall|i: int|
                0 <= i < 7 ==> record[fifth + i] == device_entries(descriptor, policy)[i]
            &&& forall|i: int| 0 <= i < woken.len() ==> record[sixth + i] == woken[i]
            &&& forall|i: int| 0 <= i < 6 ==> record[seventh + i] == link_entries(policy)[i]
        }),
{
}

/// A host that follows the record reaches the device: the protocol list names
/// L2CAP with the PSM of the control channel and HIDP above it, the additional
/// protocol list L2CAP with the PSM of the interrupt channel and HIDP above it.
pub proof fn record_names_both_channels(descriptor: Seq<u8>, policy: HidSdpPolicy)
    ensures
        tells(hid_record(descriptor, policy), 0x0004, stack(0x0011)),
        tells(hid_record(descriptor, policy), 0x000D, list(seq![stack(0x0013)])),
{
    let record = hid_record(descriptor, policy);
    lemma_parts(descriptor, policy);
    let third: int = 6int + optional_text(0x0101, policy.service_description).len() + optional_text(
        0x0102,
        policy.provider_name,
    ).len();
    lemma_stack(record[2].value, 0x0011);
    lemma_told(record, 2, 0x0004, stack(0x0011));
    let profile = profile_entries(policy)[1];
    let inner = profile.value->Sequence_0[0];
    assert(record[third + 1] == profile);
    lemma_stack(inner, 0x0013);
    assert(profile.value->Sequence_0 =~= seq![stack(0x0013)]);
    lemma_told(record, third + 1, 0x000D, list(seq![stack(0x0013)]));
}

proof fn lemma_stack(value: DataElementV, psm: u16)
    requires
        value == crate::hid_service::protocols(psm),
        psm < 256,
    ensures
        value == stack(psm as int),
{
    let outer = value->Sequence_0;
    let first = outer[0]->Sequence_0;
    let second = outer[1]->Sequence_0;
    assert(crate::bytes::le16(0x0100) =~= seq![0x00u8, 0x01]);
    assert(crate::bytes::le16(0x0011) =~= seq![0x11u8, 0x00]);
    assert(first =~= seq![uuid(0x01, 0x00), short(psm as int)]);
    assert(second =~= seq![uuid(0x00, 0x11)]);
    assert(outer =~= stack(psm as int)->Sequence_0);
}

/// The record says what kind of service it is: its handle, the class of human
/// interface devices, the public browse group, English as the language, and the
/// profile in the version that the policy gives.
pub proof fn record_tells_what_the_service_is(descriptor: Seq<u8>, policy: HidSdpPolicy)
    ensures
        ({
            let record = hid_record(descriptor, policy);
            &&& tells(
                record,
                0x0000,
                DataElementV::UnsignedInteger { value: 0x0001_0001, size: 4 },
            )
            &&& tells(record, 0x0001, list(seq![uuid(0x11, 0x24)]))
            &&& tells(record, 0x0005, list(seq![uuid(0x10, 0x02)]))
            &&& tells(record, 0x0006, list(seq![short(0x656E), short(0x006A), short(0x0100)]))
            &&& tells(
                record,
                0x0009,
                list(
                    seq![
                        list(
                            seq![
                                uuid(0x11, 0x24),
                                short(policy.bluetooth_profile_version as int),
                            ],
                        ),
                    ],
                ),
            )
            &&& tells(record, 0x0100, DataElementV::TextString(encode_utf8(policy.service_name@)))
        }),
{
    let record = hid_record(descriptor, policy);
    lemma_parts(descriptor, policy);
    let third: int = 6int + optional_text(0x0101, policy.service_description).len() + optional_text(
        0x0102,
        policy.provider_name,
    ).len();
    assert(crate::bytes::le16(0x1124) =~= seq![0x24u8, 0x11]);
    assert(crate::bytes::le16(0x1002) =~= seq![0x02u8, 0x10]);
    lemma_told(
        record,
        0,
        0x0000,
        DataElementV::UnsignedInteger { value: 0x0001_0001, size: 4 },
    );
    assert(record[1].value->Sequence_0 =~= seq![uuid(0x11, 0x24)]);
    lemma_told(record, 1, 0x0001, list(seq![uuid(0x11, 0x24)]));
    assert(record[3].value->Sequence_0 =~= seq![uuid(0x10, 0x02)]);
    lemma_told(record, 3, 0x0005, list(seq![uuid(0x10, 0x02)]));
    let language = seq![short(0x656E), short(0x006A), short(0x0100)];
    assert(record[4].value->Sequence_0 =~= language);
    lemma_told(record, 4, 0x0006, list(language));
    let profile = record[third];
    assert(profile == profile_entries(policy)[0]);
    let pair = seq![uuid(0x11, 0x24), short(policy.bluetooth_profile_version as int)];
    assert(profile.value->Sequence_0[0]->Sequence_0 =~= pair);
    assert(profile.value->Sequence_0 =~= seq![list(pair)]);
    lemma_told(record, third, 0x0009, list(seq![list(pair)]));
    lemma_told(
        record,
        5,
        0x0100,
        DataElementV::TextString(encode_utf8(policy.service_name@)),
    );
}

proof fn lemma_silent_sum(left: Seq<ServiceAttributeV>, right: Seq<ServiceAttributeV>, id: u16)
    requires
        silent_on(left, id),
        silent_on(right, id),
    ensures
        silent_on(left + right, id),
{
    assert forall|i: int| 0 <= i < (left + right).len() implies (#[trigger] (left + right)[i]).id
        != id by {
        if i < left.len() {
            assert(left[i].id != id);
        } else {
            assert(right[i - left.len()].id != id);
        }
    }
}

/// A record says nothing under an identifier that none of its parts has.
proof fn lemma_silent(descriptor: Seq<u8>, policy: HidSdpPolicy, id: u16)
    requires
        id == 0x0101 || id == 0x0102 || id == 0x0200 || id == 0x020A,
        id == 0x0101 ==> policy.service_description is None,
        id == 0x0102 ==> policy.provider_name is None,
        id == 0x0200 ==> policy.device_release_number is None,
        id == 0x020A ==> policy.remote_wake is None,
    ensures
        silent_on(hid_record(descriptor, policy), id),
{
    let one = identity_entries(policy);
    let two = optional_text(0x0101, policy.service_description);
    let three = optional_text(0x0102, policy.provider_name);
    let four = profile_entries(policy);
    let five = release_entries(policy);
    let six = device_entries(descriptor, policy);
    let seven = wake_entries(policy);
    let eight = link_entries(policy);
    assert(silent_on(one, id));
    assert(silent_on(two, id));
    assert(silent_on(three, id));
    assert(silent_on(four, id));
    assert(silent_on(five, id));
    assert(silent_on(six, id));
    assert(silent_on(seven, id));
    assert(silent_on(eight, id));
    lemma_silent_sum(one, two, id);
    lemma_silent_sum(one + two, three, id);
    lemma_silent_sum(one + two + three, four, id);
    lemma_silent_sum(one + two + three + four, five, id);
    lemma_silent_sum(one + two + three + four + five, six, id);
    lemma_silent_sum(one + two + three + four + five + six, seven, id);
    lemma_silent_sum(one + two + three + four + five + six + seven, eight, id);
}

/// The record has a description, a provider, a release number and a word on
/// remote wake-up exactly where the policy gives them, and then those.
pub proof fn record_leaves_open_what_the_policy_leaves_open(
    descriptor: Seq<u8>,
    policy: HidSdpPolicy,
)
    ensures
        ({
            let record = hid_record(descriptor, policy);
            &&& match policy.service_description {
                Some(text) => tells(record, 0x0101, DataElementV::TextString(encode_utf8(text@))),
                None => silent_on(record, 0x0101),
            }
            &&& match policy.provider_name {
                Some(text) => tells(record, 0x0102, DataElementV::TextString(encode_utf8(text@))),
                None => silent_on(record, 0x0102),
            }
            &&& match policy.device_release_number {
                Some(number) => tells(record, 0x0200, short(number as int)),
                None => silent_on(record, 0x0200),
            }
            &&& match policy.remote_wake {
                Some(wake) => tells(record, 0x020A, DataElementV::Boolean(wake)),
                None => silent_on(record, 0x020A),
            }
        }),
{
    let record = hid_record(descriptor, policy);
    lemma_parts(descriptor, policy);
    let described = optional_text(0x0101, policy.service_description);
    let provided = optional_text(0x0102, policy.provider_name);
    let released = release_entries(policy);
    let woken = wake_entries(policy);
    let second: int = 6int + described.len();
    let fourth: int = second + provided.len() + 2;
    let sixth: int = fourth + released.len() + 7;
    if described.len() > 0 {
        assert(record[6int + 0] == described[0]);
        lemma_told(record, 6, 0x0101, described[0].value);
    } else {
        lemma_silent(descriptor, policy, 0x0101);
    }
    if provided.len() > 0 {
        assert(record[second + 0] == provided[0]);
        lemma_told(record, second, 0x0102, provided[0].value);
    } else {
        lemma_silent(descriptor, policy, 0x0102);
    }
    if released.len() > 0 {
        assert(record[fourth + 0] == released[0]);
        lemma_told(record, fourth, 0x0200, released[0].value);
    } else {
        lemma_silent(descriptor, policy, 0x0200);
    }
    if woken.len() > 0 {
        assert(record[sixth + 0] == woken[0]);
        lemma_told(record, sixth, 0x020A, woken[0].value);
    } else {
        lemma_silent(descriptor, policy, 0x020A);
    }
}

/// The record says of the device what the policy says, each under its own
/// identifier, and holds the report descriptor as the one of class 0x22.
pub proof fn record_describes_the_device(descriptor: Seq<u8>, policy: HidSdpPolicy)
    ensures
        ({
            let record = hid_record(descriptor, policy);
            &&& tells(record, 0x0201, short(policy.parser_version as int))
            &&& tells(record, 0x0202, octet(policy.device_subclass as int))
            &&& tells(record, 0x0203, octet(policy.country_code as int))
            &&& tells(record, 0x0204, DataElementV::Boolean(policy.virtual_cable))
            &&& tells(record, 0x0205, DataElementV::Boolean(policy.reconnect_initiate))
            &&& tells(
                record,
                0x0206,
                list(seq![list(seq![octet(0x22), DataElementV::TextString(descriptor)])]),
            )
            &&& tells(record, 0x0207, list(seq![list(seq![short(0x0409), short(0x0100)])]))
        }),
{
    let record = hid_record(descriptor, policy);
    lemma_parts(descriptor, policy);
    let at: int = 8int + optional_text(0x0101, policy.service_description).len() + optional_text(
        0x0102,
        policy.provider_name,
    ).len() + release_entries(policy).len();
    let device = device_entries(descriptor, policy);
    let report = seq![octet(0x22), DataElementV::TextString(descriptor)];
    assert(device[5].value->Sequence_0[0]->Sequence_0 =~= report);
    assert(device[5].value->Sequence_0 =~= seq![list(report)]);
    let language = seq![short(0x0409), short(0x0100)];
    assert(device[6].value->Sequence_0[0]->Sequence_0 =~= language);
    assert(device[6].value->Sequence_0 =~= seq![list(language)]);
    assert(record[at + 0] == device[0]);
    lemma_told(record, at, 0x0201, device[0].value);
    assert(record[at + 1] == device[1]);
    lemma_told(record, at + 1, 0x0202, device[1].value);
    assert(record[at + 2] == device[2]);
    lemma_told(record, at + 2, 0x0203, device[2].value);
    assert(record[at + 3] == device[3]);
    lemma_told(record, at + 3, 0x0204, device[3].value);
    assert(record[at + 4] == device[4]);
    lemma_told(record, at + 4, 0x0205, device[4].value);
    assert(record[at + 5] == device[5]);
    lemma_told(record, at + 5, 0x0206, device[5].value);
    assert(record[at + 6] == device[6]);
    lemma_told(record, at + 6, 0x0207, device[6].value);
}

/// The record says of the link what the policy says, each under its own
/// identifier.
pub proof fn record_describes_the_link(descriptor: Seq<u8>, policy: HidSdpPolicy)
    ensures
        ({
            let record = hid_record(descriptor, policy);
            &&& tells(record, 0x020B, short(policy.profile_version as int))
            &&& tells(record, 0x020C, short(policy.supervision_timeout as int))
            &&& tells(record, 0x020D, DataElementV::Boolean(policy.normally_connectable))
            &&& tells(record, 0x020E, DataElementV::Boolean(policy.boot_device))
            &&& tells(record, 0x020F, short(policy.ssr_host_max_latency as int))
            &&& tells(record, 0x0210, short(policy.ssr_host_min_timeout as int))
        }),
{
    let record = hid_record(descriptor, policy);
    lemma_parts(descriptor, policy);
    let at: int = 15int + optional_text(0x0101, policy.service_description).len() + optional_text(
        0x0102,
        policy.provider_name,
    ).len() + release_entries(policy).len() + wake_entries(policy).len();
    let link = link_entries(policy);
    assert(record[at + 0] == link[0]);
    lemma_told(record, at, 0x020B, link[0].value);
    assert(record[at + 1] == link[1]);
    lemma_told(record, at + 1, 0x020C, link[1].value);
    assert(record[at + 2] == link[2]);
    lemma_told(record, at + 2, 0x020D, link[2].value);
    assert(record[at + 3] == link[3]);
    lemma_told(record, at + 3, 0x020E, link[3].value);
    assert(record[at + 4] == link[4]);
    lemma_told(record, at + 4, 0x020F, link[4].value);
    assert(record[at + 5] == link[5]);
    lemma_told(record, at + 5, 0x0210, link[5].value);
}

/// What a device's answer to a request is on the wire.
pub open spec fn sends(events: Seq<DeviceEventV>, bytes: Seq<u8>) -> bool {
    events.len() == 1 && (events[0] matches DeviceEventV::SendControl(message)
        && message.encode() == Ok::<Seq<u8>, Error>(bytes))
}

/// A request for a report is answered by a data message with the report's kind
/// and identifier in front of what the delegate gave, where that is shorter than
/// the peer's MTU with both bytes in front; otherwise by a handshake: invalid
/// report identifier, unsupported request, invalid parameter or unknown.
pub proof fn report_request_is_answered(
    kind: u8,
    id: u8,
    size: Option<(u8, u8)>,
    answer: GetSetStatusV,
    mtu: int,
)
    requires
        kind <= 3,
    ensures
        ({
            let bytes = match size {
                None => seq![(0x40 + kind) as u8, id],
                Some((low, high)) => seq![(0x48 + kind) as u8, id, low, high],
            };
            &&& MessageV::decode(bytes) == Ok::<MessageV, Error>(
                MessageV::GetReport {
                    report_type: ReportType(kind),
                    report_id: id,
                    buffer_size: match size {
                        None => None,
                        Some((low, high)) => Some((low + 256 * high) as u16),
                    },
                },
            )
            &&& sends(
                control_events(MessageV::decode(bytes)->Ok_0, answer, mtu),
                match answer.status.0 {
                    0xFF => if answer.data.len() + 2 <= mtu {
                        seq![(0xA0 + kind) as u8, id] + answer.data
                    } else {
                        seq![0x04u8]
                    },
                    0x01 => seq![0x02u8],
                    0x02 => seq![0x03u8],
                    0x04 => seq![0x04u8],
                    _ => seq![0x0Eu8],
                },
            )
        }),
{
    let bytes = match size {
        None => seq![(0x40 + kind) as u8, id],
        Some((low, high)) => seq![(0x48 + kind) as u8, id, low, high],
    };
    let message = MessageV::decode(bytes)->Ok_0;
    let events = control_events(message, answer, mtu);
    let sent = events[0]->SendControl_0;
    if answer.status.0 == 0xFF && answer.data.len() + 2 <= mtu {
        assert(sent.encode()->Ok_0 =~= seq![(0xA0 + kind) as u8, id] + answer.data);
    } else {
        assert(sent.encode()->Ok_0 =~= seq![sent->Handshake_0.0]);
    }
}

/// A report that the host sets is answered by a handshake, after what the
/// delegate said of it. The protocol that the device is asked for is what the
/// delegate gave, or an unsupported request; the protocol that it is given is
/// taken or unsupported.
pub proof fn settings_are_answered(
    kind: u8,
    id: u8,
    data: Seq<u8>,
    mode: u8,
    answer: GetSetStatusV,
    mtu: int,
)
    requires
        kind <= 3,
        mode <= 1,
    ensures
        ({
            let set = seq![(0x50 + kind) as u8, id] + data;
            &&& MessageV::decode(set) == Ok::<MessageV, Error>(
                MessageV::SetReport { report_type: ReportType(kind), data: seq![id] + data },
            )
            &&& sends(
                control_events(MessageV::decode(set)->Ok_0, answer, mtu),
                match answer.status.0 {
                    0xFF => seq![0x00u8],
                    0x01 => seq![0x02u8],
                    0x04 => seq![0x04u8],
                    _ => seq![0x03u8],
                },
            )
        }),
        MessageV::decode(seq![0x60u8]) == Ok::<MessageV, Error>(MessageV::GetProtocol),
        sends(
            control_events(MessageV::GetProtocol, answer, mtu),
            if answer.status.0 == 0xFF {
                seq![0xA0u8] + answer.data
            } else {
                seq![0x03u8]
            },
        ),
        MessageV::decode(seq![(0x70 + mode) as u8]) == Ok::<MessageV, Error>(
            MessageV::SetProtocol(ProtocolMode(mode)),
        ),
        sends(
            control_events(MessageV::SetProtocol(ProtocolMode(mode)), answer, mtu),
            if answer.status.0 == 0xFF {
                seq![0x00u8]
            } else {
                seq![0x03u8]
            },
        ),
{
    let set = seq![(0x50 + kind) as u8, id] + data;
    assert(set.skip(1) =~= seq![id] + data);
    let sent = control_events(MessageV::decode(set)->Ok_0, answer, mtu)[0]->SendControl_0;
    assert(sent.encode()->Ok_0 =~= seq![sent->Handshake_0.0]);
    let told = control_events(MessageV::GetProtocol, answer, mtu)[0]->SendControl_0;
    if answer.status.0 == 0xFF {
        assert(told.encode()->Ok_0 =~= seq![0xA0u8] + answer.data);
    } else {
        assert(told.encode()->Ok_0 =~= seq![0x03u8]);
    }
    let given = MessageV::SetProtocol(ProtocolMode(mode));
    let taken = control_events(given, answer, mtu)[0]->SendControl_0;
    assert(taken.encode()->Ok_0 =~= seq![taken->Handshake_0.0]);
}

proof fn lemma_translated_one(channel: Channel, event: DeviceEventV, mtu: usize)
    ensures
        translated(channel, seq![event], mtu) == match translated_event(channel, event, mtu) {
            Ok(made) => Ok::<Seq<HidpBridgeEventV>, HidpBridgeError>(seq![made]),
            Err(error) => Err(error),
        },
{
    reveal_with_fuel(translated, 2);
    let events = seq![event];
    assert(events.drop_last() =~= Seq::<DeviceEventV>::empty());
    if let Ok(made) = translated_event(channel, event, mtu) {
        assert(Seq::<HidpBridgeEventV>::empty().push(made) =~= seq![made]);
    }
}

/// A refusal of one byte for the peer.
pub open spec fn refusal(code: u8) -> HidpBridgeEventV {
    HidpBridgeEventV::ControlResponse(seq![code])
}

/// The session's device supports no request: each that can be read is answered
/// by the handshake for an unsupported request.
pub proof fn requests_are_called_unsupported(
    kind: u8,
    id: u8,
    size: Option<(u8, u8)>,
    data: Seq<u8>,
    mode: u8,
    mtu: usize,
)
    requires
        kind <= 3,
        mode <= 1,
        mtu >= 1,
    ensures
        ({
            let get = match size {
                None => seq![(0x40 + kind) as u8, id],
                Some((low, high)) => seq![(0x48 + kind) as u8, id, low, high],
            };
            let set = seq![(0x50 + kind) as u8, id] + data;
            let answer = Ok::<Seq<HidpBridgeEventV>, HidpBridgeError>(seq![refusal(0x03)]);
            &&& message_handled(Channel::Control, get, mtu) == answer
            &&& message_handled(Channel::Control, set, mtu) == answer
            &&& message_handled(Channel::Control, seq![0x60u8], mtu) == answer
            &&& message_handled(Channel::Control, seq![(0x70 + mode) as u8], mtu) == answer
        }),
{
    let answer = crate::hidp::unsupported_answer();
    report_request_is_answered(kind, id, size, answer, 0);
    settings_are_answered(kind, id, data, mode, answer, 0);
    let get = match size {
        None => seq![(0x40 + kind) as u8, id],
        Some((low, high)) => seq![(0x48 + kind) as u8, id, low, high],
    };
    let set = seq![(0x50 + kind) as u8, id] + data;
    lemma_refused(get, mtu);
    lemma_refused(set, mtu);
    lemma_refused(seq![0x60u8], mtu);
    lemma_refused(seq![(0x70 + mode) as u8], mtu);
}

proof fn lemma_refused(bytes: Seq<u8>, mtu: usize)
    requires
        mtu >= 1,
        device_events(Channel::Control, bytes) matches Ok(events) && sends(events, seq![0x03u8]),
    ensures
        message_handled(Channel::Control, bytes, mtu) == Ok::<
            Seq<HidpBridgeEventV>,
            HidpBridgeError,
        >(seq![refusal(0x03)]),
{
    let events = device_events(Channel::Control, bytes)->Ok_0;
    assert(events =~= seq![events[0]]);
    lemma_translated_one(Channel::Control, events[0], mtu);
}

/// The three commands of the control channel are told apart, and any other is
/// passed on as unsupported, without an answer.
pub proof fn control_commands_are_told_apart(command: u8, mtu: usize)
    requires
        command <= 15,
    ensures
        message_handled(Channel::Control, seq![(0x10 + command) as u8], mtu) == Ok::<
            Seq<HidpBridgeEventV>,
            HidpBridgeError,
        >(
            seq![
                match command {
                    3 => HidpBridgeEventV::Suspend,
                    4 => HidpBridgeEventV::Resume,
                    5 => HidpBridgeEventV::VirtualCableUnplug,
                    _ => HidpBridgeEventV::Unsupported { channel: Channel::Control },
                },
            ],
        ),
{
    let bytes = seq![(0x10 + command) as u8];
    let events = device_events(Channel::Control, bytes)->Ok_0;
    assert(events =~= seq![events[0]]);
    lemma_translated_one(Channel::Control, events[0], mtu);
}

/// Reports of the peer: output reports reach the application whole, with the
/// channel that they came on; reports of any other kind are unsupported.
pub proof fn reports_of_the_peer_are_told_apart(
    channel: Channel,
    kind: u8,
    data: Seq<u8>,
    mtu: usize,
)
    requires
        kind <= 3,
    ensures
        message_handled(channel, seq![(0xA0 + kind) as u8] + data, mtu) == Ok::<
            Seq<HidpBridgeEventV>,
            HidpBridgeError,
        >(
            seq![
                if kind == 2 {
                    HidpBridgeEventV::Output { channel, payload: data }
                } else {
                    HidpBridgeEventV::Unsupported { channel }
                },
            ],
        ),
{
    let bytes = seq![(0xA0 + kind) as u8] + data;
    assert(bytes.skip(1) =~= data);
    let events = device_events(channel, bytes)->Ok_0;
    assert(events =~= seq![events[0]]);
    lemma_translated_one(channel, events[0], mtu);
}

/// A message of a kind that is not known to devices, and a handshake, are
/// unsupported: on the control channel the peer is told so, on the interrupt
/// channel it is not.
pub proof fn unknown_messages_are_unsupported(kind: u8, parameter: u8, data: Seq<u8>, mtu: usize)
    requires
        parameter <= 15,
        kind == 0 && data.len() == 0 || kind == 2 || kind == 3 || kind == 8 || kind == 9 || 11
            <= kind <= 15,
        mtu >= 1,
    ensures
        ({
            let bytes = seq![(16 * kind + parameter) as u8] + data;
            &&& message_handled(Channel::Control, bytes, mtu) == Ok::<
                Seq<HidpBridgeEventV>,
                HidpBridgeError,
            >(
                seq![
                    HidpBridgeEventV::Unsupported { channel: Channel::Control },
                    refusal(0x03),
                ],
            )
            &&& message_handled(Channel::Interrupt, bytes, mtu) == Ok::<
                Seq<HidpBridgeEventV>,
                HidpBridgeError,
            >(seq![HidpBridgeEventV::Unsupported { channel: Channel::Interrupt }])
        }),
{
    let bytes = seq![(16 * kind + parameter) as u8] + data;
    assert(bytes.skip(1) =~= data);
    let events = device_events(Channel::Control, bytes)->Ok_0;
    let first = events[0];
    let second = events[1];
    assert(events.drop_last() =~= seq![first]);
    lemma_translated_one(Channel::Control, first, mtu);
    assert(second->SendControl_0.encode()->Ok_0 =~= seq![0x03u8]);
    assert(translated(Channel::Control, events, mtu)->Ok_0 =~= seq![
        HidpBridgeEventV::Unsupported { channel: Channel::Control },
        refusal(0x03),
    ]);
    let others = device_events(Channel::Interrupt, bytes)->Ok_0;
    assert(others =~= seq![others[0]]);
    lemma_translated_one(Channel::Interrupt, others[0], mtu);
}

/// Messages that cannot be read are refused as malformed, on the channel that
/// they came on: an empty one, a report to set without an identifier, a request
/// for a report that is too short or too long, and bytes behind a message that
/// has none.
pub proof fn malformed_messages_are_refused(channel: Channel, kind: u8, rest: Seq<u8>, mtu: usize)
    requires
        kind <= 15,
    ensures
        ({
            let malformed = Err::<Seq<HidpBridgeEventV>, HidpBridgeError>(
                HidpBridgeError::Malformed { channel },
            );
            &&& message_handled(channel, seq![], mtu) == malformed
            &&& message_handled(Channel::Control, seq![(0x50 + kind) as u8], mtu) == Err::<
                Seq<HidpBridgeEventV>,
                HidpBridgeError,
            >(HidpBridgeError::Malformed { channel: Channel::Control })
            &&& rest.len() > 0 ==> {
                &&& message_handled(channel, seq![kind] + rest, mtu) == malformed
                &&& message_handled(channel, seq![(0x10 + kind) as u8] + rest, mtu) == malformed
                &&& message_handled(channel, seq![(0x60 + kind) as u8] + rest, mtu) == malformed
                &&& message_handled(channel, seq![(0x70 + kind) as u8] + rest, mtu) == malformed
            }
            &&& kind < 8 && rest.len() != 1 || kind >= 8 && rest.len() != 3 ==> message_handled(
                channel,
                seq![(0x40 + kind) as u8] + rest,
                mtu,
            ) == malformed
        }),
{
    assert((seq![kind] + rest).skip(1) =~= rest);
    assert((seq![(0x10 + kind) as u8] + rest).skip(1) =~= rest);
    assert((seq![(0x60 + kind) as u8] + rest).skip(1) =~= rest);
    assert((seq![(0x70 + kind) as u8] + rest).skip(1) =~= rest);
    assert((seq![(0x40 + kind) as u8] + rest).skip(1) =~= rest);
}

/// The bytes of a report that a device sends: 0xA1 and the report, where that
/// fits the peer's MTU. A report that does not fit is refused.
pub proof fn reports_of_the_device_fit_the_peer(payload: Seq<u8>, mtu: usize)
    ensures
        payload.len() < mtu ==> written(Channel::Interrupt, input_report(payload), mtu) == Ok::<
            Seq<u8>,
            HidpBridgeError,
        >(seq![0xA1u8] + payload),
        payload.len() >= mtu ==> written(Channel::Interrupt, input_report(payload), mtu) is Err,
{
    assert(input_report(payload).encode()->Ok_0 =~= seq![0xA1u8] + payload);
}

/// What a host sends, byte for byte.
pub proof fn host_messages_have_their_bytes(
    kind: u8,
    id: u8,
    low: u8,
    high: u8,
    data: Vec<u8>,
    mode: u8,
    message: Message,
)
    requires
        kind <= 3,
        mode <= 1,
    ensures
        call_ensures(HostRuntime::get_report, (ReportType(kind), id, None), message)
            ==> message@.encode() == Ok::<Seq<u8>, Error>(seq![(0x40 + kind) as u8, id]),
        call_ensures(
            HostRuntime::get_report,
            (ReportType(kind), id, Some((low + 256 * high) as u16)),
            message,
        ) ==> message@.encode() == Ok::<Seq<u8>, Error>(
            seq![(0x48 + kind) as u8, id, low, high],
        ),
        call_ensures(HostRuntime::set_report, (ReportType(kind), data), message)
            ==> message@.encode() == Ok::<Seq<u8>, Error>(seq![(0x50 + kind) as u8] + data@),
        call_ensures(HostRuntime::get_protocol, (), message) ==> message@.encode() == Ok::<
            Seq<u8>,
            Error,
        >(seq![0x60u8]),
        call_ensures(HostRuntime::set_protocol, (ProtocolMode(mode),), message)
            ==> message@.encode() == Ok::<Seq<u8>, Error>(seq![(0x70 + mode) as u8]),
        call_ensures(HostRuntime::suspend, (), message) ==> message@.encode() == Ok::<
            Seq<u8>,
            Error,
        >(seq![0x13u8]),
        call_ensures(HostRuntime::exit_suspend, (), message) ==> message@.encode() == Ok::<
            Seq<u8>,
            Error,
        >(seq![0x14u8]),
        call_ensures(HostRuntime::virtual_cable_unplug, (), message) ==> message@.encode() == Ok::<
            Seq<u8>,
            Error,
        >(seq![0x15u8]),
        call_ensures(HostRuntime::send_data, (data,), message) ==> message@.encode() == Ok::<
            Seq<u8>,
            Error,
        >(seq![0xA2u8] + data@),
        call_ensures(device_data, (data,), message) ==> message@.encode() == Ok::<Seq<u8>, Error>(
            seq![0xA1u8] + data@,
        ),
{
    assert(0x08u8 | kind == 8 + kind) by (bit_vector)
        requires
            kind <= 3,
    ;
    if call_ensures(HostRuntime::get_report, (ReportType(kind), id, None), message) {
        assert(message@.encode()->Ok_0 =~= seq![(0x40 + kind) as u8, id]);
    }
    if call_ensures(
        HostRuntime::get_report,
        (ReportType(kind), id, Some((low + 256 * high) as u16)),
        message,
    ) {
        assert(message@.encode()->Ok_0 =~= seq![(0x48 + kind) as u8, id, low, high]);
    }
    if call_ensures(HostRuntime::set_report, (ReportType(kind), data), message) {
        assert(message@.encode()->Ok_0 =~= seq![(0x50 + kind) as u8] + data@);
    }
    if call_ensures(HostRuntime::get_protocol, (), message) {
        assert(message@.encode()->Ok_0 =~= seq![0x60u8]);
    }
    if call_ensures(HostRuntime::set_protocol, (ProtocolMode(mode),), message) {
        assert(message@.encode()->Ok_0 =~= seq![(0x70 + mode) as u8]);
    }
    if call_ensures(HostRuntime::suspend, (), message) {
        assert(message@.encode()->Ok_0 =~= seq![0x13u8]);
    }
    if call_ensures(HostRuntime::exit_suspend, (), message) {
        assert(message@.encode()->Ok_0 =~= seq![0x14u8]);
    }
    if call_ensures(HostRuntime::virtual_cable_unplug, (), message) {
        assert(message@.encode()->Ok_0 =~= seq![0x15u8]);
    }
    if call_ensures(HostRuntime::send_data, (data,), message) {
        assert(message@.encode()->Ok_0 =~= seq![0xA2u8] + data@);
    }
    if call_ensures(device_data, (data,), message) {
        assert(message@.encode()->Ok_0 =~= seq![0xA1u8] + data@);
    }
}

/// What a host learns from a device: a handshake and its code, a report and its
/// kind on either channel, and the end of the virtual cable.
pub proof fn host_learns_what_the_device_says(
    code: u8,
    kind: u8,
    bytes: &[u8],
    event: HostEvent,
)
    requires
        code <= 15,
        kind <= 3,
    ensures
        call_ensures(HostRuntime::handle_control, (bytes,), Ok::<HostEvent, Error>(event)) ==> {
            &&& bytes@ == seq![code] ==> (event@ matches HostEventV::Handshake(told) && told.0
                == code)
            &&& bytes@ == seq![0x15u8] ==> event@ is VirtualCableUnplug
            &&& bytes@.len() > 0 && bytes@[0] == 0xA0 + kind ==> (
            event@ matches HostEventV::ControlData { report_type, data } && report_type.0 == kind
                && data == bytes@.skip(1))
        },
        call_ensures(HostRuntime::handle_interrupt, (bytes,), Ok::<HostEvent, Error>(event)) ==> {
            &&& bytes@.len() > 0 && bytes@[0] == 0xA0 + kind ==> (
            event@ matches HostEventV::InterruptData { report_type, data } && report_type.0 == kind
                && data == bytes@.skip(1))
            &&& bytes@.len() > 0 && bytes@[0] / 16 != 0x0A ==> event@ is Unsupported
        },
{
}

/// What a delegate is asked for is what the host's bytes say: a report by its kind,
/// its identifier and the room for it; a report to take by its kind and its
/// identifier, with what comes behind the identifier and a size that counts the
/// identifier too; the protocol; and a protocol to take.
pub proof fn delegate_is_asked_what_the_host_says(
    kind: u8,
    id: u8,
    low: u8,
    high: u8,
    report: Seq<u8>,
    mode: u8,
)
    requires
        kind <= 3,
        mode <= 1,
        report.len() < usize::MAX,
    ensures
        asked_by(seq![(0x40 + kind) as u8, id]) == Some(
            RequestV::GetReport {
                report_id: id,
                report_type: ReportType(kind),
                buffer_size: None,
            },
        ),
        asked_by(seq![(0x48 + kind) as u8, id, low, high]) == Some(
            RequestV::GetReport {
                report_id: id,
                report_type: ReportType(kind),
                buffer_size: Some((low + 256 * high) as u16),
            },
        ),
        asked_by(seq![(0x50 + kind) as u8, id] + report) == Some(
            RequestV::SetReport {
                report_id: id,
                report_type: ReportType(kind),
                report_size: (report.len() + 1) as usize,
                data: report,
            },
        ),
        asked_by(seq![0x60u8]) == Some(RequestV::GetProtocol),
        asked_by(seq![(0x70 + mode) as u8]) == Some(RequestV::SetProtocol(ProtocolMode(mode))),
{
    let set = seq![(0x50 + kind) as u8, id] + report;
    assert(set.skip(1).skip(1) =~= report);
}

/// What a delegate is asked for on account of some bytes.
pub open spec fn asked_by(bytes: Seq<u8>) -> Option<RequestV> {
    match MessageV::decode(bytes) {
        Ok(message) => request_of(message),
        Err(_) => None,
    }
}

/// A device on the interrupt channel: a report reaches it with its kind, any other
/// message is unsupported, and the delegate is not asked.
pub proof fn device_takes_reports_on_the_interrupt_channel<D: DeviceDelegate>(
    kind: u8,
    bytes: &[u8],
    event: DeviceEvent,
)
    requires
        kind <= 3,
    ensures
        forall|device: &mut DeviceRuntime<D>|
            #[trigger] call_ensures(
                DeviceRuntime::<D>::handle_interrupt,
                (device, bytes),
                Ok::<DeviceEvent, Error>(event),
            ) ==> {
                &&& *final(device) == *device
                &&& bytes@.len() > 0
                &&& bytes@[0] == 0xA0 + kind ==> (
                event@ matches DeviceEventV::InterruptData { report_type, data } && report_type.0
                    == kind && data == bytes@.skip(1))
                &&& bytes@[0] / 16 != 0x0A ==> event@ is Unsupported
            },
{
}

} // verus!
