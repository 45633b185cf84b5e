use swbt_bumble_backend::hid_service::{
    build_hid_service_record, HidSdpChannel, HidpBridge, HidpBridgeError, HidpBridgeEvent,
    HID_SERVICE_RECORD_HANDLE,
};
use swbt_bumble_backend::sdp::attribute::ServiceAttribute;
use swbt_bumble_backend::sdp::element::DataElement;
use swbt_bumble_backend::sdp::error_code;
use swbt_bumble_backend::sdp::pdu::SdpPdu;
use swbt_bumble_backend::{BluetoothUuid, Channel, HidSdpPolicy, HidServiceConfig};

fn policy() -> HidSdpPolicy {
    HidSdpPolicy {
        service_name: "Wireless Gamepad".into(),
        service_description: None,
        provider_name: None,
        device_release_number: None,
        bluetooth_profile_version: 0x0101,
        parser_version: 0x0111,
        device_subclass: 8,
        country_code: 0,
        virtual_cable: true,
        reconnect_initiate: true,
        remote_wake: None,
        profile_version: 0x0101,
        supervision_timeout: 0x0C80,
        normally_connectable: true,
        boot_device: false,
        ssr_host_max_latency: 0x0640,
        ssr_host_min_timeout: 0x0320,
    }
}

fn ids(record: &[ServiceAttribute]) -> Vec<u16> {
    record.iter().map(|attribute| attribute.id).collect()
}

#[test]
fn record_has_what_the_policy_gives() {
    let plain = build_hid_service_record(&HidServiceConfig::new(vec![5, 1], policy()));
    assert_eq!(
        ids(&plain),
        [
            0x0000, 0x0001, 0x0004, 0x0005, 0x0006, 0x0100, 0x0009, 0x000D, 0x0201, 0x0202, 0x0203,
            0x0204, 0x0205, 0x0206, 0x0207, 0x020B, 0x020C, 0x020D, 0x020E, 0x020F, 0x0210,
        ]
    );
    let full = build_hid_service_record(&HidServiceConfig::new(
        vec![5, 1],
        HidSdpPolicy {
            service_description: Some("pad".into()),
            provider_name: Some("maker".into()),
            device_release_number: Some(0x0100),
            remote_wake: Some(true),
            ..policy()
        },
    ));
    assert_eq!(full.len(), plain.len() + 4);
    assert_eq!(
        ServiceAttribute::find(&full, 0x0101),
        Some(&DataElement::text_string(b"pad".to_vec()))
    );
    assert_eq!(
        ServiceAttribute::find(&full, 0x0200),
        Some(&DataElement::unsigned_integer_16(0x0100))
    );
    assert_eq!(
        ServiceAttribute::find(&full, 0x020A),
        Some(&DataElement::boolean(true))
    );
    assert_eq!(
        ServiceAttribute::find(&full, 0x0206),
        Some(&DataElement::sequence(vec![DataElement::sequence(vec![
            DataElement::unsigned_integer_8(0x22),
            DataElement::text_string(vec![5, 1]),
        ])]))
    );
    assert_eq!(
        ServiceAttribute::find(&full, 0x0000),
        Some(&DataElement::unsigned_integer_32(HID_SERVICE_RECORD_HANDLE))
    );
}

#[test]
fn discovery_finds_the_service_and_refuses_what_it_cannot_read() {
    let config = HidServiceConfig::new(vec![5, 1], policy());
    let mut channel = HidSdpChannel::new(&config, 512);
    let request = SdpPdu::ServiceSearchRequest {
        transaction_id: 0x0102,
        service_search_pattern: DataElement::sequence(vec![DataElement::uuid(
            BluetoothUuid::from_u16(0x1124),
        )]),
        maximum_service_record_count: 10,
        continuation_state: vec![0],
    }
    .to_bytes()
    .unwrap();
    let answer = SdpPdu::from_bytes(&channel.handle_sdu(&request).unwrap()).unwrap();
    assert!(matches!(
        answer,
        SdpPdu::ServiceSearchResponse {
            transaction_id: 0x0102,
            total_service_record_count: 1,
            service_record_handle_list,
            ..
        } if service_record_handle_list == [HID_SERVICE_RECORD_HANDLE]
    ));

    assert_eq!(channel.handle_sdu(&[2, 1]), None);
    for bad in [&[2u8, 0, 7][..], &[2, 0, 7, 0, 9], &[0x66, 0, 7, 0, 0]] {
        let refusal = SdpPdu::ErrorResponse {
            transaction_id: 7,
            error_code: error_code::INVALID_REQUEST_SYNTAX,
        };
        assert_eq!(
            channel.handle_sdu(bad).unwrap(),
            refusal.to_bytes().unwrap()
        );
    }
}

#[test]
fn bridge_hands_on_output_reports_only() {
    let mut bridge = HidpBridge::new(64, 64);
    for channel in [Channel::Control, Channel::Interrupt] {
        assert_eq!(
            bridge.handle(channel, &[0xA2, 1, 2]).unwrap(),
            [HidpBridgeEvent::Output {
                channel,
                payload: vec![1, 2]
            }]
        );
        assert_eq!(
            bridge.handle(channel, &[0xA1, 1, 2]).unwrap(),
            [HidpBridgeEvent::Unsupported { channel }]
        );
        assert_eq!(
            bridge.handle(channel, &[]).unwrap_err(),
            HidpBridgeError::Malformed { channel }
        );
    }
    assert_eq!(
        bridge.handle(Channel::Control, &[0x13]).unwrap(),
        [HidpBridgeEvent::Suspend]
    );
    assert_eq!(
        bridge.handle(Channel::Control, &[0x14]).unwrap(),
        [HidpBridgeEvent::Resume]
    );
    assert_eq!(
        bridge.handle(Channel::Control, &[0x15]).unwrap(),
        [HidpBridgeEvent::VirtualCableUnplug]
    );
    assert_eq!(
        bridge.handle(Channel::Control, &[0x41, 1]).unwrap(),
        [HidpBridgeEvent::ControlResponse(vec![0x03])]
    );
}

#[test]
fn bridge_keeps_to_the_peer_mtu() {
    let mut bridge = HidpBridge::new(0, 3);
    assert_eq!(bridge.encode_input(&[1, 2]).unwrap(), [0xA1, 1, 2]);
    assert_eq!(
        bridge.encode_input(&[1, 2, 3]).unwrap_err(),
        HidpBridgeError::PeerMtuExceeded {
            channel: Channel::Interrupt,
            encoded_len: 4,
            peer_mtu: 3
        }
    );
    assert_eq!(
        bridge.invalid_parameter_response().unwrap_err(),
        HidpBridgeError::PeerMtuExceeded {
            channel: Channel::Control,
            encoded_len: 1,
            peer_mtu: 0
        }
    );
    bridge.set_peer_mtu(Channel::Control, 1);
    assert_eq!(bridge.invalid_parameter_response().unwrap(), [0x04]);
    bridge.set_peer_mtu(Channel::Interrupt, 4);
    assert_eq!(bridge.encode_input(&[1, 2, 3]).unwrap().len(), 4);
}
