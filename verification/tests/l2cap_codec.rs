use swbt_bumble_backend::l2cap::classic::ChannelManager;
use swbt_bumble_backend::l2cap::ertm::{
    EnhancedControlField, ErtmConfig, ErtmEngine, SegmentationAndReassembly, SupervisoryFunction,
};
use swbt_bumble_backend::l2cap::{
    crc_16, decode_configuration_options, encode_configuration_options, parse_psm, serialize_psm,
    ConfigurationOption, ControlFrame, InformationCapabilities, L2capPdu,
};

#[test]
fn check_sequence_of_nine_digits() {
    assert_eq!(crc_16(b"123456789"), 0xBB3D);
    assert_eq!(crc_16(b""), 0);
}

#[test]
fn psms_mark_their_own_end() {
    assert_eq!(serialize_psm(0x0011), [0x11, 0x00]);
    assert_eq!(serialize_psm(0x1001), [0x01, 0x10]);
    assert_eq!(serialize_psm(0x0001_0301), [0x01, 0x03, 0x01]);
    for psm in [0x0001, 0x0011, 0x1001, 0x0002_0301, 0x0201_0301] {
        let bytes = serialize_psm(psm);
        assert_eq!(parse_psm(&bytes, 0).unwrap(), (bytes.len(), psm));
    }
    assert_eq!(
        parse_psm(&[0x01], 0).unwrap_err().message(),
        "invalid packet: not enough data for PSM"
    );
    assert_eq!(
        parse_psm(&[0x01, 0x03], 0).unwrap_err().message(),
        "invalid packet: truncated PSM"
    );
}

#[test]
fn signaling_frames_are_byte_exact_and_read_back() {
    let samples = [
        (
            ControlFrame::ConnectionRequest {
                identifier: 1,
                psm: 0x0011,
                source_cid: 0x0040,
            },
            vec![0x02, 1, 4, 0, 0x11, 0, 0x40, 0],
        ),
        (
            ControlFrame::ConnectionResponse {
                identifier: 1,
                destination_cid: 0x0041,
                source_cid: 0x0040,
                result: 2,
                status: 0,
            },
            vec![0x03, 1, 8, 0, 0x41, 0, 0x40, 0, 2, 0, 0, 0],
        ),
        (
            ControlFrame::ConfigureRequest {
                identifier: 2,
                destination_cid: 0x0041,
                flags: 0,
                options: vec![1, 2, 0xA0, 0x02],
            },
            vec![0x04, 2, 8, 0, 0x41, 0, 0, 0, 1, 2, 0xA0, 0x02],
        ),
        (
            ControlFrame::DisconnectionRequest {
                identifier: 3,
                destination_cid: 0x0041,
                source_cid: 0x0040,
            },
            vec![0x06, 3, 4, 0, 0x41, 0, 0x40, 0],
        ),
        (
            ControlFrame::EchoRequest {
                identifier: 4,
                data: vec![9, 8],
            },
            vec![0x08, 4, 2, 0, 9, 8],
        ),
        (
            ControlFrame::InformationRequest {
                identifier: 5,
                info_type: 2,
            },
            vec![0x0A, 5, 2, 0, 2, 0],
        ),
        (
            ControlFrame::CreditBasedReconfigureRequest {
                identifier: 6,
                mtu: 100,
                mps: 64,
                destination_cid: vec![0x0040, 0x0041],
            },
            vec![0x19, 6, 8, 0, 100, 0, 64, 0, 0x40, 0, 0x41, 0],
        ),
        (
            ControlFrame::Generic {
                code: 0x7F,
                identifier: 7,
                payload: vec![1],
            },
            vec![0x7F, 7, 1, 0, 1],
        ),
    ];
    for (frame, bytes) in samples {
        assert_eq!(frame.to_bytes(), bytes, "{frame:?}");
        assert_eq!(ControlFrame::from_bytes(&bytes).unwrap(), frame);
    }
    assert!(ControlFrame::from_bytes(&[0x02, 1, 4]).is_err());
    assert!(ControlFrame::from_bytes(&[0x0A, 5, 1, 0, 2]).is_err());
}

#[test]
fn configuration_options_read_back_with_their_hints() {
    let options = [
        ConfigurationOption::new(0x01, vec![0xA0, 0x02]),
        ConfigurationOption::hinted(0x05, vec![]),
    ];
    let bytes = encode_configuration_options(&options).unwrap();
    assert_eq!(bytes, [0x01, 2, 0xA0, 0x02, 0x85, 0]);
    assert_eq!(decode_configuration_options(&bytes).unwrap(), options);
    assert!(decode_configuration_options(&[0x01]).is_err());
    assert!(decode_configuration_options(&[0x01, 3, 0]).is_err());
    assert!(
        encode_configuration_options(&[ConfigurationOption::new(1, vec![0; 256])]).is_err()
    );
}

#[test]
fn echo_and_information_requests_are_answered() {
    let mut left = ChannelManager::new();
    let mut right = ChannelManager::new();
    let identifier = left.request_information(2);
    assert_eq!(identifier, 1);
    right.process_pdu(left.poll_outbound().unwrap()).unwrap();
    left.process_pdu(right.poll_outbound().unwrap()).unwrap();
    let response = left.poll_information_response().unwrap();
    assert_eq!(response.identifier, 1);
    assert_eq!(response.info_type, 2);
    assert_eq!(response.result, 0);
    assert_eq!(
        response.data,
        right
            .information_capabilities()
            .extended_features()
            .to_le_bytes()
    );
    assert!(left.drain_information_responses().is_empty());

    let echo = ControlFrame::EchoRequest {
        identifier: 9,
        data: vec![1, 2, 3],
    };
    right
        .process_pdu(L2capPdu::new(0x0001, echo.to_bytes()))
        .unwrap();
    assert_eq!(
        right.poll_outbound().unwrap().payload,
        [0x09, 9, 3, 0, 1, 2, 3]
    );
}

#[test]
fn fixed_channels_follow_registration() {
    let mut capabilities = InformationCapabilities::new(vec![0x0008, 0x0020]);
    assert_eq!(capabilities.extended_features(), 0x0028);
    capabilities.register_fixed_channel(7).unwrap();
    assert_eq!(capabilities.fixed_channels(), (1 << 1) | (1 << 7));
    assert!(capabilities.deregister_fixed_channel(7));
    assert!(!capabilities.deregister_fixed_channel(7));
    assert!(capabilities.register_fixed_channel(64).is_err());
    capabilities.set_connectionless_mtu(200);
    assert_eq!(capabilities.connectionless_mtu(), 200);
}

#[test]
fn control_fields_pack_their_bits() {
    let information = EnhancedControlField::Information {
        tx_seq: 5,
        final_bit: true,
        req_seq: 9,
        sar: SegmentationAndReassembly::Start,
    };
    assert_eq!(information.to_bytes().unwrap(), [0x8A, 0x49]);
    assert_eq!(
        EnhancedControlField::from_bytes(&[0x8A, 0x49]).unwrap(),
        information
    );
    let supervisory = EnhancedControlField::Supervisory {
        function: SupervisoryFunction::Reject,
        poll: true,
        final_bit: false,
        req_seq: 3,
    };
    assert_eq!(supervisory.to_bytes().unwrap(), [0x15, 0x03]);
    assert_eq!(
        EnhancedControlField::from_bytes(&[0x15, 0x03]).unwrap(),
        supervisory
    );
    assert!(EnhancedControlField::from_bytes(&[0x01]).is_err());
    assert!(EnhancedControlField::Supervisory {
        function: SupervisoryFunction::ReceiverReady,
        poll: false,
        final_bit: false,
        req_seq: 64,
    }
    .to_bytes()
    .is_err());
    assert!(SegmentationAndReassembly::try_from(4).is_err());
    assert!(SupervisoryFunction::try_from(4).is_err());
}

#[test]
fn engines_hand_segments_to_each_other() {
    let config = ErtmConfig {
        local_mps: 4,
        peer_mps: 4,
        tx_window_size: 10,
        ..ErtmConfig::default()
    };
    let mut sender = ErtmEngine::new(config).unwrap();
    let mut receiver = ErtmEngine::new(config).unwrap();
    sender.send_sdu(b"segmented").unwrap();
    assert_eq!(sender.pending_frames(), 3);
    assert_eq!(sender.unacked_frames(), 3);
    let frames = sender.drain_outbound();
    assert!(frames.len() > 1);
    for frame in &frames {
        receiver.receive_frame(frame).unwrap();
    }
    assert_eq!(receiver.pop_received(), Some(b"segmented".to_vec()));
    while let Some(frame) = receiver.poll_outbound() {
        sender.receive_frame(&frame).unwrap();
    }
    assert_eq!(sender.unacked_frames(), 0);
    assert!(!sender.remote_is_busy());
    assert!(!sender.is_failed());
}

#[test]
fn unusable_engine_configurations_are_named() {
    for (config, reason) in [
        (
            ErtmConfig { local_mtu: 0, ..ErtmConfig::default() },
            "ERTM MTU cannot be zero",
        ),
        (
            ErtmConfig { peer_mps: 0, ..ErtmConfig::default() },
            "ERTM MPS cannot be zero",
        ),
        (
            ErtmConfig { tx_window_size: 64, ..ErtmConfig::default() },
            "ERTM transmit window must be between 1 and 63",
        ),
        (
            ErtmConfig { retransmission_timeout_ticks: 0, ..ErtmConfig::default() },
            "ERTM retransmission timeout cannot be zero",
        ),
    ] {
        assert_eq!(
            config.validate().unwrap_err().message(),
            format!("invalid packet: {reason}")
        );
    }
}

#[test]
fn silent_peer_is_given_up_after_the_agreed_repetitions() {
    let config = ErtmConfig {
        peer_mps: 4,
        tx_window_size: 2,
        max_retransmissions: 2,
        retransmission_timeout_ticks: 5,
        ..ErtmConfig::default()
    };
    let mut engine = ErtmEngine::new(config).unwrap();
    engine.send_sdu(b"segmented").unwrap();
    let window = engine.drain_outbound();
    assert_eq!(window.len(), 2);
    for _ in 0..2 {
        engine.tick(4).unwrap();
        assert!(engine.drain_outbound().is_empty());
        engine.tick(1).unwrap();
        assert_eq!(engine.drain_outbound(), window);
    }
    assert!(engine.tick(5).is_err());
    assert!(engine.drain_outbound().is_empty());
    assert!(engine.is_failed());
    assert!(engine.send_sdu(b"x").is_err());
    assert!(engine.receive_frame(&[1, 0]).is_err());
    assert!(engine.tick(1).is_err());
    assert!(engine.set_receiver_busy(true).is_err());
}

#[test]
fn sdus_cross_over_many_windows_in_any_order_of_frames() {
    let config = ErtmConfig {
        peer_mps: 3,
        tx_window_size: 2,
        ..ErtmConfig::default()
    };
    let sdus: Vec<Vec<u8>> = (0..40_u8).map(|n| vec![n; usize::from(n) + 1]).collect();
    for eager in [true, false] {
        let mut sender = ErtmEngine::new(config).unwrap();
        let mut receiver = ErtmEngine::new(ErtmConfig::default()).unwrap();
        for sdu in &sdus {
            sender.send_sdu(sdu).unwrap();
        }
        loop {
            let mut moved = false;
            while let Some(frame) = sender.poll_outbound() {
                receiver.receive_frame(&frame).unwrap();
                moved = true;
                if eager {
                    break;
                }
            }
            while let Some(frame) = receiver.poll_outbound() {
                sender.receive_frame(&frame).unwrap();
                moved = true;
            }
            if !moved {
                break;
            }
        }
        for sdu in &sdus {
            assert_eq!(receiver.pop_received().as_ref(), Some(sdu));
        }
        assert_eq!(receiver.pop_received(), None);
        assert_eq!(sender.pending_frames(), 0);
        assert_eq!(sender.unacked_frames(), 0);
    }
}
