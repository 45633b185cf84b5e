use swbt_bumble_backend::hci::{
    fragment_l2cap_pdu, AclAssembler, AclPacket, CodecError, CommandPacket, EventPacket, Packet,
    ACL_CONTINUATION, ACL_FIRST_FLUSHABLE, ACL_FIRST_NON_FLUSHABLE,
};

#[test]
fn command_and_event_frames_match_bumble_oracles() {
    let reset = Packet::Command(CommandPacket::new(0x0C03, Vec::new()).unwrap());
    assert_eq!(reset.to_bytes(), [0x01, 0x03, 0x0C, 0x00]);
    assert_eq!(Packet::from_bytes(&reset.to_bytes()).unwrap(), reset);

    let complete = [0x04, 0x0E, 0x04, 0x01, 0x03, 0x0C, 0x00];
    assert_eq!(Packet::from_bytes(&complete).unwrap().to_bytes(), complete);
}

#[test]
fn acl_fragments_reassemble_one_l2cap_pdu() {
    let mut pdu = vec![23, 0, 0x40, 0];
    pdu.extend(0_u8..23);
    let packets = fragment_l2cap_pdu(0x0123, 0, 9, &pdu, false).unwrap();

    assert_eq!(packets.len(), 3);
    assert_eq!(packets[0].packet_boundary, ACL_FIRST_NON_FLUSHABLE);
    assert!(packets[1..]
        .iter()
        .all(|packet| packet.packet_boundary == ACL_CONTINUATION));

    let mut assembler = AclAssembler::default();
    let mut complete = None;
    for packet in &packets {
        assert_eq!(
            Packet::from_bytes(&packet.to_bytes()).unwrap(),
            Packet::Acl(packet.clone())
        );
        complete = assembler.feed(packet).unwrap().or(complete);
    }
    assert_eq!(complete.as_deref(), Some(pdu.as_slice()));
}

#[test]
fn codec_rejects_sco_and_iso_packet_families() {
    assert_eq!(
        Packet::from_bytes(&[0x03, 0, 0, 0]).unwrap_err(),
        CodecError::UnsupportedPacketType(0x03)
    );
    assert_eq!(
        Packet::from_bytes(&[0x05, 0, 0, 0]).unwrap_err(),
        CodecError::UnsupportedPacketType(0x05)
    );
}

#[test]
fn codec_rejects_declared_length_mismatch() {
    assert_eq!(
        Packet::from_bytes(&[0x01, 0x03, 0x0C, 0x01]).unwrap_err(),
        CodecError::Truncated { field: "payload" }
    );
    assert_eq!(
        Packet::from_bytes(&[0x04, 0x0E, 0x00, 0xFF]).unwrap_err(),
        CodecError::TrailingBytes { expected: 3, actual: 4 }
    );
}

#[test]
fn assembler_rejects_continuation_without_start() {
    let packet = AclPacket::new(7, ACL_CONTINUATION, 0, vec![1, 2]).unwrap();

    assert_eq!(
        AclAssembler::default().feed(&packet).unwrap_err(),
        CodecError::UnexpectedContinuation { connection_handle: 7 }
    );
}

#[test]
fn each_packet_error_has_its_input() {
    assert_eq!(Packet::from_bytes(&[]).unwrap_err(), CodecError::EmptyPacket);
    assert_eq!(
        CommandPacket::from_bytes(&[0x01, 0x03, 0x0C]).unwrap_err(),
        CodecError::Truncated { field: "command" }
    );
    assert_eq!(
        CommandPacket::from_bytes(&[0x04, 0x0E, 0x00]).unwrap_err(),
        CodecError::UnsupportedPacketType(0x04)
    );
    assert_eq!(
        EventPacket::new(0x0E, vec![0; 256]).unwrap_err(),
        CodecError::ParameterTooLong { actual: 256, maximum: 255 }
    );
    assert_eq!(
        AclPacket::new(0x1000, 0, 0, vec![]).unwrap_err(),
        CodecError::InvalidConnectionHandle(0x1000)
    );
    assert_eq!(
        AclPacket::new(1, 4, 0, vec![]).unwrap_err(),
        CodecError::InvalidPacketBoundary(4)
    );
    assert_eq!(
        AclPacket::new(1, 0, 4, vec![]).unwrap_err(),
        CodecError::InvalidBroadcastFlag(4)
    );
    assert_eq!(
        fragment_l2cap_pdu(1, 0, 0, &[0, 0, 0x40, 0], false).unwrap_err(),
        CodecError::InvalidL2capPdu
    );
    assert_eq!(
        fragment_l2cap_pdu(1, 0, 8, &[1, 0, 0x40, 0], false).unwrap_err(),
        CodecError::InvalidL2capPdu
    );
}

#[test]
fn too_much_continuation_drops_what_was_collected() {
    let mut assembler = AclAssembler::new();
    let first = AclPacket::new(3, ACL_FIRST_FLUSHABLE, 0, vec![2, 0, 0x40, 0, 9]).unwrap();
    let second = AclPacket::new(3, ACL_CONTINUATION, 0, vec![1, 2]).unwrap();
    assert_eq!(assembler.feed(&first).unwrap(), None);
    assert_eq!(
        assembler.feed(&second).unwrap_err(),
        CodecError::ContinuationOverflow { expected: 6, actual: 7 }
    );
    assert_eq!(
        assembler.feed(&second).unwrap_err(),
        CodecError::UnexpectedContinuation { connection_handle: 3 }
    );
}

#[test]
fn cleared_handle_starts_anew() {
    let mut assembler = AclAssembler::new();
    let first = AclPacket::new(3, ACL_FIRST_FLUSHABLE, 0, vec![2, 0, 0x40, 0, 9]).unwrap();
    assert_eq!(assembler.feed(&first).unwrap(), None);
    assembler.clear_handle(3);
    let second = AclPacket::new(3, ACL_CONTINUATION, 0, vec![1]).unwrap();
    assert_eq!(
        assembler.feed(&second).unwrap_err(),
        CodecError::UnexpectedContinuation { connection_handle: 3 }
    );
}

#[test]
fn acl_header_packs_handle_boundary_and_broadcast() {
    let packet = AclPacket::new(0x0ABC, 2, 1, vec![0xEE]).unwrap();
    assert_eq!(packet.to_bytes(), [0x02, 0xBC, 0x6A, 0x01, 0x00, 0xEE]);
    assert_eq!(AclPacket::from_bytes(&packet.to_bytes()).unwrap(), packet);
}

#[test]
fn fragments_of_two_connections_do_not_mix() {
    let left_pdu = [vec![6, 0, 0x40, 0], vec![1; 6]].concat();
    let right_pdu = [vec![7, 0, 0x41, 0], vec![2; 7]].concat();
    let left = fragment_l2cap_pdu(1, 0, 5, &left_pdu, false).unwrap();
    let right = fragment_l2cap_pdu(2, 0, 5, &right_pdu, false).unwrap();
    assert_eq!((left.len(), right.len()), (2, 3));
    let mut assembler = AclAssembler::new();
    assert_eq!(assembler.feed(&left[0]).unwrap(), None);
    assert_eq!(assembler.feed(&right[0]).unwrap(), None);
    assert_eq!(assembler.feed(&right[1]).unwrap(), None);
    assert_eq!(assembler.feed(&left[1]).unwrap(), Some(left_pdu));
    assert_eq!(assembler.feed(&right[2]).unwrap(), Some(right_pdu));
}
