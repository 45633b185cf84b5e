use swbt_bumble_backend::{
    AddressKind, BluetoothAddress, BluetoothUuid, ClassicBond, ValueError,
    EXTRACTION_SOURCE_REVISION,
};

#[test]
fn extraction_source_revision_is_a_full_git_object_id() {
    assert_eq!(EXTRACTION_SOURCE_REVISION.len(), 40);
    assert!(EXTRACTION_SOURCE_REVISION
        .bytes()
        .all(|byte| byte.is_ascii_hexdigit()));
}

#[test]
fn address_round_trips_controller_byte_order() {
    let address = BluetoothAddress::parse("00:11:22:33:44:55/P", AddressKind::Random).unwrap();

    assert_eq!(address.kind(), AddressKind::Public);
    assert_eq!(address.as_le_bytes(), &[0x55, 0x44, 0x33, 0x22, 0x11, 0x00]);
    assert_eq!(address.to_text(), "00:11:22:33:44:55/P");
}

#[test]
fn address_rejects_irregular_separators() {
    let error = BluetoothAddress::parse("0:01122334455", AddressKind::Random).unwrap_err();

    assert!(matches!(error, ValueError::InvalidAddress(_)));
}

#[test]
fn short_and_expanded_uuid_compare_equal() {
    let short = BluetoothUuid::from_u16(0x1234);
    let expanded = BluetoothUuid::from_le_bytes(&short.expanded_le_bytes()).unwrap();

    assert_eq!(short, expanded);
}

#[test]
fn classic_bond_rejects_non_hci_key_length() {
    let error = ClassicBond::from_slice(&[0xAA; 15], 4, true).err().unwrap();

    assert_eq!(error, ValueError::InvalidLinkKeyLength { actual: 15 });
}

#[test]
fn address_texts_without_separators_and_in_lower_case_are_read() {
    let plain = BluetoothAddress::parse("aabbccddeeff", AddressKind::Random).unwrap();
    assert_eq!(plain.as_le_bytes(), &[0xFF, 0xEE, 0xDD, 0xCC, 0xBB, 0xAA]);
    assert_eq!(plain.kind(), AddressKind::Random);
    assert_eq!(plain.to_text(), "AA:BB:CC:DD:EE:FF");
    assert!(BluetoothAddress::parse("aabbccddeef", AddressKind::Random).is_err());
    assert!(BluetoothAddress::parse("", AddressKind::Random).is_err());
}

#[test]
fn uuid_widths_other_than_two_four_and_sixteen_are_refused() {
    for width in [0usize, 1, 3, 5, 8, 15, 17] {
        assert!(BluetoothUuid::from_le_bytes(&vec![0; width]).is_err());
    }
    let wide = BluetoothUuid::from_le_bytes(&[0x34, 0x12, 0, 0]).unwrap();
    assert_eq!(wide, BluetoothUuid::from_u16(0x1234));
    assert_eq!(wide.to_bytes(false), [0x34, 0x12, 0, 0]);
}

#[test]
fn bond_keeps_its_parts_and_hides_its_key() {
    let bond = ClassicBond::from_slice(&[7; 16], 8, true).unwrap();
    assert_eq!(bond.link_key(), &[7; 16]);
    assert_eq!(bond.link_key_type(), 8);
    assert!(bond.authenticated());
    assert_eq!(
        bond.redacted(),
        "ClassicBond { link_key: \"<redacted>\", link_key_type: 8, authenticated: true }"
    );
}

#[test]
fn address_errors_quote_what_they_cannot_read() {
    for (text, message) in [
        (
            "zz1122334455",
            "invalid Bluetooth address: invalid octet \"zz\"",
        ),
        (
            "11\"122334455",
            "invalid Bluetooth address: invalid octet \"\\\"1\"",
        ),
        (
            "1\u{e9}122334455",
            "invalid Bluetooth address: address is not UTF-8",
        ),
    ] {
        let error = BluetoothAddress::parse(text, AddressKind::Public).unwrap_err();
        assert_eq!(error.message(), message);
    }
}

#[test]
fn uuid_of_another_length_is_refused() {
    assert_eq!(
        BluetoothUuid::from_le_bytes(&[1, 2, 3]).err().unwrap(),
        ValueError::InvalidUuid("expected 2, 4, or 16 bytes, got 3".into())
    );
}

#[test]
fn address_octets_are_digits_alone() {
    for text in ["+1:22:33:44:55:66", "+12233445566", "-12233445566", " 12233445566"] {
        let error = BluetoothAddress::parse(text, AddressKind::Public).unwrap_err();
        assert!(matches!(error, ValueError::InvalidAddress(_)));
    }
    assert_eq!(
        BluetoothAddress::parse("+1:22:33:44:55:66", AddressKind::Public)
            .unwrap_err()
            .message(),
        "invalid Bluetooth address: invalid octet \"+1\""
    );
    assert_eq!(
        BluetoothAddress::parse("aBcDeF012345", AddressKind::Random)
            .unwrap()
            .as_le_bytes(),
        &[0x45, 0x23, 0x01, 0xEF, 0xCD, 0xAB]
    );
}
