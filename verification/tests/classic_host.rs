use std::collections::HashMap;

use swbt_bumble_backend::acl_flow::{HostOutput, SessionEvent};
use swbt_bumble_backend::classic_host::{
    ClassicEvent, ClassicHost, HostError, HCI_ACCEPT_CONNECTION_REQUEST,
    HCI_AUTHENTICATION_REQUESTED, HCI_IO_CAPABILITY_REQUEST_REPLY,
    HCI_LINK_KEY_REQUEST_NEGATIVE_REPLY, HCI_LINK_KEY_REQUEST_REPLY,
    HCI_SET_CONNECTION_ENCRYPTION, HCI_USER_CONFIRMATION_REQUEST_REPLY,
};
use swbt_bumble_backend::hci::{fragment_l2cap_pdu, AclPacket, CodecError};
use swbt_bumble_backend::l2cap::classic::{
    ChannelManager, ClassicChannelSpec, ClassicChannelState,
};
use swbt_bumble_backend::l2cap::L2capPdu;
use swbt_bumble_backend::{AddressKind, BluetoothAddress, BondStore, BondStoreError, ClassicBond};

#[derive(Default)]
struct MemoryBondStore {
    bonds: HashMap<BluetoothAddress, ClassicBond>,
    failure: Option<BondStoreError>,
}

impl BondStore for MemoryBondStore {
    fn load(&self, peer: BluetoothAddress) -> Result<Option<ClassicBond>, BondStoreError> {
        match self.failure {
            Some(error) => Err(error),
            None => Ok(self.bonds.get(&peer).cloned()),
        }
    }

    fn load_all(&self) -> Result<Vec<(BluetoothAddress, ClassicBond)>, BondStoreError> {
        Ok(self
            .bonds
            .iter()
            .map(|(peer, bond)| (*peer, bond.clone()))
            .collect())
    }

    fn upsert(&mut self, peer: BluetoothAddress, bond: ClassicBond) -> Result<(), BondStoreError> {
        if let Some(error) = self.failure {
            return Err(error);
        }
        self.bonds.insert(peer, bond);
        Ok(())
    }
}

fn peer() -> BluetoothAddress {
    BluetoothAddress::parse("11:22:33:44:55:66", AddressKind::Public).unwrap()
}

fn connected_host(total_acl_packets: u16) -> ClassicHost<MemoryBondStore> {
    let mut host = ClassicHost::new(MemoryBondStore::default(), 1024, total_acl_packets);
    host.handle_event(ClassicEvent::ConnectionComplete {
        status: 0,
        connection_handle: 0x0040,
        peer: peer(),
    })
    .unwrap();
    while host.pop_output().is_some() {}
    host
}

#[test]
fn stored_and_new_link_keys_drive_reconnect_without_le_key_state() {
    let peer = peer();
    let existing = ClassicBond::new([0x11; 16], 0x05, true);
    let mut store = MemoryBondStore::default();
    store.bonds.insert(peer, existing.clone());
    let mut host = ClassicHost::new(store, 1024, 4);

    host.handle_event(ClassicEvent::LinkKeyRequest { peer })
        .unwrap();
    let HostOutput::Command(reply) = host.pop_output().unwrap() else {
        panic!("expected link-key reply")
    };
    assert_eq!(reply.opcode, HCI_LINK_KEY_REQUEST_REPLY);
    assert_eq!(&reply.parameters[..6], peer.as_le_bytes());
    assert_eq!(&reply.parameters[6..], existing.link_key());

    host.handle_event(ClassicEvent::LinkKeyNotification {
        peer,
        link_key: [0x22; 16],
        link_key_type: 0x04,
    })
    .unwrap();
    assert!(
        host.bond_store().bonds.get(&peer) == Some(&ClassicBond::new([0x22; 16], 0x04, false))
    );
    assert_eq!(
        host.pop_output(),
        Some(HostOutput::Event(SessionEvent::BondStored { peer }))
    );
}

#[test]
fn missing_link_key_uses_negative_reply() {
    let peer = peer();
    let mut host = ClassicHost::new(MemoryBondStore::default(), 1024, 4);

    host.handle_event(ClassicEvent::LinkKeyRequest { peer })
        .unwrap();

    let HostOutput::Command(reply) = host.pop_output().unwrap() else {
        panic!("expected negative link-key reply")
    };
    assert_eq!(reply.opcode, HCI_LINK_KEY_REQUEST_NEGATIVE_REPLY);
    assert_eq!(reply.parameters, peer.as_le_bytes());
}

#[test]
fn authentication_transitions_to_encrypted_session() {
    let mut host = connected_host(4);

    host.handle_event(ClassicEvent::AuthenticationComplete {
        status: 0,
        connection_handle: 0x0040,
    })
    .unwrap();
    let HostOutput::Command(command) = host.pop_output().unwrap() else {
        panic!("expected encryption command")
    };
    assert_eq!(command.opcode, HCI_SET_CONNECTION_ENCRYPTION);
    assert_eq!(command.parameters, [0x40, 0x00, 0x01]);

    host.handle_event(ClassicEvent::EncryptionChange {
        status: 0,
        connection_handle: 0x0040,
        enabled: true,
    })
    .unwrap();
    assert_eq!(
        host.pop_output(),
        Some(HostOutput::Event(SessionEvent::Encrypted { peer: peer() }))
    );
}

#[test]
fn incoming_pairing_emits_accept_io_and_confirmation_commands() {
    let peer = peer();
    let mut host = ClassicHost::new(MemoryBondStore::default(), 1024, 4);

    host.handle_event(ClassicEvent::ConnectionRequest { peer })
        .unwrap();
    host.handle_event(ClassicEvent::IoCapabilityRequest { peer })
        .unwrap();
    host.handle_event(ClassicEvent::UserConfirmationRequest { peer })
        .unwrap();

    let opcodes = std::iter::from_fn(|| host.pop_output())
        .map(|output| match output {
            HostOutput::Command(command) => command.opcode,
            other => panic!("unexpected output: {other:?}"),
        })
        .collect::<Vec<_>>();
    assert_eq!(
        opcodes,
        [
            HCI_ACCEPT_CONNECTION_REQUEST,
            HCI_IO_CAPABILITY_REQUEST_REPLY,
            HCI_USER_CONFIRMATION_REQUEST_REPLY,
        ]
    );
}

#[test]
fn acl_credit_never_sends_more_than_controller_capacity() {
    let mut host = connected_host(1);
    let pdu = L2capPdu::new(0x0040, vec![0xAA; 20]);
    host.acl_flow.payload_size = 8;
    let packets = fragment_l2cap_pdu(0x0040, 0, 8, &pdu.to_bytes(false), false).unwrap();
    assert_eq!(packets.len(), 3);
    host.acl_flow.enqueue(packets);
    host.acl_flow.flush(&mut host.output);

    assert!(matches!(host.pop_output(), Some(HostOutput::Acl(_))));
    assert!(host.pop_output().is_none());

    host.handle_event(ClassicEvent::NumberOfCompletedPackets {
        connection_handle: 0x0040,
        completed: 1,
    })
    .unwrap();
    assert!(matches!(host.pop_output(), Some(HostOutput::Acl(_))));
    assert!(host.pop_output().is_none());
}

#[test]
fn completed_packet_count_cannot_exceed_in_flight_acl() {
    let mut host = connected_host(1);

    let error = host
        .handle_event(ClassicEvent::NumberOfCompletedPackets {
            connection_handle: 0x0040,
            completed: 1,
        })
        .unwrap_err();

    assert!(matches!(
        error,
        HostError::AclCreditUnderflow {
            in_flight: 0,
            completed: 1
        }
    ));
}

#[test]
fn pending_connection_rejects_a_different_peer() {
    let expected = peer();
    let actual = BluetoothAddress::parse("22:33:44:55:66:77", AddressKind::Public).unwrap();
    let mut host = ClassicHost::new(MemoryBondStore::default(), 1024, 4);
    host.handle_event(ClassicEvent::ConnectionRequest { peer: expected })
        .unwrap();
    while host.pop_output().is_some() {}

    let error = host
        .handle_event(ClassicEvent::ConnectionComplete {
            status: 0,
            connection_handle: 0x0040,
            peer: actual,
        })
        .unwrap_err();

    assert!(matches!(
        error,
        HostError::PeerMismatch {
            expected: seen_expected,
            actual: seen_actual,
        } if seen_expected == expected && seen_actual == actual
    ));
}

#[test]
fn disconnect_clears_partial_acl_reassembly_for_reused_handle() {
    let mut host = connected_host(4);
    let pdu = L2capPdu::new(0x0040, vec![0xAA; 20]);
    let fragments = fragment_l2cap_pdu(0x0040, 0, 8, &pdu.to_bytes(false), false).unwrap();
    host.process_acl(fragments[0].clone()).unwrap();

    host.handle_event(ClassicEvent::DisconnectionComplete {
        connection_handle: 0x0040,
        reason: 0x13,
    })
    .unwrap();
    while host.pop_output().is_some() {}
    host.handle_event(ClassicEvent::ConnectionComplete {
        status: 0,
        connection_handle: 0x0040,
        peer: peer(),
    })
    .unwrap();
    while host.pop_output().is_some() {}

    let error = host.process_acl(fragments[1].clone()).unwrap_err();
    assert!(matches!(
        error,
        HostError::Codec(CodecError::UnexpectedContinuation {
            connection_handle: 0x0040
        })
    ));
}

#[test]
fn test_only_peer_opens_channel_and_exchanges_sdu() {
    let mut host = connected_host(16);
    host.register_server(0x0011, ClassicChannelSpec { mtu: 128 })
        .unwrap();
    let mut remote = ChannelManager::new();
    let remote_cid = remote
        .connect(0x0011, ClassicChannelSpec { mtu: 96 })
        .unwrap();

    let mut host_cid = None;
    for _ in 0..32 {
        while let Some(pdu) = remote.poll_outbound() {
            host.process_acl(AclPacket::new(0x0040, 0, 0, pdu.to_bytes(false)).unwrap())
                .unwrap();
        }
        while let Some(output) = host.pop_output() {
            match output {
                HostOutput::Acl(packet) => remote.process_bytes(&packet.data).unwrap(),
                HostOutput::Event(SessionEvent::ChannelOpened {
                    psm: 0x0011,
                    source_cid,
                }) => host_cid = Some(source_cid),
                _ => {}
            }
        }
        if host_cid.is_some()
            && remote
                .channel(remote_cid)
                .is_some_and(|channel| channel.state == ClassicChannelState::Open)
        {
            break;
        }
    }

    let host_cid = host_cid.expect("host accepted control channel");
    remote.send(remote_cid, b"from-peer").unwrap();
    for pdu in remote.drain_outbound() {
        host.process_acl(AclPacket::new(0x0040, 0, 0, pdu.to_bytes(false)).unwrap())
            .unwrap();
    }
    assert_eq!(
        host.take_channel_sdu(host_cid).as_deref(),
        Some(b"from-peer".as_slice())
    );

    host.send_channel_sdu(host_cid, b"from-host").unwrap();
    while let Some(output) = host.pop_output() {
        if let HostOutput::Acl(packet) = output {
            remote.process_bytes(&packet.data).unwrap();
        }
    }
    assert_eq!(
        remote
            .channel_mut(remote_cid)
            .unwrap()
            .pop_received()
            .as_deref(),
        Some(b"from-host".as_slice())
    );
}

#[test]
fn store_failures_reach_the_caller_and_queue_nothing() {
    let store = MemoryBondStore {
        bonds: HashMap::new(),
        failure: Some(BondStoreError::LoadFailed),
    };
    let mut host = ClassicHost::new(store, 1024, 4);
    assert_eq!(
        host.handle_event(ClassicEvent::LinkKeyRequest { peer: peer() })
            .unwrap_err(),
        HostError::BondStore(BondStoreError::LoadFailed)
    );
    host.bonds.failure = Some(BondStoreError::UpsertFailed);
    assert_eq!(
        host.handle_event(ClassicEvent::LinkKeyNotification {
            peer: peer(),
            link_key: [1; 16],
            link_key_type: 5,
        })
        .unwrap_err(),
        HostError::BondStore(BondStoreError::UpsertFailed)
    );
    assert!(host.pop_output().is_none());
}

#[test]
fn keys_of_authenticated_pairings_are_marked() {
    let mut host = ClassicHost::new(MemoryBondStore::default(), 1024, 4);
    for (link_key_type, authenticated) in [(4, false), (5, true), (7, false), (8, true)] {
        host.handle_event(ClassicEvent::LinkKeyNotification {
            peer: peer(),
            link_key: [link_key_type; 16],
            link_key_type,
        })
        .unwrap();
        let stored = host.bond_store().load(peer()).unwrap().unwrap();
        assert_eq!(stored.link_key(), &[link_key_type; 16]);
        assert_eq!(stored.authenticated(), authenticated);
    }
}

#[test]
fn nothing_is_sent_or_taken_without_a_connection() {
    let mut host = ClassicHost::new(MemoryBondStore::default(), 1024, 4);
    let packet = AclPacket::new(0x0040, 0, 0, vec![0, 0, 0x40, 0]).unwrap();
    assert_eq!(host.process_acl(packet).unwrap_err(), HostError::NoConnection);
    assert_eq!(
        host.send_channel_sdu(0x0040, b"x").unwrap_err(),
        HostError::NoConnection
    );
    assert_eq!(
        host.connect_channel(0x0011, ClassicChannelSpec { mtu: 100 })
            .unwrap_err(),
        HostError::NoConnection
    );
    assert!(host.take_channel_sdu(0x0040).is_none());
    assert!(host.channel_info(0x0040).is_none());
    assert_eq!(
        host.handle_event(ClassicEvent::AuthenticationComplete {
            status: 0,
            connection_handle: 0x0040,
        })
        .unwrap_err(),
        HostError::NoConnection
    );
}

#[test]
fn another_handle_is_refused() {
    let mut host = connected_host(4);
    let mismatch = HostError::ConnectionHandleMismatch {
        expected: 0x0040,
        actual: 0x0041,
    };
    let packet = AclPacket::new(0x0041, 0, 0, vec![0, 0, 0x40, 0]).unwrap();
    assert_eq!(host.process_acl(packet).unwrap_err(), mismatch);
    assert_eq!(
        host.handle_event(ClassicEvent::DisconnectionComplete {
            connection_handle: 0x0041,
            reason: 0x13,
        })
        .unwrap_err(),
        mismatch
    );
}

#[test]
fn failed_steps_of_a_connection_change_little() {
    let mut host = ClassicHost::new(MemoryBondStore::default(), 1024, 4);
    host.handle_event(ClassicEvent::ConnectionRequest { peer: peer() })
        .unwrap();
    host.handle_event(ClassicEvent::ConnectionComplete {
        status: 4,
        connection_handle: 0,
        peer: peer(),
    })
    .unwrap();
    assert!(host.pending_peer.is_none());
    assert!(host.connection.is_none());
    host.handle_event(ClassicEvent::AuthenticationComplete {
        status: 5,
        connection_handle: 1,
    })
    .unwrap();
    host.handle_event(ClassicEvent::EncryptionChange {
        status: 0,
        connection_handle: 1,
        enabled: false,
    })
    .unwrap();
}

#[test]
fn new_connection_asks_for_authentication() {
    let mut host = ClassicHost::new(MemoryBondStore::default(), 1024, 4);
    host.handle_event(ClassicEvent::ConnectionComplete {
        status: 0,
        connection_handle: 0x0123,
        peer: peer(),
    })
    .unwrap();
    assert_eq!(
        host.pop_output(),
        Some(HostOutput::Event(SessionEvent::Connected {
            peer: peer(),
            connection_handle: 0x0123,
        }))
    );
    let Some(HostOutput::Command(command)) = host.pop_output() else {
        panic!("expected authentication request")
    };
    assert_eq!(command.opcode, HCI_AUTHENTICATION_REQUESTED);
    assert_eq!(command.parameters, [0x23, 0x01]);
}

#[test]
fn unusable_server_fails_the_connection() {
    let mut host = ClassicHost::new(MemoryBondStore::default(), 1024, 4);
    host.register_server(0x0010, ClassicChannelSpec { mtu: 100 })
        .unwrap();
    assert!(matches!(
        host.handle_event(ClassicEvent::ConnectionComplete {
            status: 0,
            connection_handle: 0x0040,
            peer: peer(),
        })
        .unwrap_err(),
        HostError::L2cap(_)
    ));
    assert!(host.connection.is_none());
}

#[test]
fn disconnection_drops_data_that_waits() {
    let mut host = connected_host(1);
    let packets: Vec<_> = (0..3)
        .map(|_| AclPacket::new(0x0040, 0, 0, vec![0, 0, 0x40, 0]).unwrap())
        .collect();
    host.acl_flow.enqueue(packets);
    host.acl_flow.flush(&mut host.output);
    assert!(!host.channel_output_is_flushed());
    assert!(!host.interrupt_send_capacity_available());
    host.handle_event(ClassicEvent::DisconnectionComplete {
        connection_handle: 0x0040,
        reason: 0x08,
    })
    .unwrap();
    assert!(host.channel_output_is_flushed());
    assert!(host.interrupt_send_capacity_available());
    assert_eq!(
        host.pop_output(),
        Some(HostOutput::Event(SessionEvent::Disconnected {
            peer: peer(),
            reason: 0x08,
        }))
    );
    assert!(host.pop_output().is_none());
}
