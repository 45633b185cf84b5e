use swbt_bumble_backend::l2cap::classic::{
    ChannelManager, ClassicChannelSpec, ClassicChannelState,
};
use swbt_bumble_backend::l2cap::{
    InformationCapabilities, L2capPdu, CONNECTION_REFUSED_PSM_NOT_SUPPORTED,
    L2CAP_LE_SIGNALING_CID, L2CAP_SIGNALING_CID,
};

#[test]
fn default_information_capabilities_do_not_advertise_le_signaling() {
    let capabilities = InformationCapabilities::default();

    assert_eq!(
        capabilities.fixed_channels(),
        1_u64 << L2CAP_SIGNALING_CID
    );
    assert_eq!(
        capabilities.fixed_channels() & (1_u64 << L2CAP_LE_SIGNALING_CID),
        0
    );
}

fn relay(left: &mut ChannelManager, right: &mut ChannelManager) {
    for _ in 0..32 {
        let mut progressed = false;
        while let Some(pdu) = left.poll_outbound() {
            right.process_pdu(pdu).unwrap();
            progressed = true;
        }
        while let Some(pdu) = right.poll_outbound() {
            left.process_pdu(pdu).unwrap();
            progressed = true;
        }
        if !progressed {
            return;
        }
    }
    panic!("relay did not quiesce");
}

#[test]
fn classic_channel_connect_configure_transfer_and_disconnect() {
    let mut client = ChannelManager::new();
    let mut server = ChannelManager::new();
    let psm = server
        .register_server(Some(0x0003), ClassicChannelSpec { mtu: 345 })
        .unwrap();

    let client_cid = client
        .connect(psm, ClassicChannelSpec { mtu: 456 })
        .unwrap();
    relay(&mut client, &mut server);

    let server_cid = server.poll_accepted_channel().unwrap();
    let client_channel = client.channel(client_cid).unwrap();
    let server_channel = server.channel(server_cid).unwrap();
    assert_eq!(client_channel.state, ClassicChannelState::Open);
    assert_eq!(server_channel.state, ClassicChannelState::Open);
    assert_eq!(client_channel.peer_mtu, 345);
    assert_eq!(server_channel.peer_mtu, 456);
    assert_eq!(client_channel.destination_cid, server_cid);
    assert_eq!(server_channel.destination_cid, client_cid);

    client
        .send(client_cid, b"RFCOMM over Classic L2CAP")
        .unwrap();
    server.send(server_cid, b"SDP reply").unwrap();
    relay(&mut client, &mut server);
    assert_eq!(
        server.channel_mut(server_cid).unwrap().pop_received(),
        Some(b"RFCOMM over Classic L2CAP".to_vec())
    );
    assert_eq!(
        client.channel_mut(client_cid).unwrap().pop_received(),
        Some(b"SDP reply".to_vec())
    );

    assert!(client.send(client_cid, &vec![0; 346]).is_err());
    client.disconnect(client_cid).unwrap();
    relay(&mut client, &mut server);
    assert_eq!(
        client.channel(client_cid).unwrap().state,
        ClassicChannelState::Closed
    );
    assert_eq!(
        server.channel(server_cid).unwrap().state,
        ClassicChannelState::Closed
    );
}

#[test]
fn connection_to_unregistered_psm_is_refused() {
    let mut client = ChannelManager::new();
    let mut server = ChannelManager::new();
    let client_cid = client
        .connect(0x1001, ClassicChannelSpec::default())
        .unwrap();
    relay(&mut client, &mut server);
    let channel = client.channel(client_cid).unwrap();
    assert_eq!(channel.state, ClassicChannelState::Closed);
    assert_eq!(
        channel.connection_result,
        Some(CONNECTION_REFUSED_PSM_NOT_SUPPORTED)
    );
    assert!(server.poll_accepted_channel().is_none());
}

#[test]
fn dynamic_psm_allocation_is_valid_and_deterministic() {
    let mut manager = ChannelManager::new();
    assert_eq!(
        manager
            .register_server(None, ClassicChannelSpec::default())
            .unwrap(),
        0x1001
    );
    assert_eq!(
        manager
            .register_server(None, ClassicChannelSpec::default())
            .unwrap(),
        0x1003
    );
    assert!(manager
        .register_server(Some(0x1002), ClassicChannelSpec::default())
        .is_err());
    assert!(manager
        .register_server(Some(0x1101), ClassicChannelSpec::default())
        .is_err());
}

#[test]
fn registering_twice_names_the_psm() {
    let mut manager = ChannelManager::new();
    manager
        .register_server(Some(0x0011), ClassicChannelSpec::default())
        .unwrap();
    assert_eq!(
        manager
            .register_server(Some(0x0011), ClassicChannelSpec::default())
            .unwrap_err()
            .message(),
        "invalid packet: PSM 0x11 is already in use"
    );
    assert!(manager.unregister_server(0x0011));
    assert!(!manager.unregister_server(0x0011));
    manager
        .register_server(Some(0x0011), ClassicChannelSpec::default())
        .unwrap();
}

#[test]
fn unknown_channels_are_named_in_errors() {
    let mut manager = ChannelManager::new();
    assert_eq!(
        manager.send(0x0040, b"x").unwrap_err().message(),
        "invalid packet: channel not found for CID 0x0040"
    );
    let pdu = L2capPdu::new(0x0055, vec![1]);
    assert_eq!(
        manager.process_pdu(pdu).unwrap_err().message(),
        "invalid packet: channel not found for CID 0x0055"
    );
}

#[test]
fn sdu_beyond_the_peer_mtu_is_refused_and_nothing_goes_out() {
    let mut client = ChannelManager::new();
    let mut server = ChannelManager::new();
    server
        .register_server(Some(0x0011), ClassicChannelSpec { mtu: 50 })
        .unwrap();
    let cid = client
        .connect(0x0011, ClassicChannelSpec { mtu: 60 })
        .unwrap();
    relay(&mut client, &mut server);
    assert_eq!(
        client.send(cid, &[0; 51]).unwrap_err().message(),
        "invalid packet: SDU exceeds peer MTU 50"
    );
    assert!(client.poll_outbound().is_none());
    client.send(cid, &[7; 50]).unwrap();
    relay(&mut client, &mut server);
    let accepted = server.poll_accepted_channel().unwrap();
    assert_eq!(
        server.channel_mut(accepted).unwrap().pop_received(),
        Some(vec![7; 50])
    );
}

#[test]
fn units_read_back_with_and_without_check_sequence() {
    let pdu = L2capPdu::new(0x0041, vec![1, 2, 3]);
    assert_eq!(pdu.to_bytes(false), [3, 0, 0x41, 0, 1, 2, 3]);
    assert_eq!(L2capPdu::from_bytes(&pdu.to_bytes(false)).unwrap(), pdu);
    let checked = pdu.to_bytes(true);
    assert_eq!(&checked[..7], [5, 0, 0x41, 0, 1, 2, 3]);
    let read = L2capPdu::from_bytes(&checked).unwrap();
    assert_eq!(&read.payload[..3], [1, 2, 3]);
    assert_eq!(read.payload.len(), 5);
}

#[test]
fn accepted_channels_are_announced_once_in_the_order_of_opening() {
    let mut client = ChannelManager::new();
    let mut server = ChannelManager::new();
    let spec = ClassicChannelSpec { mtu: 100 };
    let first = server.register_server(Some(0x0011), spec).unwrap();
    let second = server.register_server(Some(0x0013), spec).unwrap();
    assert_eq!(server.poll_accepted_channel(), None);
    for psm in [second, first] {
        client.connect(psm, spec).unwrap();
        relay(&mut client, &mut server);
    }
    let one = server.poll_accepted_channel().unwrap();
    let two = server.poll_accepted_channel().unwrap();
    assert_eq!(server.channel(one).unwrap().psm, second);
    assert_eq!(server.channel(two).unwrap().psm, first);
    assert_eq!(server.poll_accepted_channel(), None);
    assert_eq!(client.poll_accepted_channel(), None);
}
