use std::collections::{HashMap, VecDeque};
use std::sync::{Arc, Mutex};
use std::time::{Duration, Instant};

use swbt_bumble_backend::hci::{AclAssembler, AclPacket, CommandPacket, EventPacket, Packet};
use swbt_bumble_backend::hid_service::{HID_CONTROL_PSM, HID_INTERRUPT_PSM, SDP_PSM};
use swbt_bumble_backend::l2cap::classic::{
    ChannelManager, ClassicChannelSpec, ClassicChannelState,
};
use swbt_bumble_backend::sdp::element::DataElement;
use swbt_bumble_backend::sdp::pdu::SdpPdu;
use swbt_bumble_backend::session::events::{
    EVENT_AUTHENTICATION_COMPLETE, EVENT_COMMAND_COMPLETE, EVENT_COMMAND_STATUS,
    EVENT_CONNECTION_COMPLETE, EVENT_CONNECTION_REQUEST, EVENT_DISCONNECTION_COMPLETE,
    EVENT_ENCRYPTION_CHANGE, EVENT_LINK_KEY_REQUEST, EVENT_NUMBER_OF_COMPLETED_PACKETS,
    EVENT_VENDOR,
};
use swbt_bumble_backend::session::identity::{
    identity_mismatch_kind, map_identity_error, read_address, target_display_order, vendor_reply,
    AdapterIdentityPreparation, IdentityPreparationErrorKind,
};
use swbt_bumble_backend::session::model::{
    ConnectionWindow, ProtocolChannel, AUTHENTICATION_FAILURE, CLASSIC_SERVER_MTU,
    EVENT_QUEUE_CAPACITY, HCI_CREATE_CONNECTION, HCI_DISCONNECT, HCI_REJECT_CONNECTION_REQUEST,
    REMOTE_USER_TERMINATED_CONNECTION,
};
use swbt_bumble_backend::session::startup::{
    Progress, Startup, BR_EDR_NOT_SUPPORTED_MASK, HCI_LE_SET_EVENT_MASK, HCI_READ_BD_ADDR,
    HCI_READ_BUFFER_SIZE, HCI_READ_LOCAL_EXTENDED_FEATURES, HCI_READ_LOCAL_SUPPORTED_COMMANDS,
    HCI_READ_LOCAL_VERSION_INFORMATION, HCI_RESET, HCI_SET_EVENT_MASK, HCI_WRITE_CLASS_OF_DEVICE,
    HCI_WRITE_DEFAULT_LINK_POLICY_SETTINGS, HCI_WRITE_EXTENDED_INQUIRY_RESPONSE,
    HCI_WRITE_LOCAL_NAME, HCI_WRITE_SCAN_ENABLE, HCI_WRITE_SIMPLE_PAIRING_MODE,
};
use swbt_bumble_backend::session::state::Received;
use swbt_bumble_backend::{
    AddressKind, BluetoothAddress, BluetoothUuid, BondStore, BondStoreError, Channel, ClassicBond,
    CommandFailure, Error, ErrorKind, ErrorSource, Event, HidSdpPolicy, HidServiceConfig,
    LocalIdentity, Session, SessionConfig, UsbAdapterMetadata,
};

trait HciIo {
    fn send(&mut self, packet: &Packet) -> Result<(), Error>;
    fn recv_timeout(&mut self, timeout: Duration) -> Result<Option<Packet>, Error>;
    fn metadata(&self) -> UsbAdapterMetadata;
    fn close(&mut self) -> Result<(), Error>;
}

/// A session together with the source of its packets.
struct BackendSession<T: HciIo, B: BondStore> {
    io: Option<T>,
    core: Session<B>,
}

impl<T: HciIo, B: BondStore> BackendSession<T, B> {
    fn initialize(mut io: T, config: SessionConfig, bonds: B) -> Result<Self, Error> {
        let mut startup = Startup::new();
        io.send(&Packet::Command(startup.command(&config)))?;
        let controller = loop {
            let packet = io
                .recv_timeout(Duration::from_secs(5))?
                .ok_or_else(|| Error::new(ErrorKind::OpenFailed))?;
            match startup.take(&config, &packet)? {
                Progress::Waiting => {}
                Progress::Send(command) => io.send(&Packet::Command(command))?,
                Progress::Ready(controller) => break controller,
            }
        };
        let metadata = io.metadata();
        let core = Session::initialize(controller, config, metadata, bonds)?;
        Ok(Self { io: Some(io), core })
    }

    fn io(&mut self) -> Result<&mut T, Error> {
        self.io
            .as_mut()
            .ok_or_else(|| Error::new(ErrorKind::Closed))
    }

    fn flush(&mut self) -> Result<(), Error> {
        while let Some(packet) = self.core.take_outgoing() {
            self.io()?.send(&packet)?;
        }
        Ok(())
    }

    fn send_all(&mut self, commands: Vec<CommandPacket>) -> Result<(), Error> {
        for command in commands {
            self.io()?.send(&Packet::Command(command))?;
        }
        Ok(())
    }

    fn receive(&mut self, timeout: Duration) -> Result<Received, Error> {
        Ok(match self.io()?.recv_timeout(timeout) {
            Ok(Some(packet)) => Received::Packet(packet),
            Ok(None) => Received::Nothing,
            Err(error) => Received::Failed(error),
        })
    }

    fn start_pairing(&mut self) -> Result<(), Error> {
        if let Some(commands) = self.core.start_pairing()? {
            self.send_all(commands)?;
            self.core.pairing_started();
        }
        Ok(())
    }

    fn start_reconnect(&mut self) -> Result<(), Error> {
        if let Some((peer, commands)) = self.core.start_reconnect()? {
            self.send_all(commands)?;
            self.core.reconnect_started(peer);
        }
        Ok(())
    }

    fn poll(&mut self, timeout: Duration) -> Result<Vec<Event>, Error> {
        self.core.ensure_active()?;
        let deadline = Instant::now() + timeout;
        loop {
            let wait = if self.core.poll_waits() {
                deadline.saturating_duration_since(Instant::now())
            } else {
                Duration::ZERO
            };
            let received = self.receive(wait)?;
            let result = self.core.poll(received);
            if let Err(error) = self.flush() {
                return Err(self.core.record_terminal(error));
            }
            if let Some(events) = result? {
                return Ok(events);
            }
        }
    }

    fn send_interrupt(&mut self, payload: &[u8]) -> Result<(), Error> {
        let result = self.core.send_interrupt(payload);
        self.flush()?;
        result
    }

    fn drain_interrupt(&mut self, timeout: Duration) -> Result<(), Error> {
        let deadline = Instant::now() + timeout;
        if self.core.interrupt_drained()? {
            return Ok(());
        }
        loop {
            let remaining = deadline.saturating_duration_since(Instant::now());
            if remaining.is_zero() {
                return Err(Error::new(ErrorKind::DrainTimedOut));
            }
            let received = self.receive(remaining)?;
            let result = self.core.drain_interrupt(received);
            if let Err(error) = self.flush() {
                return Err(self.core.record_terminal(error));
            }
            if result? {
                return Ok(());
            }
        }
    }

    fn disconnect(&mut self) -> Result<(), Error> {
        let commands = self.core.disconnect()?;
        self.send_all(commands)?;
        self.core.disconnect_finished();
        Ok(())
    }

    fn close(&mut self) -> Result<(), Error> {
        if !self.core.close() {
            return Ok(());
        }
        let Some(mut io) = self.io.take() else {
            return Ok(());
        };
        io.close()
    }
}

fn peer_address() -> BluetoothAddress {
    BluetoothAddress::from_le_bytes([6, 5, 4, 3, 2, 1], AddressKind::Public)
}

#[test]
fn scripted_initialization_uses_exact_classic_command_sequence() {
    let (io, commands) = ScriptedIo::initialization();
    let session = BackendSession::initialize(io, config(), MemoryBondStore::default())
        .ok()
        .unwrap();

    assert_eq!(session.core.capabilities().local_address(), local_address());
    assert_eq!(
        session
            .core
            .capabilities()
            .controller_version()
            .company_identifier,
        10
    );
    assert_eq!(
        opcodes(&commands),
        [
            HCI_RESET,
            HCI_READ_LOCAL_SUPPORTED_COMMANDS,
            HCI_READ_LOCAL_VERSION_INFORMATION,
            HCI_READ_LOCAL_EXTENDED_FEATURES,
            HCI_SET_EVENT_MASK,
            HCI_LE_SET_EVENT_MASK,
            HCI_READ_BUFFER_SIZE,
            HCI_READ_BD_ADDR,
            HCI_WRITE_LOCAL_NAME,
            HCI_WRITE_CLASS_OF_DEVICE,
            HCI_WRITE_SIMPLE_PAIRING_MODE,
            HCI_WRITE_EXTENDED_INQUIRY_RESPONSE,
            HCI_WRITE_DEFAULT_LINK_POLICY_SETTINGS,
            HCI_WRITE_SCAN_ENABLE,
        ]
    );
    let commands = commands.lock().unwrap();
    assert_eq!(commands[8].parameters.len(), 248);
    assert_eq!(&commands[9].parameters, &[0x08, 0x25, 0x00]);
    assert_eq!(
        &commands[11].parameters[1..],
        config().extended_inquiry_response()
    );
}

#[test]
fn missing_classic_capability_and_failed_command_are_typed_open_errors() {
    let (mut io, _) = ScriptedIo::initialization();
    io.responses[3] = Ok(Some(command_complete(
        HCI_READ_LOCAL_EXTENDED_FEATURES,
        [
            &[0, 0][..],
            &[0, 0, 0, 0, BR_EDR_NOT_SUPPORTED_MASK, 0, 0, 0],
        ]
        .concat(),
    )));
    let error = BackendSession::initialize(io, config(), MemoryBondStore::default())
        .err()
        .unwrap();
    assert_eq!(error.kind(), ErrorKind::UnsupportedController);

    let (mut io, _) = ScriptedIo::initialization();
    io.responses[0] = Ok(Some(command_complete_with_status(HCI_RESET, 0x0C, [])));
    let error = BackendSession::initialize(io, config(), MemoryBondStore::default())
        .err()
        .unwrap();
    assert_eq!(error.kind(), ErrorKind::OpenFailed);
}

#[test]
fn pairing_latches_one_peer_and_converts_connection_events() {
    let (io, commands) = ScriptedIo::initialization();
    let responses = io.live_responses.clone();
    let mut session = BackendSession::initialize(io, config(), MemoryBondStore::default())
        .ok()
        .unwrap();
    session.start_pairing().ok().unwrap();
    assert_eq!(
        &opcodes(&commands)[14..],
        [
            HCI_WRITE_SCAN_ENABLE,
            HCI_WRITE_EXTENDED_INQUIRY_RESPONSE,
            HCI_WRITE_SCAN_ENABLE,
        ]
    );

    responses.lock().unwrap().extend([
        Packet::Event(event(
            EVENT_CONNECTION_REQUEST,
            [peer_address().as_le_bytes().as_slice(), &[0, 0, 0, 1]].concat(),
        )),
        Packet::Event(event(
            EVENT_CONNECTION_COMPLETE,
            [&[0, 0x40, 0], peer_address().as_le_bytes().as_slice(), &[1, 0]].concat(),
        )),
    ]);
    let events = session.poll(Duration::ZERO).ok().unwrap();
    assert_eq!(
        events,
        [Event::Connected {
            peer: peer_address()
        }]
    );
    assert!(opcodes(&commands).contains(&0x0409));
    assert!(opcodes(&commands).contains(&0x0411));
}

#[test]
fn reconnect_requires_one_bond_and_uses_stored_link_key() {
    let (io, commands) = ScriptedIo::initialization();
    let responses = io.live_responses.clone();
    let mut bonds = MemoryBondStore::default();
    bonds
        .bonds
        .insert(peer_address(), ClassicBond::new([0xA5; 16], 4, true));
    let mut session = BackendSession::initialize(io, config(), bonds)
        .ok()
        .unwrap();

    session.start_reconnect().ok().unwrap();
    assert_eq!(opcodes(&commands).last(), Some(&HCI_CREATE_CONNECTION));
    responses.lock().unwrap().push_back(Packet::Event(event(
        EVENT_LINK_KEY_REQUEST,
        peer_address().as_le_bytes().to_vec(),
    )));
    session.poll(Duration::ZERO).ok().unwrap();

    let commands = commands.lock().unwrap();
    let reply = commands
        .iter()
        .find(|command| command.opcode == 0x040B)
        .unwrap();
    assert_eq!(&reply.parameters[..6], peer_address().as_le_bytes());
    assert_eq!(&reply.parameters[6..], &[0xA5; 16]);
}

#[test]
fn pair_sdp_continuation_hid_output_and_interrupt_input_share_one_session() {
    let (io, _commands) = ScriptedIo::initialization();
    let responses = io.live_responses.clone();
    let host_acl = io.acl_packets.clone();
    let mut session = BackendSession::initialize(io, config(), MemoryBondStore::default())
        .ok()
        .unwrap();
    session.start_pairing().ok().unwrap();
    responses.lock().unwrap().extend([
        Packet::Event(event(
            EVENT_CONNECTION_REQUEST,
            [peer_address().as_le_bytes().as_slice(), &[0, 0, 0, 1]].concat(),
        )),
        Packet::Event(event(
            EVENT_CONNECTION_COMPLETE,
            [&[0, 0x40, 0], peer_address().as_le_bytes().as_slice(), &[1, 0]].concat(),
        )),
        Packet::Event(event(EVENT_AUTHENTICATION_COMPLETE, vec![0, 0x40, 0])),
        Packet::Event(event(EVENT_ENCRYPTION_CHANGE, vec![0, 0x40, 0, 1])),
    ]);
    assert_eq!(
        session.poll(Duration::ZERO).ok().unwrap(),
        [Event::Connected {
            peer: peer_address()
        }]
    );

    let mut peer = TestPeer::new(0x0040, responses, host_acl);
    let (sdp_cid, events) = peer.open_channel(&mut session, SDP_PSM, 48);
    assert!(events.is_empty(), "SDP channels stay private");

    let mut continuation_state = vec![0];
    let mut attribute_lists = Vec::new();
    let mut rounds = 0;
    loop {
        rounds += 1;
        let request = SdpPdu::ServiceSearchAttributeRequest {
            transaction_id: rounds,
            service_search_pattern: DataElement::sequence(vec![DataElement::uuid(
                BluetoothUuid::from_u16(0x1124),
            )]),
            maximum_attribute_byte_count: 19,
            attribute_id_list: DataElement::sequence(vec![DataElement::unsigned_integer_32(
                0x0000_FFFF,
            )]),
            continuation_state,
        }
        .to_bytes()
        .unwrap();
        peer.send(&mut session, sdp_cid, &request);
        let response = SdpPdu::from_bytes(&peer.take_sdu(sdp_cid)).unwrap();
        let SdpPdu::ServiceSearchAttributeResponse {
            attribute_lists: chunk,
            continuation_state: next,
            ..
        } = response
        else {
            panic!("expected HID service search attribute response")
        };
        attribute_lists.extend(chunk);
        continuation_state = next;
        if continuation_state == [0] {
            break;
        }
    }
    assert!(rounds > 1, "48-byte peer MTU must exercise continuation");
    assert!(contains_bytes(&attribute_lists, b"Wireless Gamepad"));
    assert!(contains_bytes(&attribute_lists, &[0x05, 0x01]));

    let (control_cid, control_events) = peer.open_channel(&mut session, HID_CONTROL_PSM, 64);
    assert_eq!(
        control_events,
        [Event::ChannelOpened {
            channel: Channel::Control,
        }]
    );
    let (interrupt_cid, interrupt_events) = peer.open_channel(&mut session, HID_INTERRUPT_PSM, 64);
    assert_eq!(
        interrupt_events,
        [Event::ChannelOpened {
            channel: Channel::Interrupt,
        }]
    );

    let output_events = peer.send(&mut session, interrupt_cid, &[0xA2, 0x01, 0x00, 0x03]);
    assert_eq!(
        output_events,
        [Event::HidOutput {
            channel: Channel::Interrupt,
            payload: vec![0x01, 0x00, 0x03],
        }]
    );

    assert!(session.core.interrupt_send_capacity_available());
    session.send_interrupt(&[0x30, 0x01]).ok().unwrap();
    peer.pump(&mut session);
    assert_eq!(peer.take_sdu(interrupt_cid), [0xA1, 0x30, 0x01]);
    assert!(session.drain_interrupt(Duration::ZERO).is_ok());

    // The control channel remains independently usable after interrupt I/O.
    let control_events = peer.send(&mut session, control_cid, &[0xA2, 0x02]);
    assert_eq!(
        control_events,
        [Event::HidOutput {
            channel: Channel::Control,
            payload: vec![0x02],
        }]
    );

    // A message on the control channel that cannot be read gets a refusal.
    peer.send(&mut session, control_cid, &[0x60, 0x01]);
    assert_eq!(peer.take_sdu(control_cid), [0x04]);
    // A request that the device does not support gets another.
    peer.send(&mut session, control_cid, &[0x60]);
    assert_eq!(peer.take_sdu(control_cid), [0x03]);
}

#[test]
fn active_reconnect_opens_control_then_interrupt_channels() {
    let (io, _commands) = ScriptedIo::initialization();
    let responses = io.live_responses.clone();
    let host_acl = io.acl_packets.clone();
    let mut bonds = MemoryBondStore::default();
    bonds
        .bonds
        .insert(peer_address(), ClassicBond::new([0xB6; 16], 4, true));
    let mut session = BackendSession::initialize(io, config(), bonds)
        .ok()
        .unwrap();
    session.start_reconnect().ok().unwrap();
    responses.lock().unwrap().extend([
        Packet::Event(event(
            EVENT_CONNECTION_COMPLETE,
            [&[0, 0x40, 0], peer_address().as_le_bytes().as_slice(), &[1, 0]].concat(),
        )),
        Packet::Event(event(EVENT_ENCRYPTION_CHANGE, vec![0, 0x40, 0, 1])),
    ]);
    assert_eq!(
        session.poll(Duration::ZERO).ok().unwrap(),
        [Event::Connected {
            peer: peer_address()
        }]
    );

    let mut peer = TestPeer::new(0x0040, responses, host_acl);
    peer.channels
        .register_server(
            Some(HID_CONTROL_PSM),
            ClassicChannelSpec {
                mtu: CLASSIC_SERVER_MTU,
            },
        )
        .unwrap();
    peer.channels
        .register_server(
            Some(HID_INTERRUPT_PSM),
            ClassicChannelSpec {
                mtu: CLASSIC_SERVER_MTU,
            },
        )
        .unwrap();
    let events = peer.pump(&mut session);

    assert_eq!(
        events,
        [
            Event::ChannelOpened {
                channel: Channel::Control,
            },
            Event::ChannelOpened {
                channel: Channel::Interrupt,
            },
        ],
        "control={:?} interrupt={:?}",
        session.core.protocols.control,
        session.core.protocols.interrupt,
    );
    assert!(session.core.interrupt_send_capacity_available());
}

#[test]
fn event_queue_overflow_is_immediately_terminal() {
    let (io, _) = ScriptedIo::initialization();
    let mut session = BackendSession::initialize(io, config(), MemoryBondStore::default())
        .ok()
        .unwrap();

    for _ in 0..=EVENT_QUEUE_CAPACITY {
        session
            .core
            .enqueue_event(Event::Disconnected { reason: None });
    }

    let first = session.poll(Duration::ZERO).unwrap_err();
    assert_eq!(first.kind(), ErrorKind::EventQueueOverflow);
    let second = session.poll(Duration::ZERO).unwrap_err();
    assert_eq!(second.kind(), ErrorKind::EventQueueOverflow);
}

#[test]
fn drain_interrupt_processes_completed_packets_until_host_queue_is_empty() {
    let (mut io, _) = ScriptedIo::initialization();
    io.responses[6] = Ok(Some(command_complete(
        HCI_READ_BUFFER_SIZE,
        vec![8, 0, 0, 64, 0, 0, 0],
    )));
    let responses = io.live_responses.clone();
    let host_acl = io.acl_packets.clone();
    let mut bonds = MemoryBondStore::default();
    bonds
        .bonds
        .insert(peer_address(), ClassicBond::new([0xB6; 16], 4, true));
    let mut session = BackendSession::initialize(io, config(), bonds)
        .ok()
        .unwrap();
    session.start_reconnect().ok().unwrap();
    responses.lock().unwrap().extend([
        Packet::Event(event(
            EVENT_CONNECTION_COMPLETE,
            [&[0, 0x40, 0], peer_address().as_le_bytes().as_slice(), &[1, 0]].concat(),
        )),
        Packet::Event(event(EVENT_ENCRYPTION_CHANGE, vec![0, 0x40, 0, 1])),
    ]);
    assert_eq!(
        session.poll(Duration::ZERO).ok().unwrap(),
        [Event::Connected {
            peer: peer_address()
        }]
    );

    let mut peer = TestPeer::new(0x0040, responses.clone(), host_acl);
    for psm in [HID_CONTROL_PSM, HID_INTERRUPT_PSM] {
        peer.channels
            .register_server(
                Some(psm),
                ClassicChannelSpec {
                    mtu: CLASSIC_SERVER_MTU,
                },
            )
            .unwrap();
    }
    peer.pump(&mut session);
    session.send_interrupt(&[0x55; 600]).ok().unwrap();
    assert!(!session.core.host.channel_output_is_flushed());
    responses.lock().unwrap().push_back(Packet::Event(event(
        EVENT_NUMBER_OF_COMPLETED_PACKETS,
        vec![1, 0x40, 0, 64, 0],
    )));

    session.drain_interrupt(Duration::from_secs(1)).ok().unwrap();
    assert!(session.core.host.channel_output_is_flushed());
}

#[test]
fn close_releases_hci_io_clears_pending_input_and_is_idempotent() {
    let (io, _) = ScriptedIo::initialization();
    let trace = Arc::new(Mutex::new(Vec::new()));
    let lifecycle_io = LifecycleIo {
        inner: io,
        trace: trace.clone(),
    };
    let mut session =
        BackendSession::initialize(lifecycle_io, config(), MemoryBondStore::default())
        .ok()
        .unwrap();
    session
        .core
        .enqueue_event(Event::Disconnected { reason: None });

    session.close().ok().unwrap();

    let observed = trace.lock().unwrap().clone();
    assert_eq!(observed, ["close", "drop"]);
    assert!(session.core.pending_events.is_empty());
    assert_eq!(
        session.poll(Duration::ZERO).unwrap_err().kind(),
        ErrorKind::Closed
    );
    session.close().ok().unwrap();
    let observed = trace.lock().unwrap().clone();
    assert_eq!(observed, ["close", "drop"]);
}

#[test]
fn disconnect_is_idempotent_and_immediately_rejects_more_interrupt_input() {
    let (io, commands) = ScriptedIo::initialization();
    let mut session = BackendSession::initialize(io, config(), MemoryBondStore::default())
        .ok()
        .unwrap();
    session.core.connection = Some((peer_address(), 0x0040));
    session.core.window = ConnectionWindow::Connected;
    session.core.protocols.interrupt = Some(ProtocolChannel {
        cid: 0x0041,
        open: true,
    });
    assert!(session.core.interrupt_send_capacity_available());

    session.disconnect().ok().unwrap();
    session.disconnect().ok().unwrap();

    assert!(!session.core.interrupt_send_capacity_available());
    assert_eq!(
        session.send_interrupt(&[0x01]).unwrap_err().kind(),
        ErrorKind::SendRejected
    );
    let commands = commands.lock().unwrap();
    let disconnects = commands
        .iter()
        .filter(|command| command.opcode == HCI_DISCONNECT)
        .collect::<Vec<_>>();
    assert_eq!(disconnects.len(), 1);
    assert_eq!(
        disconnects[0].parameters,
        [0x40, 0, REMOTE_USER_TERMINATED_CONNECTION]
    );
}

#[test]
fn rejected_connection_completion_does_not_poison_the_session() {
    let (io, commands) = ScriptedIo::initialization();
    let responses = io.live_responses.clone();
    let mut session = BackendSession::initialize(io, config(), MemoryBondStore::default())
        .ok()
        .unwrap();
    responses.lock().unwrap().push_back(Packet::Event(event(
        EVENT_CONNECTION_COMPLETE,
        [&[0, 0x44, 0], peer_address().as_le_bytes().as_slice(), &[1, 0]].concat(),
    )));

    assert!(session.poll(Duration::ZERO).ok().unwrap().is_empty());
    assert!(commands
        .lock()
        .unwrap()
        .iter()
        .any(|command| command.opcode == HCI_DISCONNECT
            && command.parameters == [0x44, 0, AUTHENTICATION_FAILURE]));
    responses.lock().unwrap().push_back(Packet::Event(event(
        EVENT_DISCONNECTION_COMPLETE,
        vec![0, 0x44, 0, REMOTE_USER_TERMINATED_CONNECTION],
    )));

    assert!(session.poll(Duration::ZERO).ok().unwrap().is_empty());
    session.start_pairing().ok().unwrap();
}

#[test]
fn rewritten_identity_mismatch_requires_recovery() {
    assert_eq!(
        identity_mismatch_kind(Some(AdapterIdentityPreparation::Rewritten)),
        ErrorKind::AdapterIdentityRecoveryRequired
    );
    assert_eq!(
        identity_mismatch_kind(Some(AdapterIdentityPreparation::AlreadyActive)),
        ErrorKind::IdentityMismatch
    );
}

#[test]
fn older_controllers_get_the_legacy_le_event_mask() {
    for (hci_version, mask) in [
        (6, [0x1F, 0, 0, 0, 0, 0, 0, 0]),
        (7, [0xFF, 0xFF, 0xF7, 0xFF, 0x0F, 0xED, 0x7B, 0x00]),
    ] {
        let (mut io, commands) = ScriptedIo::initialization();
        io.responses[2] = Ok(Some(command_complete(
            HCI_READ_LOCAL_VERSION_INFORMATION,
            vec![hci_version, 0x34, 0x12, 9, 10, 0, 0x78, 0x56],
        )));
        BackendSession::initialize(io, config(), MemoryBondStore::default())
            .ok()
            .unwrap();
        assert_eq!(commands.lock().unwrap()[5].parameters, mask);
    }
}

#[test]
fn each_unusable_controller_is_told_apart() {
    for (index, response, kind) in [
        (
            1,
            command_complete(HCI_READ_LOCAL_SUPPORTED_COMMANDS, vec![0; 63]),
            ErrorKind::ProtocolViolation,
        ),
        (
            2,
            command_complete(HCI_READ_LOCAL_VERSION_INFORMATION, vec![0; 7]),
            ErrorKind::ProtocolViolation,
        ),
        (
            3,
            command_complete(HCI_READ_LOCAL_EXTENDED_FEATURES, vec![1; 10]),
            ErrorKind::UnsupportedController,
        ),
        (
            6,
            command_complete(HCI_READ_BUFFER_SIZE, vec![8, 0, 0, 0, 0, 0, 0]),
            ErrorKind::UnsupportedController,
        ),
        (
            7,
            command_complete(HCI_READ_BD_ADDR, vec![0; 6]),
            ErrorKind::InvalidControllerIdentity,
        ),
    ] {
        let (mut io, _) = ScriptedIo::initialization();
        io.responses[index] = Ok(Some(response));
        let error = BackendSession::initialize(io, config(), MemoryBondStore::default())
            .err()
            .unwrap();
        assert_eq!(error.kind(), kind);
    }
}

#[test]
fn refused_command_status_and_foreign_events_during_startup() {
    let config = config();
    let mut startup = Startup::new();
    assert_eq!(startup.command(&config).opcode, HCI_RESET);
    let foreign = command_complete(HCI_READ_BD_ADDR, vec![0; 6]);
    assert_eq!(startup.take(&config, &foreign).ok().unwrap(), Progress::Waiting);
    let data = Packet::Acl(AclPacket::new(1, 0, 0, vec![]).unwrap());
    assert_eq!(startup.take(&config, &data).ok().unwrap(), Progress::Waiting);
    let status = Packet::Event(event(EVENT_COMMAND_STATUS, vec![0x0C, 1, 0x03, 0x0C]));
    let error = startup.take(&config, &status).unwrap_err();
    assert_eq!(error.kind(), ErrorKind::OpenFailed);
    assert_eq!(
        error.source(),
        Some(&ErrorSource::Command(CommandFailure {
            opcode: HCI_RESET,
            status: 0x0C
        }))
    );
    let pending = Packet::Event(event(EVENT_COMMAND_STATUS, vec![0, 1, 0x03, 0x0C]));
    assert_eq!(startup.take(&config, &pending).ok().unwrap(), Progress::Waiting);
    let short = Packet::Event(event(EVENT_COMMAND_COMPLETE, vec![1, 2, 3]));
    assert_eq!(
        startup.take(&config, &short).unwrap_err().kind(),
        ErrorKind::ProtocolViolation
    );
}

#[test]
fn reconnect_without_exactly_one_bond_is_refused() {
    let (io, _) = ScriptedIo::initialization();
    let mut session = BackendSession::initialize(io, config(), MemoryBondStore::default())
        .ok()
        .unwrap();
    assert_eq!(
        session.start_reconnect().unwrap_err().kind(),
        ErrorKind::NoBond
    );

    let (io, _) = ScriptedIo::initialization();
    let mut bonds = MemoryBondStore::default();
    for last in [1, 2] {
        bonds.bonds.insert(
            BluetoothAddress::from_le_bytes([last, 5, 4, 3, 2, 1], AddressKind::Public),
            ClassicBond::new([last; 16], 4, true),
        );
    }
    let mut session = BackendSession::initialize(io, config(), bonds)
        .ok()
        .unwrap();
    assert_eq!(
        session.start_reconnect().unwrap_err().kind(),
        ErrorKind::NoBond
    );

    let (io, _) = ScriptedIo::initialization();
    let bonds = MemoryBondStore {
        list_failure: Some(BondStoreError::ListFailed),
        ..MemoryBondStore::default()
    };
    let mut session = BackendSession::initialize(io, config(), bonds)
        .ok()
        .unwrap();
    assert_eq!(
        session.start_reconnect().unwrap_err().kind(),
        ErrorKind::InvalidBondStore
    );
}

#[test]
fn bond_store_learns_the_local_address_first() {
    let (io, _) = ScriptedIo::initialization();
    let session = BackendSession::initialize(io, config(), MemoryBondStore::default())
        .ok()
        .unwrap();
    assert_eq!(
        session.core.host.bond_store().selected,
        vec![local_address()]
    );

    let (io, _) = ScriptedIo::initialization();
    let bonds = MemoryBondStore {
        selection_failure: Some(BondStoreError::LoadFailed),
        ..MemoryBondStore::default()
    };
    let error = BackendSession::initialize(io, config(), bonds).err().unwrap();
    assert_eq!(error.kind(), ErrorKind::InvalidBondStore);
    assert_eq!(
        error.source(),
        Some(&ErrorSource::BondStore(BondStoreError::LoadFailed))
    );
}

#[test]
fn explicit_identity_is_compared_with_the_controller() {
    let controller = initialized();
    let other = BluetoothAddress::from_le_bytes([1, 2, 3, 4, 5, 6], AddressKind::Public);
    let open = |identity, preparation| {
        Session::open(
            controller,
            config(),
            metadata(),
            MemoryBondStore::default(),
            identity,
            preparation,
        )
        .map(|_| ())
        .map_err(|error| error.kind())
    };
    assert_eq!(open(LocalIdentity::AdapterDefault, None), Ok(()));
    assert_eq!(open(LocalIdentity::Explicit(local_address()), None), Ok(()));
    assert_eq!(
        open(LocalIdentity::Explicit(other), None),
        Err(ErrorKind::IdentityMismatch)
    );
    assert_eq!(
        open(
            LocalIdentity::Explicit(other),
            Some(AdapterIdentityPreparation::Rewritten)
        ),
        Err(ErrorKind::AdapterIdentityRecoveryRequired)
    );
}

#[test]
fn pairing_session_rejects_a_second_peer() {
    let (io, commands) = ScriptedIo::initialization();
    let responses = io.live_responses.clone();
    let mut session = BackendSession::initialize(io, config(), MemoryBondStore::default())
        .ok()
        .unwrap();
    session.start_pairing().ok().unwrap();
    session.start_pairing().ok().unwrap();
    let second = BluetoothAddress::from_le_bytes([9, 9, 9, 9, 9, 9], AddressKind::Public);
    responses.lock().unwrap().extend([
        Packet::Event(event(
            EVENT_CONNECTION_REQUEST,
            [peer_address().as_le_bytes().as_slice(), &[0, 0, 0, 1]].concat(),
        )),
        Packet::Event(event(
            EVENT_CONNECTION_REQUEST,
            [second.as_le_bytes().as_slice(), &[0, 0, 0, 1]].concat(),
        )),
    ]);
    assert!(session.poll(Duration::ZERO).ok().unwrap().is_empty());
    let rejections: Vec<_> = commands
        .lock()
        .unwrap()
        .iter()
        .filter(|command| command.opcode == HCI_REJECT_CONNECTION_REQUEST)
        .map(|command| command.parameters.clone())
        .collect();
    assert_eq!(rejections, [vec![9, 9, 9, 9, 9, 9, 0x0F]]);
    assert_eq!(
        session.start_reconnect().unwrap_err().kind(),
        ErrorKind::SendRejected
    );
}

#[test]
fn failed_connection_ends_the_window_and_is_reported() {
    let (io, commands) = ScriptedIo::initialization();
    let responses = io.live_responses.clone();
    let mut session = BackendSession::initialize(io, config(), MemoryBondStore::default())
        .ok()
        .unwrap();
    session.start_pairing().ok().unwrap();
    responses.lock().unwrap().push_back(Packet::Event(event(
        EVENT_CONNECTION_COMPLETE,
        [&[4, 0, 0], peer_address().as_le_bytes().as_slice(), &[1, 0]].concat(),
    )));
    assert_eq!(
        session.poll(Duration::ZERO).ok().unwrap(),
        [Event::Disconnected { reason: Some(4) }]
    );
    assert_eq!(session.core.window, ConnectionWindow::Idle);
    let commands = commands.lock().unwrap();
    assert_eq!(commands.last().unwrap().opcode, HCI_WRITE_SCAN_ENABLE);
    assert_eq!(commands.last().unwrap().parameters, [0]);
}

#[test]
fn malformed_and_unexpected_packets_end_the_session() {
    for packet in [
        Packet::Command(CommandPacket::new(HCI_RESET, vec![]).unwrap()),
        Packet::Event(event(EVENT_CONNECTION_REQUEST, vec![0; 9])),
        Packet::Event(event(EVENT_NUMBER_OF_COMPLETED_PACKETS, vec![])),
        Packet::Event(event(EVENT_NUMBER_OF_COMPLETED_PACKETS, vec![2, 1, 0, 1, 0])),
        Packet::Acl(AclPacket::new(0x40, 0, 0, vec![0, 0, 0x40, 0]).unwrap()),
    ] {
        let (io, _) = ScriptedIo::initialization();
        let responses = io.live_responses.clone();
        let mut session =
            BackendSession::initialize(io, config(), MemoryBondStore::default())
        .ok()
        .unwrap();
        responses.lock().unwrap().push_back(packet);
        assert_eq!(
            session.poll(Duration::ZERO).unwrap_err().kind(),
            ErrorKind::ProtocolViolation
        );
        assert_eq!(
            session.start_pairing().unwrap_err().kind(),
            ErrorKind::ProtocolViolation
        );
    }
}

#[test]
fn drained_session_needs_no_packet_and_a_silent_one_times_out() {
    let (io, _) = ScriptedIo::initialization();
    let mut session = BackendSession::initialize(io, config(), MemoryBondStore::default())
        .ok()
        .unwrap();
    assert!(session.drain_interrupt(Duration::ZERO).is_ok());
    assert_eq!(
        session
            .core
            .drain_interrupt(Received::Nothing)
            .unwrap_err()
            .kind(),
        ErrorKind::DrainTimedOut
    );
    let error = session
        .core
        .drain_interrupt(Received::Failed(Error::new(ErrorKind::SourceTerminated)))
        .unwrap_err();
    assert_eq!(error.kind(), ErrorKind::SourceTerminated);
    assert_eq!(
        session.poll(Duration::ZERO).unwrap_err().kind(),
        ErrorKind::SourceTerminated
    );
}

#[test]
fn identity_helpers_reverse_addresses_and_map_errors() {
    assert_eq!(
        target_display_order(local_address()).ok().unwrap(),
        [0, 0x1B, 0xDC, 0xF9, 0x9F, 0x7D]
    );
    let random = BluetoothAddress::from_le_bytes([1, 2, 3, 4, 5, 6], AddressKind::Random);
    assert_eq!(
        target_display_order(random).unwrap_err().kind(),
        ErrorKind::InvalidConfiguration
    );
    assert_eq!(read_address(&[1, 2, 3, 4, 5, 6]).ok().unwrap(), [6, 5, 4, 3, 2, 1]);
    assert_eq!(
        read_address(&[1]).unwrap_err().kind(),
        ErrorKind::ProtocolViolation
    );
    assert_eq!(
        map_identity_error(IdentityPreparationErrorKind::UnsupportedController),
        ErrorKind::UnsupportedController
    );
    assert_eq!(
        map_identity_error(IdentityPreparationErrorKind::FailedBeforeWrite),
        ErrorKind::OpenFailed
    );
    assert_eq!(
        map_identity_error(IdentityPreparationErrorKind::RecoveryRequired),
        ErrorKind::AdapterIdentityRecoveryRequired
    );
}

#[test]
fn vendor_replies_are_told_from_other_events() {
    let vendor = Packet::Event(event(EVENT_VENDOR, vec![0xC2, 1]));
    assert_eq!(
        vendor_reply(0xFC00, &vendor, true).ok().unwrap(),
        Some(vec![0xC2, 1])
    );
    assert_eq!(vendor_reply(0xFC00, &vendor, false).ok().unwrap(), None);
    let refused = Packet::Event(event(EVENT_COMMAND_STATUS, vec![1, 1, 0x00, 0xFC]));
    assert_eq!(
        vendor_reply(0xFC00, &refused, false).unwrap_err().kind(),
        ErrorKind::OpenFailed
    );
    let complete = command_complete(0xFC00, vec![]);
    assert_eq!(vendor_reply(0xFC00, &complete, false).ok().unwrap(), None);
}

struct TestPeer {
    connection_handle: u16,
    channels: ChannelManager,
    assembler: AclAssembler,
    responses: Arc<Mutex<VecDeque<Packet>>>,
    host_acl: Arc<Mutex<VecDeque<AclPacket>>>,
}

impl TestPeer {
    fn new(
        connection_handle: u16,
        responses: Arc<Mutex<VecDeque<Packet>>>,
        host_acl: Arc<Mutex<VecDeque<AclPacket>>>,
    ) -> Self {
        Self {
            connection_handle,
            channels: ChannelManager::new(),
            assembler: AclAssembler::default(),
            responses,
            host_acl,
        }
    }

    fn open_channel(
        &mut self,
        session: &mut BackendSession<ScriptedIo, MemoryBondStore>,
        psm: u32,
        mtu: u16,
    ) -> (u16, Vec<Event>) {
        let cid = self
            .channels
            .connect(psm, ClassicChannelSpec { mtu })
            .unwrap();
        let mut events = Vec::new();
        for _ in 0..32 {
            events.extend(self.pump(session));
            if self
                .channels
                .channel(cid)
                .is_some_and(|channel| channel.state == ClassicChannelState::Open)
            {
                return (cid, events);
            }
        }
        panic!("peer channel did not open for PSM {psm:#06x}");
    }

    fn send(
        &mut self,
        session: &mut BackendSession<ScriptedIo, MemoryBondStore>,
        cid: u16,
        sdu: &[u8],
    ) -> Vec<Event> {
        self.channels.send(cid, sdu).unwrap();
        self.pump(session)
    }

    fn take_sdu(&mut self, cid: u16) -> Vec<u8> {
        self.channels
            .channel_mut(cid)
            .and_then(|channel| channel.pop_received())
            .expect("peer channel received one SDU")
    }

    fn pump(&mut self, session: &mut BackendSession<ScriptedIo, MemoryBondStore>) -> Vec<Event> {
        let mut events = Vec::new();
        for _ in 0..64 {
            let outbound = self.channels.drain_outbound();
            let mut progress = !outbound.is_empty();
            if progress {
                self.responses
                    .lock()
                    .unwrap()
                    .extend(outbound.into_iter().map(|pdu| {
                        Packet::Acl(
                            AclPacket::new(self.connection_handle, 0, 0, pdu.to_bytes(false))
                                .unwrap(),
                        )
                    }));
            }

            let polled = session.poll(Duration::ZERO).ok().unwrap();
            progress |= !polled.is_empty();
            events.extend(polled);

            let host_packets = {
                let mut packets = self.host_acl.lock().unwrap();
                std::mem::take(&mut *packets)
            };
            progress |= !host_packets.is_empty();
            for packet in host_packets {
                if let Some(bytes) = self.assembler.feed(&packet).unwrap() {
                    self.channels.process_bytes(&bytes).unwrap();
                }
            }
            if !progress {
                return events;
            }
        }
        panic!("peer/session pump did not quiesce");
    }
}

fn contains_bytes(haystack: &[u8], needle: &[u8]) -> bool {
    haystack
        .windows(needle.len())
        .any(|window| window == needle)
}

#[derive(Default)]
struct MemoryBondStore {
    bonds: HashMap<BluetoothAddress, ClassicBond>,
    selected: Vec<BluetoothAddress>,
    selection_failure: Option<BondStoreError>,
    list_failure: Option<BondStoreError>,
}

impl BondStore for MemoryBondStore {
    fn select_local_address(
        &mut self,
        local_address: BluetoothAddress,
    ) -> Result<(), BondStoreError> {
        if let Some(error) = self.selection_failure {
            return Err(error);
        }
        self.selected.push(local_address);
        Ok(())
    }

    fn load(&self, peer: BluetoothAddress) -> Result<Option<ClassicBond>, BondStoreError> {
        Ok(self.bonds.get(&peer).cloned())
    }

    fn load_all(&self) -> Result<Vec<(BluetoothAddress, ClassicBond)>, BondStoreError> {
        if let Some(error) = self.list_failure {
            return Err(error);
        }
        Ok(self
            .bonds
            .iter()
            .map(|(peer, bond)| (*peer, bond.clone()))
            .collect())
    }

    fn upsert(&mut self, peer: BluetoothAddress, bond: ClassicBond) -> Result<(), BondStoreError> {
        self.bonds.insert(peer, bond);
        Ok(())
    }
}

struct ScriptedIo {
    responses: Vec<Result<Option<Packet>, Error>>,
    next_response: usize,
    live_responses: Arc<Mutex<VecDeque<Packet>>>,
    commands: Arc<Mutex<Vec<CommandPacket>>>,
    acl_packets: Arc<Mutex<VecDeque<AclPacket>>>,
}

impl ScriptedIo {
    fn initialization() -> (Self, Arc<Mutex<Vec<CommandPacket>>>) {
        let responses = initialization_responses()
            .into_iter()
            .map(|packet| Ok(Some(packet)))
            .collect();
        let commands = Arc::new(Mutex::new(Vec::new()));
        (
            Self {
                responses,
                next_response: 0,
                live_responses: Arc::new(Mutex::new(VecDeque::new())),
                commands: commands.clone(),
                acl_packets: Arc::new(Mutex::new(VecDeque::new())),
            },
            commands,
        )
    }
}

impl HciIo for ScriptedIo {
    fn send(&mut self, packet: &Packet) -> Result<(), Error> {
        match packet {
            Packet::Command(command) => self.commands.lock().unwrap().push(command.clone()),
            Packet::Acl(packet) => self.acl_packets.lock().unwrap().push_back(packet.clone()),
            Packet::Event(_) => return Err(Error::new(ErrorKind::ProtocolViolation)),
        }
        Ok(())
    }

    fn recv_timeout(&mut self, _timeout: Duration) -> Result<Option<Packet>, Error> {
        if let Some(response) = self.responses.get(self.next_response) {
            self.next_response += 1;
            return response.clone();
        }
        Ok(self.live_responses.lock().unwrap().pop_front())
    }

    fn metadata(&self) -> UsbAdapterMetadata {
        metadata()
    }

    fn close(&mut self) -> Result<(), Error> {
        Ok(())
    }
}

struct LifecycleIo {
    inner: ScriptedIo,
    trace: Arc<Mutex<Vec<&'static str>>>,
}

impl HciIo for LifecycleIo {
    fn send(&mut self, packet: &Packet) -> Result<(), Error> {
        self.inner.send(packet)
    }

    fn recv_timeout(&mut self, timeout: Duration) -> Result<Option<Packet>, Error> {
        self.inner.recv_timeout(timeout)
    }

    fn metadata(&self) -> UsbAdapterMetadata {
        self.inner.metadata()
    }

    fn close(&mut self) -> Result<(), Error> {
        self.trace.lock().unwrap().push("close");
        Ok(())
    }
}

impl Drop for LifecycleIo {
    fn drop(&mut self) {
        self.trace
            .lock()
            .unwrap_or_else(|poisoned| poisoned.into_inner())
            .push("drop");
    }
}

fn metadata() -> UsbAdapterMetadata {
    UsbAdapterMetadata {
        vendor_id: 0x0A12,
        product_id: 1,
        bus: 1,
        device_address: 7,
        ports: vec![2, 3],
    }
}

fn initialized() -> swbt_bumble_backend::session::startup::InitializedController {
    let config = config();
    let mut startup = Startup::new();
    for packet in initialization_responses() {
        if let Progress::Ready(controller) = startup.take(&config, &packet).ok().unwrap() {
            return controller;
        }
    }
    panic!("controller did not become ready");
}

fn initialization_responses() -> Vec<Packet> {
    let mut responses = vec![
        command_complete(HCI_RESET, Vec::new()),
        command_complete(HCI_READ_LOCAL_SUPPORTED_COMMANDS, vec![0; 64]),
        command_complete(
            HCI_READ_LOCAL_VERSION_INFORMATION,
            vec![9, 0x34, 0x12, 9, 10, 0, 0x78, 0x56],
        ),
        command_complete(
            HCI_READ_LOCAL_EXTENDED_FEATURES,
            vec![0, 0, 0, 0, 0, 0, 0, 0, 0, 0],
        ),
        command_complete(HCI_SET_EVENT_MASK, Vec::new()),
        command_complete(HCI_LE_SET_EVENT_MASK, Vec::new()),
        command_complete(HCI_READ_BUFFER_SIZE, vec![0xFD, 0x03, 0, 64, 0, 0, 0]),
        command_complete(HCI_READ_BD_ADDR, local_address().as_le_bytes().to_vec()),
    ];
    responses.extend(
        [
            HCI_WRITE_LOCAL_NAME,
            HCI_WRITE_CLASS_OF_DEVICE,
            HCI_WRITE_SIMPLE_PAIRING_MODE,
            HCI_WRITE_EXTENDED_INQUIRY_RESPONSE,
            HCI_WRITE_DEFAULT_LINK_POLICY_SETTINGS,
            HCI_WRITE_SCAN_ENABLE,
        ]
        .map(|opcode| command_complete(opcode, Vec::new())),
    );
    responses
}

fn command_complete(opcode: u16, return_parameters: Vec<u8>) -> Packet {
    command_complete_with_status(opcode, 0, return_parameters)
}

fn command_complete_with_status(
    opcode: u16,
    status: u8,
    return_parameters: impl IntoIterator<Item = u8>,
) -> Packet {
    let mut parameters = vec![1];
    parameters.extend_from_slice(&opcode.to_le_bytes());
    parameters.push(status);
    parameters.extend(return_parameters);
    Packet::Event(event(EVENT_COMMAND_COMPLETE, parameters))
}

fn event(event_code: u8, parameters: Vec<u8>) -> EventPacket {
    EventPacket::new(event_code, parameters).unwrap()
}

fn opcodes(commands: &Arc<Mutex<Vec<CommandPacket>>>) -> Vec<u16> {
    commands
        .lock()
        .unwrap()
        .iter()
        .map(|command| command.opcode)
        .collect()
}

fn local_address() -> BluetoothAddress {
    BluetoothAddress::from_le_bytes([0x7D, 0x9F, 0xF9, 0xDC, 0x1B, 0], AddressKind::Public)
}

fn config() -> SessionConfig {
    SessionConfig::new(
        "Wireless Gamepad",
        0x0000_2508,
        HidServiceConfig::new(
            vec![0x05, 0x01],
            HidSdpPolicy {
                service_name: "Wireless Gamepad".into(),
                service_description: None,
                provider_name: None,
                device_release_number: None,
                bluetooth_profile_version: 0x0101,
                parser_version: 0x0111,
                device_subclass: 8,
                country_code: 0,
                virtual_cable: true,
                reconnect_initiate: true,
                remote_wake: None,
                profile_version: 0x0101,
                supervision_timeout: 0x0C80,
                normally_connectable: true,
                boot_device: false,
                ssr_host_max_latency: 0x0640,
                ssr_host_min_timeout: 0x0320,
            },
        ),
    )
    .ok()
    .unwrap()
}

#[test]
fn closed_session_refuses_every_request() {
    let (io, _) = ScriptedIo::initialization();
    let mut session = BackendSession::initialize(io, config(), MemoryBondStore::default())
        .ok()
        .unwrap();
    session.core.close();
    for result in [
        session.start_pairing(),
        session.start_reconnect(),
        session.send_interrupt(&[1]),
        session.drain_interrupt(Duration::ZERO),
        session.disconnect(),
    ] {
        assert_eq!(result.unwrap_err().kind(), ErrorKind::Closed);
    }
}
