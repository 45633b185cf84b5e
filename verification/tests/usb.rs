use std::collections::VecDeque;

use swbt_bumble_backend::hci::{AclPacket, CodecError, CommandPacket, EventPacket, Packet};
use swbt_bumble_backend::usb::{
    device_is_bluetooth_hci, frame_packets, select_layout, DeviceInfo, DeviceSearch, Direction,
    PollStep, TransferType, UsbEndpointInfo, UsbError, UsbInterfaceInfo, UsbLayout, UsbSelector,
    UsbTransferError, UsbTransport, Verdict, WritePlan,
};

#[derive(Default)]
struct ScriptState {
    events: VecDeque<Result<Vec<u8>, UsbTransferError>>,
    acl: VecDeque<Result<Vec<u8>, UsbTransferError>>,
    control_writes: Vec<Vec<u8>>,
    bulk_writes: Vec<Vec<u8>>,
}

/// A transport whose transfers follow a script.
struct Scripted {
    state: ScriptState,
    transport: UsbTransport,
}

impl Scripted {
    fn new(state: ScriptState) -> Self {
        Self {
            state,
            transport: UsbTransport::new(layout()),
        }
    }

    fn poll_packet(&mut self) -> Result<Option<Packet>, UsbError> {
        match self.transport.begin_poll() {
            PollStep::Idle => Ok(None),
            PollStep::Ready(packet) => Ok(Some(packet)),
            PollStep::Read { events, endpoint } => {
                assert_eq!(endpoint, if events { 0x81 } else { 0x82 });
                let queue = if events {
                    &mut self.state.events
                } else {
                    &mut self.state.acl
                };
                let mut buffer = vec![0u8; 4095];
                let outcome = match queue.pop_front().unwrap_or(Err(UsbTransferError::Timeout)) {
                    Ok(bytes) => {
                        buffer[..bytes.len()].copy_from_slice(&bytes);
                        Ok(bytes.len())
                    }
                    Err(error) => Err(error),
                };
                self.transport.finish_poll(events, &buffer, outcome)
            }
        }
    }

    fn write_packet(&mut self, packet: &Packet) -> Result<(), UsbError> {
        match self.transport.plan_write(packet)? {
            WritePlan::Control {
                request_type,
                payload,
            } => {
                assert_eq!(request_type, 0x20);
                let length = payload.len();
                self.state.control_writes.push(payload);
                UsbTransport::finish_write(length, length)
            }
            WritePlan::Bulk { endpoint, payload } => {
                assert_eq!(endpoint, 0x02);
                let length = payload.len();
                self.state.bulk_writes.push(payload);
                UsbTransport::finish_write(length, length)
            }
        }
    }
}

fn layout() -> UsbLayout {
    UsbLayout {
        configuration: 1,
        interface: 0,
        alternate: 0,
        interrupt_in: 0x81,
        bulk_in: 0x82,
        bulk_out: 0x02,
    }
}

fn compatible() -> UsbInterfaceInfo {
    UsbInterfaceInfo {
        configuration: 1,
        interface: 0,
        alternate: 0,
        class: 0xE0,
        subclass: 1,
        protocol: 1,
        endpoints: vec![
            UsbEndpointInfo {
                address: 0x81,
                direction: Direction::In,
                transfer_type: TransferType::Interrupt,
            },
            UsbEndpointInfo {
                address: 0x82,
                direction: Direction::In,
                transfer_type: TransferType::Bulk,
            },
            UsbEndpointInfo {
                address: 0x02,
                direction: Direction::Out,
                transfer_type: TransferType::Bulk,
            },
        ],
    }
}

#[test]
fn selectors_cover_index_vid_pid_serial_occurrence_and_path() {
    assert_eq!(UsbSelector::parse("usb:0").unwrap(), UsbSelector::Index(0));
    assert_eq!(
        UsbSelector::parse("0a12:0001/CSR").unwrap(),
        UsbSelector::VidPid {
            vendor_id: 0x0A12,
            product_id: 0x0001,
            serial_number: Some("CSR".into()),
            occurrence: 0,
        }
    );
    assert_eq!(
        UsbSelector::parse("0a12:0001#2").unwrap(),
        UsbSelector::VidPid {
            vendor_id: 0x0A12,
            product_id: 0x0001,
            serial_number: None,
            occurrence: 2,
        }
    );
    assert_eq!(
        UsbSelector::parse("1-3.4").unwrap(),
        UsbSelector::Path {
            bus: 1,
            ports: vec![3, 4],
        }
    );
}

#[test]
fn endpoint_selection_requires_bluetooth_interrupt_and_bulk_triplet() {
    assert_eq!(select_layout(&[compatible()]), Some(layout()));
}

#[test]
fn scripted_transport_reads_event_and_acl_and_writes_command_and_acl() {
    let mut state = ScriptState::default();
    state
        .events
        .push_back(Ok(vec![0x0E, 0x04, 0x01, 0x03, 0x0C, 0x00]));
    state
        .acl
        .push_back(Ok(vec![0x40, 0x20, 0x02, 0x00, 0xAA, 0xBB]));
    let mut transport = Scripted::new(state);

    assert!(matches!(
        transport.poll_packet().unwrap(),
        Some(Packet::Event(_))
    ));
    assert!(matches!(
        transport.poll_packet().unwrap(),
        Some(Packet::Acl(_))
    ));
    transport
        .write_packet(&Packet::Command(
            CommandPacket::new(0x0C03, Vec::new()).unwrap(),
        ))
        .unwrap();
    transport
        .write_packet(&Packet::Acl(
            AclPacket::new(0x0040, 2, 0, vec![0xCC]).unwrap(),
        ))
        .unwrap();

    assert_eq!(transport.state.control_writes, [vec![0x03, 0x0C, 0x00]]);
    assert_eq!(
        transport.state.bulk_writes,
        [vec![0x40, 0x20, 0x01, 0x00, 0xCC]]
    );
}

#[test]
fn event_framer_preserves_partial_and_multiple_usb_transfers() {
    let mut state = ScriptState::default();
    state.events.push_back(Ok(vec![0x0E, 0x04, 0x01]));
    state.events.push_back(Ok(vec![
        0x03, 0x0C, 0x00, 0xFF, 0x01, 0xAA, 0xFF, 0x01, 0xBB,
    ]));
    let mut transport = Scripted::new(state);

    assert!(transport.poll_packet().unwrap().is_none());
    assert!(transport.poll_packet().unwrap().is_none());
    assert!(matches!(
        transport.poll_packet().unwrap(),
        Some(Packet::Event(EventPacket {
            event_code: 0x0E,
            ..
        }))
    ));
    assert!(matches!(
        transport.poll_packet().unwrap(),
        Some(Packet::Event(EventPacket {
            event_code: 0xFF,
            parameters,
        })) if parameters == [0xAA]
    ));
    assert!(matches!(
        transport.poll_packet().unwrap(),
        Some(Packet::Event(EventPacket {
            event_code: 0xFF,
            parameters,
        })) if parameters == [0xBB]
    ));
}

#[test]
fn event_packets_are_not_valid_usb_output() {
    let mut transport = Scripted::new(ScriptState::default());
    let event = Packet::Event(EventPacket::new(0xFF, vec![1]).unwrap());

    assert!(matches!(
        transport.write_packet(&event).unwrap_err(),
        UsbError::Codec(CodecError::UnsupportedPacketType(0x04))
    ));
}

#[test]
fn transfer_failures_and_odd_counts_are_told_apart() {
    let mut transport = UsbTransport::new(layout());
    assert_eq!(
        transport.finish_poll(true, &[0; 4], Err(UsbTransferError::Timeout)),
        Ok(None)
    );
    assert_eq!(transport.finish_poll(true, &[0; 4], Ok(0)), Ok(None));
    assert_eq!(
        transport.finish_poll(true, &[0; 4], Err(UsbTransferError::Disconnected)),
        Err(UsbError::Transfer(UsbTransferError::Disconnected))
    );
    assert_eq!(
        transport.finish_poll(true, &[0; 4], Ok(5)),
        Err(UsbError::Transfer(UsbTransferError::Other(
            "USB backend returned a count larger than its buffer".into()
        )))
    );
    assert_eq!(
        UsbTransport::finish_write(4, 3),
        Err(UsbError::PartialWrite {
            expected: 4,
            actual: 3
        })
    );
}

#[test]
fn shut_down_transport_reads_and_writes_nothing() {
    let mut transport = UsbTransport::new(layout());
    transport.shut_down();
    assert_eq!(transport.begin_poll(), PollStep::Idle);
    let reset = Packet::Command(CommandPacket::new(0x0C03, Vec::new()).unwrap());
    assert_eq!(transport.plan_write(&reset), Err(UsbError::Closed));
}

#[test]
fn oversized_packets_clear_the_buffer() {
    let mut buffered = vec![0x40, 0x00, 0xFF, 0x0F];
    assert_eq!(
        frame_packets(0x02, &mut buffered),
        Err(UsbError::PacketTooLarge {
            declared: 4100,
            maximum: 4096
        })
    );
    assert!(buffered.is_empty());
    let mut buffered = vec![0x40, 0x00, 0xFB, 0x0F];
    assert_eq!(frame_packets(0x02, &mut buffered), Ok(vec![]));
    assert_eq!(buffered.len(), 4);
    assert_eq!(
        frame_packets(0x01, &mut buffered),
        Err(UsbError::Codec(CodecError::UnsupportedPacketType(0x01)))
    );
}

#[test]
fn cuts_between_transfers_do_not_matter() {
    let bytes = vec![
        0x0E, 0x04, 0x01, 0x03, 0x0C, 0x00, 0xFF, 0x01, 0xAA, 0xFF, 0x00, 0x13,
    ];
    let mut whole = bytes.clone();
    let expected = frame_packets(0x04, &mut whole).unwrap();
    assert_eq!(expected.len(), 3);
    for cut in 0..bytes.len() {
        let mut buffered = bytes[..cut].to_vec();
        let mut packets = frame_packets(0x04, &mut buffered).unwrap();
        buffered.extend_from_slice(&bytes[cut..]);
        packets.extend(frame_packets(0x04, &mut buffered).unwrap());
        assert_eq!(packets, expected);
        assert_eq!(buffered, whole);
    }
}

#[test]
fn malformed_selectors_are_refused() {
    for text in [
        "", "usb:", "x", "0a12:", ":0001", "0a12:0001/", "0a12:0001#", "0a12:0001#x", "12345:1",
        "1-", "1-300", "256-1", "1-3.", "1-.3", "-1", "0a12:0001/a#1:",
    ] {
        let parsed = UsbSelector::parse(text);
        if text == "0a12:0001/a#1:" {
            assert_eq!(
                parsed,
                Ok(UsbSelector::VidPid {
                    vendor_id: 0x0A12,
                    product_id: 1,
                    serial_number: Some("a#1:".into()),
                    occurrence: 0,
                })
            );
        } else {
            assert_eq!(parsed, Err(UsbError::InvalidSelector), "{text:?}");
        }
    }
    assert_eq!(UsbSelector::parse("+3"), Ok(UsbSelector::Index(3)));
    assert_eq!(
        UsbSelector::parse("usb:a12:1/s\u{e9}rie").unwrap(),
        UsbSelector::VidPid {
            vendor_id: 0x0A12,
            product_id: 1,
            serial_number: Some("s\u{e9}rie".into()),
            occurrence: 0,
        }
    );
}

#[test]
fn layouts_need_every_endpoint_and_the_right_codes() {
    for missing in 0..3 {
        let mut interface = compatible();
        interface.endpoints.remove(missing);
        assert_eq!(select_layout(&[interface]), None);
    }
    let mut audio = compatible();
    audio.class = 1;
    assert_eq!(select_layout(&[audio.clone()]), None);
    let mut second = compatible();
    second.interface = 3;
    assert_eq!(select_layout(&[audio, second]).unwrap().interface, 3);
}

#[test]
fn controllers_are_known_by_device_or_interface_codes() {
    assert!(device_is_bluetooth_hci(0xE0, 1, 1, &[]));
    assert!(!device_is_bluetooth_hci(0, 0, 0, &[]));
    assert!(device_is_bluetooth_hci(0, 0, 0, &[compatible()]));
    assert!(!device_is_bluetooth_hci(9, 0, 0, &[compatible()]));
}

fn device(ids: (u16, u16), bus: u8, ports: Vec<u8>, bluetooth: bool) -> DeviceInfo {
    DeviceInfo {
        ids: Some(ids),
        bus,
        ports: Some(ports),
        bluetooth,
    }
}

#[test]
fn searches_take_the_device_that_is_meant() {
    let mouse = device((0x046D, 1), 1, vec![1], false);
    let first = device((0x0A12, 1), 1, vec![3, 4], true);
    let second = device((0x0A12, 1), 2, vec![3, 4], true);

    let mut search = DeviceSearch::new(UsbSelector::Index(1));
    assert_eq!(search.offer(&mouse), Verdict::Skip);
    assert_eq!(search.offer(&first), Verdict::Skip);
    assert_eq!(search.offer(&second), Verdict::Take);

    let mut search = DeviceSearch::new(UsbSelector::parse("2-3.4").unwrap());
    assert_eq!(search.offer(&first), Verdict::Skip);
    assert_eq!(search.offer(&second), Verdict::Take);

    let mut search = DeviceSearch::new(UsbSelector::parse("0a12:0001#1").unwrap());
    assert_eq!(search.offer(&mouse), Verdict::Skip);
    assert_eq!(search.offer(&first), Verdict::Skip);
    assert_eq!(search.offer(&second), Verdict::Take);

    let mut search = DeviceSearch::new(UsbSelector::parse("0a12:0001/CSR").unwrap());
    assert_eq!(search.offer(&mouse), Verdict::Skip);
    assert_eq!(search.offer(&first), Verdict::ReadSerial);
    assert_eq!(search.offer_serial(&"other".into()), Verdict::Skip);
    assert_eq!(search.offer(&second), Verdict::ReadSerial);
    assert_eq!(search.offer_serial(&"CSR".into()), Verdict::Take);
}
