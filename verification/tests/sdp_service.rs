use swbt_bumble_backend::sdp::attribute::ServiceAttribute;
use swbt_bumble_backend::sdp::element::DataElement;
use swbt_bumble_backend::sdp::error_code;
use swbt_bumble_backend::sdp::pdu::SdpPdu;
use swbt_bumble_backend::sdp::service::{
    AttributeId, ClientError, SdpClient, SdpRequestHandler, SdpServer, SdpTransport, TransportError,
};
use swbt_bumble_backend::sdp::Error;
use swbt_bumble_backend::BluetoothUuid as Uuid;

fn uuid16(v: u16) -> Uuid {
    Uuid::from_u16(v)
}

/// Two service records, both advertising the SerialPort class (0x1101).
fn build_server(mtu: u16) -> SdpServer {
    let mut server = SdpServer::new(mtu);
    server.add_service(
        0x0001_0000,
        vec![
            ServiceAttribute::new(0x0000, DataElement::unsigned_integer_32(0x0001_0000)),
            ServiceAttribute::new(
                0x0001,
                DataElement::sequence(vec![DataElement::uuid(uuid16(0x1101))]),
            ),
            ServiceAttribute::new(
                0x0004,
                DataElement::sequence(vec![
                    DataElement::sequence(vec![DataElement::uuid(uuid16(0x0100))]),
                    DataElement::sequence(vec![
                        DataElement::uuid(uuid16(0x0003)),
                        DataElement::unsigned_integer_8(1),
                    ]),
                ]),
            ),
        ],
    );
    server.add_service(
        0x0001_0001,
        vec![
            ServiceAttribute::new(0x0000, DataElement::unsigned_integer_32(0x0001_0001)),
            ServiceAttribute::new(
                0x0001,
                DataElement::sequence(vec![DataElement::uuid(uuid16(0x1101))]),
            ),
        ],
    );
    server
}

fn hex(pdu: &SdpPdu) -> String {
    pdu.to_bytes()
        .unwrap()
        .iter()
        .map(|b| format!("{b:02x}"))
        .collect()
}

fn pattern() -> DataElement {
    DataElement::sequence(vec![DataElement::uuid(uuid16(0x1101))])
}

/// The `[0x0000..=0xFFFF]` range selector (a 32-bit value), selecting every
/// attribute.
fn all_attributes() -> DataElement {
    DataElement::sequence(vec![DataElement::unsigned_integer_32(0x0000_FFFF)])
}

#[test]
fn service_search_attribute_response_matches_upstream() {
    // Large MTU: the whole answer fits in one PDU.
    let mut server = build_server(512);
    let response = server.handle_request(&SdpPdu::ServiceSearchAttributeRequest {
        transaction_id: 1,
        service_search_pattern: pattern(),
        maximum_attribute_byte_count: 0xFFFF,
        attribute_id_list: all_attributes(),
        continuation_state: vec![0],
    });
    assert_eq!(
        hex(&response),
        "070001003a0037353535210900000a000100000900013503191101090004350c35031901003505190003080135100900000a00010001090001350319110100"
    );
}

#[test]
fn continuation_chunks_match_upstream_and_reassemble() {
    // Small MTU (cap = mtu - 9 = 16 bytes/chunk): forces four response PDUs.
    let mut server = build_server(25);
    let mut continuation_state = vec![0u8];
    let mut transaction_id = 1u16;
    let mut rounds = Vec::new();
    loop {
        let response = server.handle_request(&SdpPdu::ServiceSearchAttributeRequest {
            transaction_id,
            service_search_pattern: pattern(),
            maximum_attribute_byte_count: 0xFFFF,
            attribute_id_list: all_attributes(),
            continuation_state: continuation_state.clone(),
        });
        rounds.push(hex(&response));
        continuation_state = match &response {
            SdpPdu::ServiceSearchAttributeResponse {
                continuation_state, ..
            } => continuation_state.clone(),
            other => panic!("expected SSA response, got {other:?}"),
        };
        if continuation_state == [0] {
            break;
        }
        transaction_id += 1;
    }

    assert_eq!(
        rounds,
        vec![
            "07000100140010353535210900000a00010000090001350100",
            "0700020014001003191101090004350c350319010035050100",
            "07000300140010190003080135100900000a00010001090100",
            "070004000a00070001350319110100",
        ],
        "continuation must chunk into four pinned PDUs"
    );
    assert!(rounds.len() >= 2, "the continuation path must actually run");
}

/// The record set that both the single-PDU and the continuation exchanges must
/// produce.
fn assert_expected_records(records: &[Vec<ServiceAttribute>]) {
    assert_eq!(records.len(), 2, "two services match 0x1101");

    let record0 = &records[0];
    assert_eq!(record0.len(), 3);
    assert_eq!(
        ServiceAttribute::find(record0, 0x0000),
        Some(&DataElement::unsigned_integer_32(0x0001_0000))
    );
    assert_eq!(
        ServiceAttribute::find(record0, 0x0001),
        Some(&DataElement::sequence(vec![DataElement::uuid(uuid16(
            0x1101
        ))]))
    );
    assert!(ServiceAttribute::find(record0, 0x0004).is_some());

    let record1 = &records[1];
    assert_eq!(record1.len(), 2);
    assert_eq!(
        ServiceAttribute::find(record1, 0x0000),
        Some(&DataElement::unsigned_integer_32(0x0001_0001))
    );
}

#[test]
fn client_reassembles_the_same_records_regardless_of_mtu() {
    // Single-PDU case.
    let mut single = SdpClient::new(build_server(512));
    let records_single = single
        .service_search_attribute(&[uuid16(0x1101)], &[AttributeId::Range(0x0000, 0xFFFF)])
        .unwrap();
    assert_expected_records(&records_single);

    // Multi-PDU case: the client must stitch four chunks back into the same set.
    let mut chunked = SdpClient::new(build_server(25));
    let records_chunked = chunked
        .service_search_attribute(&[uuid16(0x1101)], &[AttributeId::Range(0x0000, 0xFFFF)])
        .unwrap();
    assert_eq!(records_single, records_chunked);
}

#[test]
fn service_attribute_and_search_round_trip() {
    let mut client = SdpClient::new(build_server(512));

    // Service Search: the handles of the matching records, in order.
    let handles = client.search_services(&[uuid16(0x1101)]).unwrap();
    assert_eq!(handles, vec![0x0001_0000, 0x0001_0001]);

    // Service Attribute: all attributes of one record.
    let attributes = client
        .get_attributes(0x0001_0000, &[AttributeId::Range(0x0000, 0xFFFF)])
        .unwrap();
    assert_eq!(attributes.len(), 3);
    assert_eq!(
        ServiceAttribute::find(&attributes, 0x0000),
        Some(&DataElement::unsigned_integer_32(0x0001_0000))
    );

    // Service Attribute on a missing handle: the invalid-handle error path.
    let err = client
        .get_attributes(0x0009_9999, &[AttributeId::Range(0x0000, 0xFFFF)])
        .unwrap_err();
    assert_eq!(
        err,
        ClientError::Protocol(error_code::INVALID_SERVICE_RECORD_HANDLE)
    );
}

#[test]
fn service_attribute_and_search_responses_match_upstream() {
    // Service Attribute response for one record.
    let mut server = build_server(512);
    let sa = server.handle_request(&SdpPdu::ServiceAttributeRequest {
        transaction_id: 7,
        service_record_handle: 0x0001_0000,
        maximum_attribute_byte_count: 0xFFFF,
        attribute_id_list: all_attributes(),
        continuation_state: vec![0],
    });
    assert_eq!(
        hex(&sa),
        "0500070026002335210900000a000100000900013503191101090004350c35031901003505190003080100"
    );

    // Service Search response.
    let mut server = build_server(512);
    let ss = server.handle_request(&SdpPdu::ServiceSearchRequest {
        transaction_id: 9,
        service_search_pattern: pattern(),
        maximum_service_record_count: 0xFFFF,
        continuation_state: vec![0],
    });
    assert_eq!(hex(&ss), "030009000d00020002000100000001000100");
}

#[test]
fn elements_read_back_from_their_bytes() {
    for element in [
        DataElement::nil(),
        DataElement::unsigned_integer(0x0102_0304_0506_0708, 8),
        DataElement::unsigned_integer(u128::MAX, 16),
        DataElement::signed_integer_8(-3),
        DataElement::signed_integer_16(-300),
        DataElement::signed_integer_32(-70_000),
        DataElement::boolean(true),
        DataElement::uuid(uuid16(0x1124)),
        DataElement::text_string(vec![0x61; 300]),
        DataElement::url(String::from("http://x/\u{e9}")),
        DataElement::alternative(vec![DataElement::unsigned_integer_8(1)]),
        DataElement::sequence(vec![
            DataElement::sequence(vec![]),
            DataElement::unsigned_integer_16(0xABCD),
        ]),
    ] {
        let bytes = element.to_bytes().unwrap();
        assert_eq!(DataElement::from_bytes(&bytes).unwrap(), element);
    }
    assert_eq!(
        DataElement::unsigned_integer_16(0x0102).to_bytes().unwrap(),
        [0x09, 0x01, 0x02]
    );
    assert_eq!(DataElement::boolean(true).to_bytes().unwrap(), [0x28, 0x01]);
}

#[test]
fn numbers_that_do_not_fit_their_size_are_refused() {
    assert!(DataElement::unsigned_integer(256, 1).to_bytes().is_err());
    assert!(DataElement::unsigned_integer(255, 1).to_bytes().is_ok());
    assert!(DataElement::unsigned_integer(1, 3).to_bytes().is_err());
    assert!(DataElement::signed_integer(128, 1).to_bytes().is_err());
    assert!(DataElement::signed_integer(-129, 1).to_bytes().is_err());
    assert!(DataElement::signed_integer(-128, 1).to_bytes().is_ok());
}

#[test]
fn url_that_is_not_utf8_is_refused() {
    assert!(DataElement::from_bytes(&[0x45, 2, 0xFF, 0xFE]).is_err());
    assert_eq!(
        DataElement::from_bytes(&[0x45, 2, b'a', b'b']).unwrap(),
        DataElement::url(String::from("ab"))
    );
}

#[test]
fn answers_are_sorted_by_attribute() {
    let mut server = SdpServer::new(512);
    server.add_service(
        7,
        vec![
            ServiceAttribute::new(0x0100, DataElement::text_string(b"name".to_vec())),
            ServiceAttribute::new(
                0x0001,
                DataElement::sequence(vec![DataElement::uuid(uuid16(0x1101))]),
            ),
        ],
    );
    let mut client = SdpClient::new(server);
    let attributes = client
        .get_attributes(7, &[AttributeId::Id(0x0100), AttributeId::Id(0x0001)])
        .unwrap();
    let ids: Vec<u16> = attributes.iter().map(|attribute| attribute.id).collect();
    assert_eq!(ids, [0x0001, 0x0100]);
}

#[test]
fn continuation_without_an_answer_is_refused() {
    let mut server = build_server(25);
    let response = server.handle_request(&SdpPdu::ServiceSearchAttributeRequest {
        transaction_id: 3,
        service_search_pattern: pattern(),
        maximum_attribute_byte_count: 0xFFFF,
        attribute_id_list: all_attributes(),
        continuation_state: vec![1, 0],
    });
    assert!(matches!(
        response,
        SdpPdu::ErrorResponse {
            transaction_id: 3,
            error_code: error_code::INVALID_CONTINUATION_STATE,
        }
    ));
}

/// A transport that gives the same reply to every request, and keeps the requests.
struct Canned {
    reply: Result<SdpPdu, TransportError>,
    requests: Vec<Vec<u8>>,
}

impl SdpTransport for Canned {
    fn request(&mut self, request: &SdpPdu) -> Result<SdpPdu, TransportError> {
        self.requests.push(request.to_bytes().unwrap());
        match &self.reply {
            Ok(pdu) => Ok(SdpPdu::from_bytes(&pdu.to_bytes().unwrap()).unwrap()),
            Err(error) => Err(error.clone()),
        }
    }
}

fn client_of(reply: Result<SdpPdu, TransportError>) -> SdpClient<Canned> {
    SdpClient::new(Canned {
        reply,
        requests: Vec::new(),
    })
}

#[test]
fn client_errors_say_what_went_wrong() {
    let mut failing = client_of(Err(TransportError("link lost".into())));
    let error = failing.search_services(&[uuid16(0x1101)]).unwrap_err();
    assert_eq!(error, ClientError::Transport(TransportError("link lost".into())));
    assert_eq!(error.message(), "SDP transport failed: link lost");

    let mut odd = client_of(Ok(SdpPdu::ServiceSearchResponse {
        transaction_id: 0,
        total_service_record_count: 0,
        service_record_handle_list: Vec::new(),
        continuation_state: vec![0],
    }));
    let error = odd.get_attributes(1, &[AttributeId::Id(0)]).unwrap_err();
    assert_eq!(error, ClientError::Unexpected);
    assert_eq!(error.message(), "unexpected SDP response PDU");

    let mut broken = client_of(Ok(SdpPdu::ServiceAttributeResponse {
        transaction_id: 0,
        attribute_list: vec![0x35, 5, 0],
        continuation_state: vec![0],
    }));
    let error = broken.get_attributes(1, &[AttributeId::Id(0)]).unwrap_err();
    assert!(matches!(&error, ClientError::Parse(Error::InvalidPacket(_))));
    assert!(error.message().starts_with("failed to parse SDP response: "));
}

#[test]
fn client_requests_are_byte_exact_and_hand_the_state_back() {
    let mut client = client_of(Ok(SdpPdu::ServiceSearchResponse {
        transaction_id: 0,
        total_service_record_count: 200,
        service_record_handle_list: vec![7],
        continuation_state: vec![1, 9],
    }));
    assert_eq!(client.search_services(&[uuid16(0x1101)]).unwrap(), [7; 64]);
    let requests = client.into_transport().requests;
    assert_eq!(requests.len(), 64);
    assert_eq!(
        requests[0],
        [2, 0, 0, 0, 8, 0x35, 3, 0x19, 0x11, 0x01, 0xFF, 0xFF, 0]
    );
    assert_eq!(
        requests[1],
        [2, 0, 1, 0, 9, 0x35, 3, 0x19, 0x11, 0x01, 0xFF, 0xFF, 1, 9]
    );
}

#[test]
fn arguments_and_packets_are_refused_apart() {
    assert!(matches!(
        DataElement::unsigned_integer(1, 3).to_bytes(),
        Err(Error::InvalidArgument(_))
    ));
    assert!(matches!(
        DataElement::from_bytes(&[0x35, 5, 0]),
        Err(Error::InvalidPacket(_))
    ));
}

#[test]
fn integers_of_other_sizes_are_not_read() {
    for bytes in [
        &[0x0D, 3, 0, 0, 1][..],
        &[0x15, 3, 0, 0, 1][..],
        &[0x0D, 0][..],
        &[0x35, 5, 0x0D, 3, 0, 0, 1][..],
    ] {
        assert!(matches!(
            DataElement::from_bytes(bytes),
            Err(Error::InvalidPacket(_))
        ));
    }
    let mut long = vec![0x0E, 1, 1];
    long.extend([0; 257]);
    assert_eq!(
        DataElement::from_bytes(&long).unwrap_err(),
        Error::InvalidPacket("invalid integer size 257".into())
    );
}

#[test]
fn elements_that_were_read_can_be_written() {
    for (bytes, written) in [
        (&[0x0D, 2, 0x12, 0x34][..], &[0x09, 0x12, 0x34][..]),
        (&[0x21, b'a', b'b'][..], &[0x25, 2, b'a', b'b'][..]),
        (&[0x29, 1, 0][..], &[0x28, 1][..]),
        (&[0x30, 0x00][..], &[0x35, 1, 0x00][..]),
    ] {
        assert_eq!(
            DataElement::from_bytes(bytes).unwrap().to_bytes().unwrap(),
            written
        );
    }
}

#[test]
fn answers_come_in_pages_of_the_requested_size() {
    let mut whole = build_server(512);
    let request = |transaction_id: u16, maximum: u16, state: Vec<u8>| {
        SdpPdu::ServiceSearchAttributeRequest {
            transaction_id,
            service_search_pattern: pattern(),
            maximum_attribute_byte_count: maximum,
            attribute_id_list: all_attributes(),
            continuation_state: state,
        }
    };
    let answer = match whole.handle_request(&request(1, 0xFFFF, vec![0])) {
        SdpPdu::ServiceSearchAttributeResponse {
            attribute_lists, ..
        } => attribute_lists,
        other => panic!("{other:?}"),
    };
    assert_eq!(answer.len(), 55);
    for (mtu, maximum, cap) in [(512, 7, 7), (25, 0xFFFF, 16), (10, 100, 1), (512, 55, 55)] {
        let mut server = build_server(mtu);
        let mut collected = Vec::new();
        let mut state = vec![0];
        let mut count = 0_u16;
        loop {
            count += 1;
            let response = server.handle_request(&request(count, maximum, state));
            assert!(response.to_bytes().unwrap().len() <= usize::from(mtu));
            assert_eq!(response.transaction_id(), count);
            let SdpPdu::ServiceSearchAttributeResponse {
                attribute_lists,
                continuation_state,
                ..
            } = response
            else {
                panic!("not an answer");
            };
            collected.extend_from_slice(&attribute_lists);
            if continuation_state == [0] {
                assert!(attribute_lists.len() <= cap);
                break;
            }
            assert_eq!(attribute_lists.len(), cap);
            assert_eq!(continuation_state, [1, 0]);
            state = continuation_state;
        }
        assert_eq!(collected, answer);
        assert_eq!(usize::from(count), answer.len().div_ceil(cap));
    }
}

#[test]
fn selectors_in_any_order_give_each_attribute_once() {
    for mtu in [512, 25, 10] {
        let mut client = SdpClient::new(build_server(mtu));
        let lists = client
            .service_search_attribute(
                &[uuid16(0x9999), uuid16(0x0100)],
                &[AttributeId::Range(0x0002, 0x0004), AttributeId::Id(0x0001)],
            )
            .unwrap();
        assert_eq!(lists.len(), 1);
        let ids: Vec<u16> = lists[0].iter().map(|attribute| attribute.id).collect();
        assert_eq!(ids, [0x0001, 0x0004]);
        let nothing = client
            .service_search_attribute(&[uuid16(0x1101)], &[AttributeId::Id(0x0777)])
            .unwrap();
        assert!(nothing.is_empty());
    }
}
