use dns_resolver::dns_message::{
    CombinedClass, CombinedType, DnsHeader, DnsMessage, DnsQuestion, DnsRecord, OperationCode,
    QuestionClass, QuestionType, RecordClass, RecordData, RecordType, ResponseCode,
    QUESTION_COUNT, RECURSION_DESIRED, TEST_DOMAIN,
};
use dns_resolver::udp_packet::{DomainName, UdpPacket};

#[test]
fn header_encoding_decoding_test() {
    let header = DnsHeader::default();
    let mut udp_packet = UdpPacket::new();
    header
        .write_to_udp_packet(&mut udp_packet)
        .expect("Failed to write header.");
    udp_packet.position = 0; // Position reset since the test does not take position updates into account
    let decoded_header =
        DnsHeader::read_from_udp_packet(&mut udp_packet).expect("Failed to decode header.");
    assert_eq!(header, decoded_header);
}

#[test]
fn dns_question_write_test() {
    let question = DnsQuestion::default();
    let mut udp_packet = UdpPacket::new();
    question
        .write_to_udp_packet(&mut udp_packet)
        .expect("Failed to write to packet.");
    let mut buffer = vec![0u8; 512];
    buffer[..17].copy_from_slice(&[
        7, 101, 120, 97, 109, 112, 108, 101, 3, 99, 111, 109, 0, 0, 1, 0, 1,
    ]);
    assert_eq!(
        udp_packet,
        UdpPacket {
            buffer: buffer,
            position: 17
        }
    );
}

#[test]
fn default_trait_test() {
    // Enumerations
    assert_eq!(OperationCode::default(), OperationCode::QUERY);
    assert_eq!(ResponseCode::default(), ResponseCode::NOERROR);
    assert_eq!(RecordType::default(), RecordType::A);
    assert_eq!(QuestionType::default(), QuestionType::ANY);
    assert_eq!(
        CombinedType::default(),
        CombinedType::RecordType(RecordType::A)
    );
    assert_eq!(RecordClass::default(), RecordClass::IN);
    assert_eq!(QuestionClass::default(), QuestionClass::ANY);
    assert_eq!(
        CombinedClass::default(),
        CombinedClass::RecordClass(RecordClass::IN)
    );

    // Structs
    assert_eq!(
        DnsHeader::default(),
        DnsHeader {
            id: 0,
            response: false,
            operation_code: OperationCode::QUERY,
            authoritative_answer: false,
            truncated: false,
            recursion_desired: RECURSION_DESIRED,
            recursion_available: false,
            z: 0,
            response_code: ResponseCode::NOERROR,
            question_count: QUESTION_COUNT,
            answer_count: 0,
            authority_count: 0,
            additional_count: 0
        }
    );
    assert_eq!(
        DnsQuestion::default(),
        DnsQuestion {
            name: DomainName::from_str(TEST_DOMAIN).expect("Failed to construct DomainName."),
            question_type: CombinedType::RecordType(RecordType::A),
            question_class: CombinedClass::RecordClass(RecordClass::IN)
        }
    );
    assert_eq!(
        DnsMessage::default(),
        DnsMessage {
            header: DnsHeader::default(),
            questions: vec![DnsQuestion::default()],
            answers: Vec::new(),
            authorities: Vec::new(),
            additional: Vec::new()
        }
    );
}

#[test]
fn header_round_trip_rich_test() {
    // A header with every bit-packed field nonzero, unknown codes included.
    let header = DnsHeader {
        id: 0xabcd,
        response: true,
        operation_code: OperationCode::Unknown(7),
        authoritative_answer: true,
        truncated: false,
        recursion_desired: true,
        recursion_available: true,
        z: 5,
        response_code: ResponseCode::Unknown(12),
        question_count: 3,
        answer_count: 2,
        authority_count: 1,
        additional_count: 9,
    };
    let mut udp_packet = UdpPacket::new();
    header
        .write_to_udp_packet(&mut udp_packet)
        .expect("Failed to write header.");
    assert_eq!(udp_packet.position, 12);
    udp_packet.position = 0;
    let decoded =
        DnsHeader::read_from_udp_packet(&mut udp_packet).expect("Failed to decode header.");
    assert_eq!(header, decoded);
}

#[test]
fn header_must_start_in_first_twelve_bytes_test() {
    let header = DnsHeader::default();
    let mut udp_packet = UdpPacket::new();
    udp_packet.position = 12;
    assert!(header.write_to_udp_packet(&mut udp_packet).is_err());
    udp_packet.position = 11;
    assert!(header.write_to_udp_packet(&mut udp_packet).is_ok());
}

#[test]
fn enum_u16_round_trip_test() {
    assert_eq!(RecordType::from_u16(1), RecordType::A);
    assert_eq!(RecordType::from_u16(2), RecordType::NS);
    assert_eq!(RecordType::from_u16(5), RecordType::CNAME);
    assert_eq!(RecordType::from_u16(6), RecordType::SOA);
    assert_eq!(RecordType::from_u16(15), RecordType::MX);
    assert_eq!(RecordType::from_u16(28), RecordType::AAAA);
    assert_eq!(RecordType::from_u16(999), RecordType::Unknown(999));
    assert_eq!(RecordType::Unknown(999).to_u16(), 999);
    assert_eq!(RecordType::from_u16(RecordType::MX.to_u16()), RecordType::MX);
    assert_eq!(
        CombinedType::from_u16(255),
        CombinedType::QuestionType(QuestionType::ANY)
    );
    assert_eq!(
        CombinedType::from_u16(1),
        CombinedType::RecordType(RecordType::A)
    );
    assert_eq!(CombinedType::from_u16(999).to_u16(), 999);
    assert_eq!(
        CombinedClass::from_u16(255),
        CombinedClass::QuestionClass(QuestionClass::ANY)
    );
    assert_eq!(
        CombinedClass::from_u16(1),
        CombinedClass::RecordClass(RecordClass::IN)
    );
    assert_eq!(OperationCode::from_u16(0), OperationCode::QUERY);
    assert_eq!(OperationCode::from_u16(9).to_u16(), 9);
    assert_eq!(ResponseCode::from_u16(3), ResponseCode::NAMEERROR);
    assert_eq!(ResponseCode::from_u16(5), ResponseCode::REFUSED);
    assert_eq!(ResponseCode::from_u16(14), ResponseCode::Unknown(14));
}

#[test]
fn record_data_as_bytes_test() {
    let a = RecordData::A {
        ipv4_address: 0x7f000001,
    };
    assert_eq!(a.as_bytes(), vec![127, 0, 0, 1]);
    let aaaa = RecordData::AAAA {
        ipv6_address: 0x20010db8000000000000000000000001,
    };
    assert_eq!(
        aaaa.as_bytes(),
        vec![0x20, 0x01, 0x0d, 0xb8, 0, 0, 0, 0, 0, 0, 0, 0, 0, 0, 0, 1]
    );
    let mx = RecordData::MX {
        preference: 10,
        exchange_address: DomainName {
            bytes: vec![2, 109, 120, 0],
        },
    };
    assert_eq!(mx.as_bytes(), vec![0, 10, 2, 109, 120, 0]);
    let unknown = RecordData::Unknown {
        bytes: vec![9, 8, 7],
    };
    assert_eq!(unknown.as_bytes(), vec![9, 8, 7]);
}

#[test]
fn unknown_type_opacity_test() {
    // A record with type value 999 and five bytes of RDATA crosses the wire
    // as exactly those raw bytes.
    let record = DnsRecord {
        name: DomainName::from_str(TEST_DOMAIN).expect("Failed to construct DomainName."),
        record_type: RecordType::Unknown(999),
        record_class: RecordClass::IN,
        ttl: 3600,
        length: 5,
        data: RecordData::Unknown {
            bytes: vec![1, 2, 3, 4, 5],
        },
    };
    let mut udp_packet = UdpPacket::new();
    record
        .write_to_udp_packet(&mut udp_packet)
        .expect("Failed to write record.");
    assert_eq!(udp_packet.position, 13 + 10 + 5);
    // The RDATA bytes sit uninterpreted right after the ten fixed bytes.
    assert_eq!(&udp_packet.buffer[23..28], &[1, 2, 3, 4, 5]);
    udp_packet.position = 0;
    let decoded =
        DnsRecord::read_from_udp_packet(&mut udp_packet).expect("Failed to decode record.");
    assert_eq!(decoded, record);
    assert_eq!(udp_packet.position, 28);
}

#[test]
fn soa_record_round_trip_test() {
    let record = DnsRecord {
        name: DomainName::from_str(TEST_DOMAIN).expect("Failed to construct DomainName."),
        record_type: RecordType::SOA,
        record_class: RecordClass::IN,
        ttl: 86400,
        length: 46,
        data: RecordData::SOA {
            domain_name: DomainName::from_str("ns.example.com")
                .expect("Failed to construct DomainName."),
            mailbox_address: DomainName::from_str("admin.example.com")
                .expect("Failed to construct DomainName."),
            serial: 2024010101,
            refresh: 7200,
            retry: 3600,
            expire: 1209600,
            minimum: 300,
        },
    };
    let mut udp_packet = UdpPacket::new();
    record
        .write_to_udp_packet(&mut udp_packet)
        .expect("Failed to write record.");
    udp_packet.position = 0;
    let decoded =
        DnsRecord::read_from_udp_packet(&mut udp_packet).expect("Failed to decode record.");
    assert_eq!(decoded, record);
}

#[test]
fn a_and_aaaa_record_round_trip_test() {
    for record in [
        DnsRecord {
            name: DomainName::from_str(TEST_DOMAIN).expect("Failed to construct DomainName."),
            record_type: RecordType::A,
            record_class: RecordClass::IN,
            ttl: 60,
            length: 4,
            data: RecordData::A {
                ipv4_address: 0xc0a80001,
            },
        },
        DnsRecord {
            name: DomainName::from_str(TEST_DOMAIN).expect("Failed to construct DomainName."),
            record_type: RecordType::AAAA,
            record_class: RecordClass::IN,
            ttl: 60,
            length: 16,
            data: RecordData::AAAA {
                ipv6_address: 0x20010db8000000000000000000000042,
            },
        },
    ] {
        let mut udp_packet = UdpPacket::new();
        record
            .write_to_udp_packet(&mut udp_packet)
            .expect("Failed to write record.");
        udp_packet.position = 0;
        let decoded =
            DnsRecord::read_from_udp_packet(&mut udp_packet).expect("Failed to decode record.");
        assert_eq!(decoded, record);
    }
}

#[test]
fn message_round_trip_test() {
    // A response with two answers, counts agreeing with the sections.
    let answer = |address: u32| DnsRecord {
        name: DomainName::from_str(TEST_DOMAIN).expect("Failed to construct DomainName."),
        record_type: RecordType::A,
        record_class: RecordClass::IN,
        ttl: 300,
        length: 4,
        data: RecordData::A {
            ipv4_address: address,
        },
    };
    let message = DnsMessage {
        header: DnsHeader {
            response: true,
            answer_count: 2,
            ..DnsHeader::default()
        },
        questions: vec![DnsQuestion::default()],
        answers: vec![answer(0x5db8d822), answer(0x5db8d823)],
        authorities: Vec::new(),
        additional: Vec::new(),
    };
    let mut udp_packet = UdpPacket::new();
    message
        .write_to_udp_packet(&mut udp_packet)
        .expect("Failed to write message.");
    // Header (12), question (17), two A records (27 each).
    assert_eq!(udp_packet.position, 12 + 17 + 27 + 27);
    udp_packet.position = 0;
    let decoded =
        DnsMessage::read_from_udp_packet(&mut udp_packet).expect("Failed to decode message.");
    assert_eq!(decoded, message);
    assert_eq!(udp_packet.position, 12 + 17 + 27 + 27);
}

#[test]
fn default_message_round_trip_test() {
    let message = DnsMessage::default();
    let mut udp_packet = UdpPacket::new();
    message
        .write_to_udp_packet(&mut udp_packet)
        .expect("Failed to write message.");
    assert_eq!(udp_packet.position, 29);
    udp_packet.position = 0;
    let decoded =
        DnsMessage::read_from_udp_packet(&mut udp_packet).expect("Failed to decode message.");
    assert_eq!(decoded, message);
}

#[test]
fn message_counts_exceeding_buffer_test() {
    // A header declaring more questions than the buffer holds surfaces as
    // the underlying out-of-bounds error.
    let mut udp_packet = UdpPacket::new();
    let header = DnsHeader {
        question_count: 200,
        ..DnsHeader::default()
    };
    header
        .write_to_udp_packet(&mut udp_packet)
        .expect("Failed to write header.");
    udp_packet.position = 0;
    assert!(DnsMessage::read_from_udp_packet(&mut udp_packet).is_err());
}
