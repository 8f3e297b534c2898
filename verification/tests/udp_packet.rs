use dns_resolver::udp_packet::{
    CharacterString, DomainName, Malformation, UdpPacket, UdpPacketError, MAX_JUMPS,
    UDP_PACKET_MAX_SIZE_BYTES,
};

#[test]
fn write_from_slice_test() {
    let mut buffer = vec![0u8; 512];
    let slice = [65, 89, 1, 0, 0, 2, 0, 0, 0, 0, 0, 0];
    buffer[..12].copy_from_slice(&slice);
    let mut udp_packet = UdpPacket::new();
    udp_packet
        .write_from_slice(&slice, None)
        .expect("Failed to write to packet.");
    assert_eq!(
        udp_packet,
        UdpPacket {
            buffer: buffer,
            position: 12
        }
    );
    let mut buffer = vec![0u8; 512];
    buffer[..12].copy_from_slice(&slice);
    buffer[12..24].copy_from_slice(&slice);
    udp_packet
        .write_from_slice(&slice, None)
        .expect("Failed to write to packet.");
    assert_eq!(
        udp_packet,
        UdpPacket {
            buffer: buffer,
            position: 24
        }
    );
}

#[test]
fn write_string_test() {
    let mut udp_packet: UdpPacket = UdpPacket::new();
    udp_packet
        .write_domain_name(
            &DomainName::from_str(dns_resolver::dns_message::TEST_DOMAIN)
                .expect("Failed to construct DomainName."),
            None,
        )
        .expect("Failed to write to packet.");
    let mut buffer = vec![0u8; 512];
    buffer[..13].copy_from_slice(&[7, 101, 120, 97, 109, 112, 108, 101, 3, 99, 111, 109, 0]);
    assert_eq!(
        udp_packet,
        UdpPacket {
            buffer: buffer,
            position: 13
        }
    );
}

/// The wire form of "example.com": two length-prefixed labels and the
/// terminator.
fn example_com_wire() -> Vec<u8> {
    vec![7, 101, 120, 97, 109, 112, 108, 101, 3, 99, 111, 109, 0]
}

#[test]
fn name_round_trip_test() {
    let name = DomainName::from_str("a.bc.def").expect("Failed to construct DomainName.");
    assert_eq!(name.bytes, vec![1, 97, 2, 98, 99, 3, 100, 101, 102, 0]);
    let mut udp_packet = UdpPacket::new();
    udp_packet
        .write_domain_name(&name, None)
        .expect("Failed to write to packet.");
    udp_packet.position = 0;
    let decoded = udp_packet
        .read_domain_name()
        .expect("Failed to decode name.");
    assert_eq!(decoded, name);
    assert_eq!(udp_packet.position, 10);
}

#[test]
fn name_too_long_encoding_test() {
    // 254 characters of name encode to 256 bytes, one over the limit.
    let long_name = format!(
        "{}.{}.{}.{}",
        "a".repeat(63),
        "a".repeat(63),
        "a".repeat(63),
        "a".repeat(62)
    );
    assert_eq!(long_name.len(), 254);
    match DomainName::from_str(&long_name) {
        Err(UdpPacketError::MalformedDomainName {
            source: Malformation::NameTooLong,
        }) => {}
        other => panic!("expected NameTooLong, got {:?}", other),
    }
    // 253 characters still fit.
    let just_fits = format!(
        "{}.{}.{}.{}",
        "a".repeat(63),
        "a".repeat(63),
        "a".repeat(63),
        "a".repeat(61)
    );
    assert_eq!(just_fits.len(), 253);
    let encoded = DomainName::from_str(&just_fits).expect("Failed to construct DomainName.");
    assert_eq!(encoded.bytes.len(), 255);
}

#[test]
fn label_too_long_encoding_test() {
    let long_label = format!("{}.com", "a".repeat(64));
    match DomainName::from_str(&long_label) {
        Err(UdpPacketError::MalformedDomainName {
            source: Malformation::LabelTooLong,
        }) => {}
        other => panic!("expected LabelTooLong, got {:?}", other),
    }
    let just_fits = format!("{}.com", "a".repeat(63));
    assert!(DomainName::from_str(&just_fits).is_ok());
}

#[test]
fn label_too_long_decoding_test() {
    // 112 has its top two bits 01: not a pointer, and over the 63 limit.
    let mut udp_packet = UdpPacket::new();
    udp_packet.buffer[0] = 112;
    match udp_packet.read_domain_name() {
        Err(UdpPacketError::MalformedDomainName {
            source: Malformation::LabelTooLong,
        }) => {}
        other => panic!("expected LabelTooLong, got {:?}", other),
    }
    assert_eq!(udp_packet.position, 0);
}

#[test]
fn name_too_long_decoding_test() {
    // Four 63-byte labels assemble to 257 bytes with the terminator.
    let mut udp_packet = UdpPacket::new();
    let mut position = 0;
    for _ in 0..4 {
        udp_packet.buffer[position] = 63;
        position += 64;
    }
    udp_packet.buffer[position] = 0;
    match udp_packet.read_domain_name() {
        Err(UdpPacketError::MalformedDomainName {
            source: Malformation::NameTooLong,
        }) => {}
        other => panic!("expected NameTooLong, got {:?}", other),
    }
}

#[test]
fn pointer_cursor_accounting_test() {
    // A name at offset 100 and a single compression pointer to it at the
    // cursor: the cursor advances by exactly the pointer's two bytes.
    // Note that the pointer here points forward: the decoder is permissive
    // and does not enforce backward-only targets; cycles are cut off by the
    // jump bound instead.
    let mut udp_packet = UdpPacket::new();
    let wire = example_com_wire();
    for (index, value) in wire.iter().enumerate() {
        udp_packet.buffer[100 + index] = *value;
    }
    udp_packet.buffer[0] = 0xc0;
    udp_packet.buffer[1] = 100;
    let decoded = udp_packet
        .read_domain_name()
        .expect("Failed to decode name.");
    assert_eq!(decoded.bytes, wire);
    assert_eq!(udp_packet.position, 2);
}

#[test]
fn pointer_after_labels_cursor_test() {
    // One literal label, then a pointer: the cursor advances over the
    // literal bytes plus the two pointer bytes only.
    let mut udp_packet = UdpPacket::new();
    let wire = example_com_wire();
    for (index, value) in wire.iter().enumerate() {
        udp_packet.buffer[100 + index] = *value;
    }
    udp_packet.buffer[0] = 3;
    udp_packet.buffer[1] = 119;
    udp_packet.buffer[2] = 119;
    udp_packet.buffer[3] = 119;
    udp_packet.buffer[4] = 0xc0;
    udp_packet.buffer[5] = 100;
    let decoded = udp_packet
        .read_domain_name()
        .expect("Failed to decode name.");
    let mut expected = vec![3, 119, 119, 119];
    expected.extend_from_slice(&wire);
    assert_eq!(decoded.bytes, expected);
    assert_eq!(udp_packet.position, 6);
}

#[test]
fn jump_bound_test() {
    // A chain of exactly MAX_JUMPS pointer hops succeeds; one more fails.
    let mut udp_packet = UdpPacket::new();
    udp_packet.buffer[100] = 1;
    udp_packet.buffer[101] = 97;
    udp_packet.buffer[102] = 0;
    for hop in 0..MAX_JUMPS {
        udp_packet.buffer[2 * hop] = 0xc0;
        udp_packet.buffer[2 * hop + 1] = if hop + 1 == MAX_JUMPS {
            100
        } else {
            (2 * (hop + 1)) as u8
        };
    }
    let decoded = udp_packet
        .read_domain_name()
        .expect("Failed to decode name.");
    assert_eq!(decoded.bytes, vec![1, 97, 0]);

    let mut udp_packet = UdpPacket::new();
    udp_packet.buffer[100] = 1;
    udp_packet.buffer[101] = 97;
    udp_packet.buffer[102] = 0;
    for hop in 0..(MAX_JUMPS + 1) {
        udp_packet.buffer[2 * hop] = 0xc0;
        udp_packet.buffer[2 * hop + 1] = if hop == MAX_JUMPS {
            100
        } else {
            (2 * (hop + 1)) as u8
        };
    }
    match udp_packet.read_domain_name() {
        Err(UdpPacketError::MaxJumpsExceeded) => {}
        other => panic!("expected MaxJumpsExceeded, got {:?}", other),
    }
}

#[test]
fn read_integers_test() {
    let mut udp_packet = UdpPacket::new();
    for index in 0..16 {
        udp_packet.buffer[index] = index as u8 + 1;
    }
    assert_eq!(udp_packet.read_u16().expect("read_u16"), 0x0102);
    udp_packet.position = 0;
    assert_eq!(udp_packet.read_u32().expect("read_u32"), 0x01020304);
    udp_packet.position = 0;
    assert_eq!(udp_packet.read_u64().expect("read_u64"), 0x0102030405060708);
    udp_packet.position = 0;
    assert_eq!(
        udp_packet.read_u128().expect("read_u128"),
        0x0102030405060708090a0b0c0d0e0f10
    );
    assert_eq!(udp_packet.position, 16);
}

#[test]
fn out_of_bounds_test() {
    let mut udp_packet = UdpPacket::new();
    udp_packet.position = 511;
    match udp_packet.read_u16() {
        Err(UdpPacketError::OutOfBounds { length, index }) => {
            assert_eq!(length, UDP_PACKET_MAX_SIZE_BYTES);
            assert_eq!(index, 512);
        }
        other => panic!("expected OutOfBounds, got {:?}", other),
    }
    let mut udp_packet = UdpPacket::new();
    udp_packet.position = 508;
    let slice = [1, 2, 3, 4];
    match udp_packet.write_from_slice(&slice, None) {
        Err(UdpPacketError::OutOfBounds { length: 512, index: 512 }) => {}
        other => panic!("expected OutOfBounds, got {:?}", other),
    }
    assert_eq!(udp_packet.position, 508);
    let udp_packet = UdpPacket::new();
    match udp_packet.read_to_slice(510, 5) {
        Err(UdpPacketError::OutOfBounds { length: 512, index: 515 }) => {}
        other => panic!("expected OutOfBounds, got {:?}", other),
    }
}

#[test]
fn write_margin_test() {
    // The margin reserves trailing bytes: a write that would fit alone
    // fails when the margin does not.
    let mut udp_packet = UdpPacket::new();
    udp_packet.position = 505;
    let slice = [1, 2, 3, 4];
    assert!(udp_packet.write_from_slice(&slice, Some(4)).is_err());
    assert_eq!(udp_packet.position, 505);
    assert!(udp_packet.write_from_slice(&slice, Some(2)).is_ok());
    assert_eq!(udp_packet.position, 509);
}

#[test]
fn read_character_string_test() {
    let mut udp_packet = UdpPacket::new();
    udp_packet.buffer[0] = 3;
    udp_packet.buffer[1] = 97;
    udp_packet.buffer[2] = 98;
    udp_packet.buffer[3] = 99;
    let character_string = udp_packet
        .read_character_string()
        .expect("Failed to read character string.");
    assert_eq!(character_string.length, 3);
    assert_eq!(character_string.bytes, vec![3, 97, 98, 99]);
    assert_eq!(udp_packet.position, 0);
}

#[test]
fn to_dotted_string_test() {
    let name = DomainName {
        bytes: example_com_wire(),
    };
    let text = name.to_dotted_string().expect("Failed to render name.");
    assert_eq!(text, "example.com.");
    let empty = DomainName { bytes: vec![0] };
    assert_eq!(empty.to_dotted_string().expect("render"), "");
}

#[test]
fn to_dotted_string_invalid_utf8_test() {
    let name = DomainName {
        bytes: vec![1, 0xff, 0],
    };
    match name.to_dotted_string() {
        Err(UdpPacketError::FromUtf8) => {}
        other => panic!("expected FromUtf8, got {:?}", other),
    }
}

#[test]
fn is_well_formed_test() {
    let good = DomainName {
        bytes: example_com_wire(),
    };
    assert!(good.is_well_formed());
    let root = DomainName { bytes: vec![0] };
    assert!(root.is_well_formed());
    // Missing terminator.
    let truncated = DomainName {
        bytes: vec![3, 97, 98, 99],
    };
    assert!(!truncated.is_well_formed());
    // A length byte over the 63 limit.
    let oversized = DomainName {
        bytes: vec![64, 0],
    };
    assert!(!oversized.is_well_formed());
    // Bytes after the terminator.
    let trailing = DomainName {
        bytes: vec![1, 97, 0, 0],
    };
    assert!(!trailing.is_well_formed());
    let empty = DomainName { bytes: vec![] };
    assert!(!empty.is_well_formed());
}

#[test]
fn empty_name_encoding_test() {
    // The empty text encodes as one empty label and the terminator.
    let name = DomainName::from_str("").expect("Failed to construct DomainName.");
    assert_eq!(name.bytes, vec![0, 0]);
}

#[test]
fn character_string_from_str_test() {
    let character_string = CharacterString::from_str("abc");
    assert_eq!(character_string.length, 3);
    assert_eq!(character_string.bytes, vec![97, 98, 99]);
}

#[test]
fn to_dotted_string_non_ascii_test() {
    // A two-byte UTF-8 label decodes to one character, so the rendering
    // really decodes the bytes rather than copying them.
    let name = DomainName {
        bytes: vec![2, 0xc3, 0xa9, 0],
    };
    let text = name.to_dotted_string().expect("Failed to render name.");
    assert_eq!(text, "\u{e9}.");
    assert_eq!(text.chars().count(), 2);
}
