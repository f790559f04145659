use wake_on_lan::hex::hex_digit;
use wake_on_lan::mac::{parse_mac_address, parse_octet, MacParseError};
use wake_on_lan::packet::{assemble_magic_packet, create_magic_packet, PACKET_LEN};

fn expected_packet(mac: &[u8]) -> Vec<u8> {
    let mut v: Vec<u8> = vec![0xff; 6];
    for _ in 0..16 {
        v.extend_from_slice(mac);
    }
    v
}

#[test]
fn test_create_magic_packet() {
    let mac_address = "00:11:22:33:44:55";
    let magic_packet = create_magic_packet(mac_address).unwrap();
    assert_eq!(magic_packet.len(), 102);

    let expected: Vec<u8> = vec![
        0xff, 0xff, 0xff, 0xff, 0xff, 0xff,
        0x00, 0x11, 0x22, 0x33, 0x44, 0x55,
        0x00, 0x11, 0x22, 0x33, 0x44, 0x55,
        0x00, 0x11, 0x22, 0x33, 0x44, 0x55,
        0x00, 0x11, 0x22, 0x33, 0x44, 0x55,
        0x00, 0x11, 0x22, 0x33, 0x44, 0x55,
        0x00, 0x11, 0x22, 0x33, 0x44, 0x55,
        0x00, 0x11, 0x22, 0x33, 0x44, 0x55,
        0x00, 0x11, 0x22, 0x33, 0x44, 0x55,
        0x00, 0x11, 0x22, 0x33, 0x44, 0x55,
        0x00, 0x11, 0x22, 0x33, 0x44, 0x55,
        0x00, 0x11, 0x22, 0x33, 0x44, 0x55,
        0x00, 0x11, 0x22, 0x33, 0x44, 0x55,
        0x00, 0x11, 0x22, 0x33, 0x44, 0x55,
        0x00, 0x11, 0x22, 0x33, 0x44, 0x55,
        0x00, 0x11, 0x22, 0x33, 0x44, 0x55,
        0x00, 0x11, 0x22, 0x33, 0x44, 0x55,
    ];
    assert_eq!(magic_packet, expected);
}

#[test]
fn test_parse_mac_address() {
    let mac_address = "00:11:22:33:44:55";
    let parsed = parse_mac_address(mac_address).unwrap();
    assert_eq!(parsed.len(), 6);

    let expected: Vec<u8> = vec![0x00, 0x11, 0x22, 0x33, 0x44, 0x55];
    assert_eq!(parsed, expected);
}

#[test]
fn packet_for_upper_case_address() {
    let packet = create_magic_packet("AA:BB:CC:DD:EE:FF").unwrap();
    assert_eq!(packet.len(), PACKET_LEN);
    assert_eq!(packet, expected_packet(&[0xaa, 0xbb, 0xcc, 0xdd, 0xee, 0xff]));
}

#[test]
fn packet_layout_for_mixed_case_address() {
    let mac = parse_mac_address("De:aD:bE:eF:0:1").unwrap();
    assert_eq!(mac, vec![0xde, 0xad, 0xbe, 0xef, 0x00, 0x01]);
    let packet = create_magic_packet("De:aD:bE:eF:0:1").unwrap();
    assert_eq!(packet.len(), 102);
    assert!(packet[..6].iter().all(|b| *b == 0xff));
    for k in 0..16 {
        assert_eq!(&packet[6 + 6 * k..12 + 6 * k], &mac[..]);
    }
}

#[test]
fn assemble_repeats_address() {
    let mac: Vec<u8> = vec![1, 2, 3, 4, 5, 6];
    assert_eq!(assemble_magic_packet(&mac), expected_packet(&mac));
}

#[test]
fn parsing_twice_gives_same_result() {
    let a = parse_mac_address("0a:1B:2c:3D:4e:5F").unwrap();
    let b = parse_mac_address("0a:1B:2c:3D:4e:5F").unwrap();
    assert_eq!(a, b);
    assert_eq!(
        create_magic_packet("0a:1B:2c:3D:4e:5F").unwrap(),
        create_magic_packet("0a:1B:2c:3D:4e:5F").unwrap()
    );
    assert_eq!(
        parse_mac_address("zz:00:00:00:00:00"),
        parse_mac_address("zz:00:00:00:00:00")
    );
}

#[test]
fn non_hex_segment_is_rejected() {
    assert_eq!(
        parse_mac_address("gg:11:22:33:44:55"),
        Err(MacParseError::InvalidDigit { index: 0 })
    );
    assert_eq!(
        create_magic_packet("gg:11:22:33:44:55"),
        Err(MacParseError::InvalidDigit { index: 0 })
    );
}

#[test]
fn sign_is_not_a_digit() {
    assert_eq!(
        parse_mac_address("00:11:+2:33:44:55"),
        Err(MacParseError::InvalidDigit { index: 2 })
    );
}

#[test]
fn empty_segment_is_rejected() {
    assert_eq!(
        parse_mac_address("00:11::33:44:55"),
        Err(MacParseError::EmptySegment { index: 2 })
    );
    assert_eq!(
        parse_mac_address("00:11:22:33:44:"),
        Err(MacParseError::EmptySegment { index: 5 })
    );
}

#[test]
fn out_of_range_segment_is_rejected() {
    assert_eq!(
        parse_mac_address("00:11:22:100:44:55"),
        Err(MacParseError::OutOfRange { index: 3 })
    );
    assert_eq!(
        create_magic_packet("00:11:22:33:44:fff"),
        Err(MacParseError::OutOfRange { index: 5 })
    );
}

#[test]
fn leading_zeros_are_accepted() {
    assert_eq!(
        parse_mac_address("000ff:0:00:1:01:001").unwrap(),
        vec![0xff, 0, 0, 1, 1, 1]
    );
}

#[test]
fn first_faulty_segment_is_reported() {
    assert_eq!(
        parse_mac_address("00:x:123:33::55"),
        Err(MacParseError::InvalidDigit { index: 1 })
    );
    assert_eq!(
        parse_mac_address("00:11:123:3g::55"),
        Err(MacParseError::OutOfRange { index: 2 })
    );
}

#[test]
fn wrong_segment_count_is_rejected() {
    assert_eq!(parse_mac_address(""), Err(MacParseError::WrongSegmentCount));
    assert_eq!(
        parse_mac_address("00:11:22:33:44"),
        Err(MacParseError::WrongSegmentCount)
    );
    assert_eq!(
        parse_mac_address("00:11:22:33:44:55:66"),
        Err(MacParseError::WrongSegmentCount)
    );
    assert_eq!(
        create_magic_packet("gg:11:22:33"),
        Err(MacParseError::WrongSegmentCount)
    );
}

#[test]
fn two_digit_octets_are_in_range() {
    let seg: Vec<char> = vec!['F', 'f'];
    assert_eq!(parse_octet(&seg, 0), Ok(0xff));
    let seg: Vec<char> = vec!['7'];
    assert_eq!(parse_octet(&seg, 4), Ok(7));
}

#[test]
fn octet_errors_carry_their_index() {
    assert_eq!(parse_octet(&Vec::new(), 3), Err(MacParseError::EmptySegment { index: 3 }));
    assert_eq!(
        parse_octet(&vec!['1', '0', '0', 'q'], 1),
        Err(MacParseError::InvalidDigit { index: 1 })
    );
    assert_eq!(
        parse_octet(&vec!['1', '0', '0'], 4),
        Err(MacParseError::OutOfRange { index: 4 })
    );
}

#[test]
fn non_ascii_text_is_rejected() {
    assert_eq!(
        parse_mac_address("00:11:22:33:44:5é"),
        Err(MacParseError::InvalidDigit { index: 5 })
    );
}

#[test]
fn hex_digits_of_either_case() {
    assert_eq!(hex_digit('0'), Some(0));
    assert_eq!(hex_digit('9'), Some(9));
    assert_eq!(hex_digit('a'), Some(10));
    assert_eq!(hex_digit('F'), Some(15));
    assert_eq!(hex_digit('g'), None);
    assert_eq!(hex_digit(':'), None);
}
