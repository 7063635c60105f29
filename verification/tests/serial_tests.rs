use emberone_control::serial::{le_bytes, serial_number};

#[test]
fn bytes_least_significant_first() {
    assert_eq!(le_bytes(0), [0, 0, 0, 0]);
    assert_eq!(le_bytes(0x12345678), [0x78, 0x56, 0x34, 0x12]);
    assert_eq!(le_bytes(0xffffffff), [0xff, 0xff, 0xff, 0xff]);
    assert_eq!(le_bytes(0x69726174), [0x74, 0x61, 0x72, 0x69]);
    for x in [1u32, 255, 256, 65535, 65536, 0x00ef4015, 0x80000000] {
        assert_eq!(le_bytes(x), x.to_le_bytes());
    }
}

#[test]
fn serial_of_known_identifiers() {
    assert_eq!(&serial_number(0), b"def96223");
    assert_eq!(&serial_number(0x69726174), b"b98dab78");
}

#[test]
fn serial_is_hexadecimal_text() {
    for jedec_id in [0u32, 1, 0x00ef4015, 0x00ef4018, 0xffffffff] {
        let text = serial_number(jedec_id);
        assert!(text.iter().all(|c| c.is_ascii_digit() || (b'a'..=b'f').contains(c)));
        assert!(core::str::from_utf8(&text).is_ok());
    }
}

#[test]
fn serial_differs_from_its_identifier() {
    assert_ne!(&serial_number(0x12345678), b"78563412");
    assert_ne!(serial_number(1), serial_number(2));
}
