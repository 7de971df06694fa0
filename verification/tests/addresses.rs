//! The address codec: normalisation, the 7-byte wire form, and the checksum
//! engine's reference value.

use afsk_aprs::address::decode_address;
use afsk_aprs::address::encode_address;
use afsk_aprs::checksum::compute_crc16;

#[test]
fn encode_pads_and_shifts() {
    assert_eq!(encode_address("APRS", false), vec![0x82, 0xA0, 0xA4, 0xA6, 0x40, 0x40, 0x60]);
    assert_eq!(encode_address("N0CALL", true), vec![0x9C, 0x60, 0x86, 0x82, 0x98, 0x98, 0x61]);
}

#[test]
fn encode_uppercases_and_truncates() {
    assert_eq!(encode_address("n0call", true), encode_address("N0CALL", true));
    // A seventh character is dropped.
    assert_eq!(encode_address("LONGCALL", false), encode_address("LONGCA", false));
}

#[test]
fn ssid_out_of_range_becomes_zero() {
    assert_eq!(encode_address("N0CALL-16", true), encode_address("N0CALL", true));
    assert_eq!(encode_address("N0CALL-abc", true), encode_address("N0CALL", true));
    assert_eq!(encode_address("N0CALL-15", true)[6], 0x60 | (15 << 1) | 1);
}

#[test]
fn address_idempotence_examples() {
    let e = encode_address("n0call-1", true);
    assert_eq!(decode_address(&e), "N0CALL-1");
    assert_eq!(e[6] & 1, 1);
    let e = encode_address("N0CALL-0", false);
    assert_eq!(decode_address(&e), "N0CALL");
    assert_eq!(e[6] & 1, 0);
    let e = encode_address("WIDE1-1", true);
    assert_eq!(decode_address(&e), "WIDE1-1");
}

#[test]
fn crc_reference_check_value() {
    // The catalogue check value of CRC-16/IBM-SDLC.
    assert_eq!(compute_crc16(b"123456789"), 0x906E);
    assert_eq!(compute_crc16(b""), 0x0000);
}
