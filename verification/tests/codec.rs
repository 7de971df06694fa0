//! End-to-end scenarios: frame bytes, sample counts, round trips, and the
//! error cases of both pipelines.

use afsk_aprs::errors::CodecError;
use afsk_aprs::fragment::prepare_packets;
use afsk_aprs::frame::parse_aprs_packet;
use afsk_aprs::modem::afsk_modulate;
use afsk_aprs::packet::AprsPacket;
use afsk_aprs::pipeline::decode_audio;
use afsk_aprs::pipeline::encode_message;

fn packet(source: &str, destination: &str, digis: Vec<&str>, info: &str) -> AprsPacket {
    let digis: Vec<String> = digis.into_iter().map(|d| d.to_string()).collect();
    AprsPacket::new(source, destination, &digis, info)
}

#[test]
fn short_ascii_frame_bytes() {
    let p = packet("N0CALL", "APRS", vec![], "Hello");
    let frame = p.encode();
    let expected: Vec<u8> = vec![
        0x7E, // opening flag
        0x82, 0xA0, 0xA4, 0xA6, 0x40, 0x40, 0x60, // APRS, padded, not last
        0x9C, 0x60, 0x86, 0x82, 0x98, 0x98, 0x61, // N0CALL, last
        0x03, 0xF0, // control, protocol id
        0x48, 0x65, 0x6C, 0x6C, 0x6F, // "Hello"
        0x2C, 0x54, // CRC-16/IBM-SDLC of "Hello", little-endian
        0x7E, // closing flag
    ];
    assert_eq!(frame, expected);
}

#[test]
fn short_ascii_sample_count_and_roundtrip() {
    let digis: Vec<String> = vec![];
    let samples = encode_message("N0CALL", "APRS", &digis, "Hello").unwrap();
    // 25 frame bytes, 8 bits each, 36 samples per bit.
    assert_eq!(samples.len(), 25 * 8 * 36);
    let back = decode_audio(&samples).unwrap();
    assert_eq!(back.source, "N0CALL");
    assert_eq!(back.destination, "APRS");
    assert!(back.digipeaters.is_empty());
    assert_eq!(back.information, "Hello");
}

#[test]
fn one_digipeater_roundtrip() {
    let digis: Vec<String> = vec!["WIDE1-1".to_string()];
    let p = AprsPacket::new("N0CALL-1", "APRS", &digis, "X");
    let frame = p.encode();
    // The source's SSID byte keeps the end-of-address bit clear...
    assert_eq!(frame[14], 0x60 | (1 << 1));
    // ...and the digipeater's sets it.
    assert_eq!(frame[21], 0x60 | (1 << 1) | 1);
    let samples = encode_message("N0CALL-1", "APRS", &digis, "X").unwrap();
    let back = decode_audio(&samples).unwrap();
    assert_eq!(back.source, "N0CALL-1");
    assert_eq!(back.destination, "APRS");
    assert_eq!(back.digipeaters, vec!["WIDE1-1".to_string()]);
    assert_eq!(back.information, "X");
}

#[test]
fn oversized_information_fragments() {
    let info = "A".repeat(300);
    let digis: Vec<String> = vec![];
    let packets = prepare_packets("N0CALL", "APRS", &digis, &info);
    assert_eq!(packets.len(), 2);
    // Information starts after flag + two addresses + control + pid.
    assert!(packets[0][17..].starts_with(b"{1:2}"));
    assert!(packets[1][17..].starts_with(b"{2:2}"));
    let mut total = Vec::new();
    for p in &packets {
        let content = &p[17..p.len() - 3];
        let end_of_seq = content.iter().position(|&b| b == b'}').unwrap() + 1;
        total.extend_from_slice(&content[end_of_seq..]);
    }
    assert_eq!(total, info.as_bytes());
}

#[test]
fn crc_corruption_is_detected() {
    let p = packet("N0CALL", "APRS", vec![], "Hello");
    let mut frame = p.encode();
    // Flip one bit in the information field, rebuild the samples, decode.
    frame[17] ^= 0x01;
    let samples = afsk_modulate(&frame);
    match decode_audio(&samples) {
        Err(CodecError::CrcMismatch { expected, actual }) => {
            assert_ne!(expected, actual);
            assert_eq!(actual, 0x542C);
        },
        other => panic!("expected a checksum mismatch, got {:?}", other.map(|p| p.information)),
    }
}

#[test]
fn unicode_payload_roundtrip() {
    let digis: Vec<String> = vec![];
    let samples = encode_message("N0CALL", "APRS", &digis, "你好").unwrap();
    let back = decode_audio(&samples).unwrap();
    assert_eq!(back.information, "你好");
    assert_eq!(back.information.as_bytes().len(), 6);
    assert_eq!(back.information.chars().count(), 2);
}

#[test]
fn empty_information_is_rejected() {
    let digis: Vec<String> = vec![];
    assert_eq!(encode_message("N0CALL", "APRS", &digis, ""), Err(CodecError::EmptyInformation));
}

#[test]
fn parse_too_short() {
    assert_eq!(parse_aprs_packet(&[0x7E; 8]).err(), Some(CodecError::InputTooShort));
}

#[test]
fn parse_no_start_flag() {
    assert_eq!(parse_aprs_packet(&[0x00; 30]).err(), Some(CodecError::NoStartFlag));
}

#[test]
fn parse_address_runs_out() {
    let mut buf = vec![0x00u8; 22];
    buf[0] = 0x7E;
    assert_eq!(parse_aprs_packet(&buf).err(), Some(CodecError::AddressDecodeFailure));
}

#[test]
fn parse_missing_control_or_pid() {
    let p = packet("N0CALL", "APRS", vec![], "Hello");
    let mut frame = p.encode();
    frame[15] = 0x42;
    assert_eq!(parse_aprs_packet(&frame).err(), Some(CodecError::MissingControlOrPid));
}

#[test]
fn parse_no_end_flag() {
    let p = packet("N0CALL", "APRS", vec![], "Hello");
    let mut frame = p.encode();
    let n = frame.len();
    frame[n - 1] = 0x00;
    assert_eq!(parse_aprs_packet(&frame).err(), Some(CodecError::NoEndFlag));
}

#[test]
fn lossy_information_on_invalid_utf8() {
    // A frame whose information bytes are not valid UTF-8 still parses; the
    // invalid byte is replaced in the returned text.
    let digis: Vec<String> = vec![];
    let frame = afsk_aprs::frame::assemble_frame("APRS", "N0CALL", &digis, &[0xFF, 0x41]);
    let p = parse_aprs_packet(&frame).unwrap();
    assert_eq!(p.information, "\u{FFFD}A");
}
