//! Properties of the AFSK layer: tone discrimination, amplitude
//! insensitivity, packing, and resistance to small additive noise.

use afsk_aprs::modem::afsk_modulate;
use afsk_aprs::modem::bits_to_bytes;
use afsk_aprs::modem::demodulate_afsk;
use afsk_aprs::modem::mark_tone_vec;
use afsk_aprs::modem::space_tone_vec;
use afsk_aprs::packet::AprsPacket;
use afsk_aprs::pipeline::decode_audio;
use afsk_aprs::pipeline::encode_message;

#[test]
fn pure_mark_decodes_as_ones() {
    let mut samples = Vec::new();
    for _ in 0..16 {
        samples.extend_from_slice(&mark_tone_vec());
    }
    assert_eq!(demodulate_afsk(&samples), vec![true; 16]);
}

#[test]
fn pure_space_decodes_as_zeros() {
    let mut samples = Vec::new();
    for _ in 0..16 {
        samples.extend_from_slice(&space_tone_vec());
    }
    assert_eq!(demodulate_afsk(&samples), vec![false; 16]);
}

#[test]
fn amplitude_scaling_keeps_decisions() {
    for shift in [1, 2, 4, 8] {
        let mark: Vec<i16> = mark_tone_vec().iter().map(|&s| s / shift).collect();
        let space: Vec<i16> = space_tone_vec().iter().map(|&s| s / shift).collect();
        assert_eq!(demodulate_afsk(&mark), vec![true]);
        assert_eq!(demodulate_afsk(&space), vec![false]);
    }
}

#[test]
fn modulate_demodulate_bytes() {
    let data: Vec<u8> = vec![0x7E, 0x00, 0xFF, 0xA5, 0x42];
    let samples = afsk_modulate(&data);
    assert_eq!(samples.len(), data.len() * 8 * 36);
    let bits = demodulate_afsk(&samples);
    assert_eq!(bits_to_bytes(&bits), data);
}

#[test]
fn partial_trailing_bits_pack_low() {
    // Ten bits: one full byte and a two-bit remainder packed as it stands.
    let bits = vec![true, false, false, false, false, false, true, false, true, true];
    assert_eq!(bits_to_bytes(&bits), vec![0x82, 0x03]);
}

#[test]
fn roundtrip_survives_small_noise() {
    // Additive noise of up to about 3% of full scale, from a fixed linear
    // congruential generator so the test is deterministic.
    let digis: Vec<String> = vec![];
    let samples = encode_message("N0CALL", "APRS", &digis, "Hello noise").unwrap();
    let mut state: u64 = 0x2545F4914F6CDD1D;
    let noisy: Vec<i16> = samples
        .iter()
        .map(|&s| {
            state = state.wrapping_mul(6364136223846793005).wrapping_add(1442695040888963407);
            let noise = ((state >> 33) % 1967) as i32 - 983;
            (s as i32 + noise).clamp(i16::MIN as i32, i16::MAX as i32) as i16
        })
        .collect();
    let back = decode_audio(&noisy).unwrap();
    assert_eq!(back.source, "N0CALL");
    assert_eq!(back.destination, "APRS");
    assert_eq!(back.information, "Hello noise");
}

#[test]
fn silence_fails_to_parse() {
    let samples = vec![0i16; 36 * 200];
    assert!(decode_audio(&samples).is_err());
}

#[test]
fn packet_fields_survive_encode_decode() {
    let digis: Vec<String> = vec!["WIDE1-1".to_string(), "WIDE2-2".to_string()];
    let p = AprsPacket::new("K1ABC-7", "APRS-2", &digis, "!4903.50N/07201.75W-Test");
    let samples = afsk_modulate(&p.encode());
    let back = decode_audio(&samples).unwrap();
    assert_eq!(back.source, "K1ABC-7");
    assert_eq!(back.destination, "APRS-2");
    assert_eq!(back.digipeaters, digis);
    assert_eq!(back.information, "!4903.50N/07201.75W-Test");
}
