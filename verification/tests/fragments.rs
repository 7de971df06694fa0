//! The fragmenter and the reassembler: sequence marks, ordering, and the
//! failure cases.

use afsk_aprs::errors::CodecError;
use afsk_aprs::fragment::fragment_info;
use afsk_aprs::fragment::parse_frag_prefix;
use afsk_aprs::fragment::reassemble_info_bytes;
use afsk_aprs::fragment::reassemble_infos;

fn strings(parts: Vec<&str>) -> Vec<String> {
    parts.into_iter().map(|p| p.to_string()).collect()
}

#[test]
fn single_chunk_is_bare() {
    let fields = fragment_info(b"hello");
    assert_eq!(fields, vec![b"hello".to_vec()]);
}

#[test]
fn empty_information_has_no_fields() {
    assert!(fragment_info(b"").is_empty());
}

#[test]
fn three_chunks_are_marked() {
    let info: Vec<u8> = (0..600u32).map(|i| (i % 251) as u8).collect();
    let fields = fragment_info(&info);
    assert_eq!(fields.len(), 3);
    assert!(fields[0].starts_with(b"{1:3}"));
    assert!(fields[1].starts_with(b"{2:3}"));
    assert!(fields[2].starts_with(b"{3:3}"));
    assert_eq!(fields[0].len(), 5 + 256);
    assert_eq!(fields[2].len(), 5 + (600 - 512));
}

#[test]
fn prefix_parses_back() {
    let parsed = parse_frag_prefix(b"{12:34}payload").unwrap();
    assert_eq!(parsed.0, 12);
    assert_eq!(parsed.1, 34);
    assert_eq!(parsed.2, b"payload".to_vec());
    assert!(parse_frag_prefix(b"no mark").is_none());
    assert!(parse_frag_prefix(b"{1x:2}y").is_none());
    assert!(parse_frag_prefix(b"{1:2").is_none());
}

#[test]
fn reassemble_in_order() {
    let out = reassemble_infos(&strings(vec!["{1:2}abc", "{2:2}def"])).unwrap();
    assert_eq!(out, "abcdef");
}

#[test]
fn reassemble_out_of_order() {
    let out = reassemble_infos(&strings(vec!["{2:2}def", "{1:2}abc"])).unwrap();
    assert_eq!(out, "abcdef");
}

#[test]
fn reassemble_bare_concatenates() {
    let out = reassemble_infos(&strings(vec!["abc", "def"])).unwrap();
    assert_eq!(out, "abcdef");
}

#[test]
fn reassemble_missing_fragment() {
    assert_eq!(
        reassemble_infos(&strings(vec!["{1:2}abc", "{1:2}dup"])),
        Err(CodecError::FragmentIncomplete)
    );
}

#[test]
fn reassemble_inconsistent_counts() {
    assert_eq!(
        reassemble_infos(&strings(vec!["{1:2}abc", "{2:3}def"])),
        Err(CodecError::FragmentInconsistent)
    );
    assert_eq!(
        reassemble_infos(&strings(vec!["{1:3}abc", "{2:3}def"])),
        Err(CodecError::FragmentInconsistent)
    );
}

#[test]
fn reassemble_nothing_is_incomplete() {
    let none: Vec<String> = vec![];
    assert_eq!(reassemble_infos(&none), Err(CodecError::FragmentIncomplete));
}

#[test]
fn fragment_then_reassemble_roundtrip() {
    let info: String = "x".repeat(700);
    let fields = fragment_info(info.as_bytes());
    let texts: Vec<String> =
        fields.iter().map(|f| String::from_utf8(f.clone()).unwrap()).collect();
    assert_eq!(reassemble_infos(&texts).unwrap(), info);
}

#[test]
fn byte_level_reassembly_preserves_split_codepoints() {
    // A multi-byte character that straddles the 256-byte chunk boundary
    // survives the byte-level round trip exactly.
    let mut info = vec![b'a'; 255];
    info.extend_from_slice("你好".as_bytes());
    let fields = fragment_info(&info);
    assert_eq!(fields.len(), 2);
    let out = reassemble_info_bytes(&fields).unwrap();
    assert_eq!(out, info);
    assert_eq!(String::from_utf8(out).unwrap().chars().count(), 257);
}
