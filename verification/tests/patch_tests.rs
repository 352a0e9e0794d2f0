use popcap_formats::patch::{decode, encode, encode_and_apply};
use popcap_formats::rsb_patch::{RsbPatchError, RsbPatchReader};

#[test]
fn test_round_trip() {
    let source = b"Hello World";
    let target = b"Hello VCDiff";

    let patch_out = encode(&source[..], &target[..]).expect("Encode failed");
    assert!(!patch_out.is_empty());

    let decoded_out = decode(&source[..], &patch_out[..]).expect("Decode failed");
    assert_eq!(decoded_out, target);
}

#[test]
fn a_fresh_patch_applies_back_to_its_target() {
    let source = b"The quick brown fox";
    let target = b"The quick red fox jumps";
    let (patch, rebuilt) = encode_and_apply(&source[..], &target[..]).unwrap();
    assert_eq!(rebuilt, target.to_vec());
    assert_eq!(patch, encode(&source[..], &target[..]).unwrap());
}

fn header(need_patch: bool, head_size: i32) -> Vec<u8> {
    let mut d = Vec::new();
    d.extend_from_slice(b"PBSR");
    d.extend_from_slice(&1i32.to_le_bytes());
    d.extend_from_slice(&2i32.to_le_bytes());
    d.extend_from_slice(&1234i32.to_le_bytes());
    d.extend_from_slice(&0i32.to_le_bytes());
    d.extend_from_slice(&head_size.to_le_bytes());
    d.extend_from_slice(&[7u8; 16]);
    d.extend_from_slice(&5i32.to_le_bytes());
    d.extend_from_slice(&(if need_patch { 1i32 } else { 0 }).to_le_bytes());
    d
}

#[test]
fn rsb_patch_header_and_packets_are_read() {
    let mut d = header(true, 3);
    d.extend_from_slice(&[1, 2, 3]);
    let mut packet = vec![0u8; 152];
    packet[4..8].copy_from_slice(&2i32.to_le_bytes());
    packet[8..13].copy_from_slice(b"group");
    packet[136..152].copy_from_slice(&[9u8; 16]);
    d.extend_from_slice(&packet);
    d.extend_from_slice(&[4, 5]);

    let mut reader = RsbPatchReader::new(d);
    let h = reader.read_header().unwrap();
    assert_eq!(h.rsb_after_size, 1234);
    assert_eq!(h.rsb_head_size, 3);
    assert_eq!(h.md5_before, [7u8; 16]);
    assert_eq!(h.rsg_number, 5);
    assert!(h.rsb_need_patch);
    assert_eq!(reader.extract_header_diff(&h).unwrap(), Some(vec![1, 2, 3]));
    let (info, at) = reader.next_packet_info().unwrap().unwrap();
    assert_eq!(info.packet_patch_size, 2);
    assert_eq!(info.packet_name, "group");
    assert_eq!(info.md5_packet, [9u8; 16]);
    assert_eq!(at, 0x30 + 3 + 152);
    assert_eq!(reader.extract_packet_diff(2).unwrap(), vec![4, 5]);
    assert!(reader.next_packet_info().unwrap().is_none());
}

#[test]
fn rsb_patch_rejects_bad_magic_and_version() {
    let mut reader = RsbPatchReader::new(b"XXXXXXXXXXXX".to_vec());
    match reader.read_header() {
        Err(RsbPatchError::InvalidFile(m)) => assert_eq!(m, "Invalid Magic: Not a PBSR file"),
        other => panic!("unexpected {:?}", other),
    }
    let mut d = header(false, 0);
    d[8..12].copy_from_slice(&(-3i32).to_le_bytes());
    let mut reader = RsbPatchReader::new(d);
    match reader.read_header() {
        Err(RsbPatchError::InvalidFile(m)) => assert_eq!(m, "Unsupported version: 1.-3"),
        other => panic!("unexpected {:?}", other),
    }
    let mut reader = RsbPatchReader::new(b"PBSR".to_vec());
    assert!(matches!(reader.read_header(), Err(RsbPatchError::UnexpectedEof)));
}

#[test]
fn header_diff_is_skipped_when_not_needed() {
    let d = header(false, 10);
    let mut reader = RsbPatchReader::new(d);
    let h = reader.read_header().unwrap();
    assert_eq!(reader.extract_header_diff(&h).unwrap(), None);
    let d = header(true, 10);
    let mut reader = RsbPatchReader::new(d);
    let h = reader.read_header().unwrap();
    assert!(matches!(reader.extract_header_diff(&h), Err(RsbPatchError::UnexpectedEof)));
}

#[test]
fn packet_names_with_invalid_utf8_are_replaced() {
    let mut d = header(false, 0);
    let mut packet = vec![0u8; 152];
    packet[8] = b'a';
    packet[9] = 0xFF;
    packet[10] = b'b';
    d.extend_from_slice(&packet);
    let mut reader = RsbPatchReader::new(d);
    reader.read_header().unwrap();
    let (info, _) = reader.next_packet_info().unwrap().unwrap();
    assert_eq!(info.packet_name, "a\u{FFFD}b");
}

#[test]
fn patches_start_with_the_vcdiff_magic_and_others_are_refused() {
    let patch = encode(&b"Hello World"[..], &b"Hello VCDiff"[..]).unwrap();
    assert!(patch.len() >= 5);
    assert_eq!(&patch[..4], &[0xD6, 0xC3, 0xC4, 0x00]);
    match decode(&b"abc"[..], &b"not a delta"[..]) {
        Err(popcap_formats::patch::PatchError::VCDiff(m)) => assert!(m.starts_with("Decoding failed: ")),
        other => panic!("unexpected {:?}", other),
    }
}
