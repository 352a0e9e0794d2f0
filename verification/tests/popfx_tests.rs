use popcap_formats::popfx::{
    decode_popfx, encode_popfx, Block1, Block2, Block3, PopcapRenderEffectObject, PopfxError,
};

fn sample() -> PopcapRenderEffectObject {
    PopcapRenderEffectObject {
        block_1: vec![Block1 { unknown_1: 1, unknown_2: 2, unknown_3: 3, unknown_4: 4, unknown_5: 5, unknown_6: 6 }],
        block_2: vec![Block2 { unknown_1: 7, unknown_2: 8 }],
        block_3: vec![
            Block3 { unknown_2: 9, string: "test_string_1".to_string() },
            Block3 { unknown_2: 10, string: "test_string_2".to_string() },
            Block3 { unknown_2: 11, string: "test_string_1".to_string() },
        ],
        block_4: vec![],
        block_5: vec![],
        block_6: vec![],
        block_7: vec![],
        block_8: vec![],
    }
}

#[test]
fn test_popfx_round_trip() {
    let original = sample();
    let buffer = encode_popfx(&original);
    let decoded = decode_popfx(&buffer).expect("Decoding failed");

    assert_eq!(decoded.block_1.len(), original.block_1.len());
    assert_eq!(decoded.block_1[0].unknown_1, original.block_1[0].unknown_1);

    assert_eq!(decoded.block_3.len(), original.block_3.len());
    assert_eq!(decoded.block_3[0].string, "test_string_1");
    assert_eq!(decoded.block_3[1].string, "test_string_2");
    assert_eq!(decoded.block_3[2].string, "test_string_1");
}

#[test]
fn repeated_strings_are_stored_once() {
    let buffer = encode_popfx(&sample());
    // 108-byte header, 24 + 8 + 36 bytes of records, two strings of 13 bytes plus NUL.
    assert_eq!(buffer.len(), 108 + 24 + 8 + 36 + 28);
    assert_eq!(&buffer[0..4], b"xfcp");
    // The third record points at the first string.
    let third = 108 + 24 + 8 + 2 * 12;
    assert_eq!(&buffer[third + 8..third + 12], &0u32.to_le_bytes());
    assert_eq!(&buffer[third..third + 4], &13u32.to_le_bytes());
}

#[test]
fn header_faults_come_in_reading_order() {
    assert_eq!(decode_popfx(b"xfc").unwrap_err(), PopfxError::UnexpectedEof);
    assert_eq!(decode_popfx(b"abcd").unwrap_err(), PopfxError::InvalidMagic);
    let mut data = encode_popfx(&sample());
    data[4] = 2;
    assert_eq!(decode_popfx(&data).unwrap_err(), PopfxError::InvalidVersion { expected: 1, got: 2 });
    let mut data = encode_popfx(&sample());
    data[16 + 12] = 9;
    assert_eq!(decode_popfx(&data).unwrap_err(), PopfxError::InvalidBlockSize { block: 2, expected: 8, got: 9 });
}

#[test]
fn truncated_records_and_bad_strings_are_reported() {
    let data = encode_popfx(&sample());
    // Cut inside the first table's records.
    let mut cut = data[..120].to_vec();
    cut[104..108].copy_from_slice(&120u32.to_le_bytes());
    assert_eq!(decode_popfx(&cut).unwrap_err(), PopfxError::UnexpectedEof);
    // An invalid UTF-8 byte in the string section.
    let mut bad = data.clone();
    let section = 108 + 24 + 8 + 36;
    bad[section] = 0xFF;
    assert_eq!(decode_popfx(&bad).unwrap_err(), PopfxError::Utf8);
}

#[test]
fn string_offsets_past_the_section_read_as_empty() {
    let mut data = encode_popfx(&sample());
    let first = 108 + 24 + 8;
    data[first + 8..first + 12].copy_from_slice(&1000u32.to_le_bytes());
    let decoded = decode_popfx(&data).unwrap();
    assert_eq!(decoded.block_3[0].string, "");
    assert_eq!(decoded.block_3[1].string, "test_string_2");
}
