use popcap_formats::color::Rgba32;
use popcap_formats::image::RgbaImage;
use popcap_formats::ptx::{PtxDecoder, PtxEncoder, PtxFormat};

#[test]
fn test_rgba8888_decoding() {
    // Red pixel in BGRA (PowerVR) and RGBA (default) order.
    let bgra_data = [0u8, 0, 255, 255];
    let rgba_data = [255u8, 0, 0, 255];

    let img_ios = PtxDecoder::decode(&bgra_data, 1, 1, 0, None, None, true).expect("PowerVR decoding failed");
    assert_eq!(img_ios.get(0), Rgba32::new(255, 0, 0, 255), "PowerVR decoding (BGRA input) should result in Red pixel");

    let img_android = PtxDecoder::decode(&rgba_data, 1, 1, 0, None, None, false).expect("Default decoding failed");
    assert_eq!(img_android.get(0), Rgba32::new(255, 0, 0, 255), "Default decoding (RGBA input) should result in Red pixel");
}

#[test]
fn test_ptx_encoding_sizes() {
    let width = 64u32;
    let height = 64u32;
    let img = RgbaImage::new(width, height);

    let data = PtxEncoder::encode(&img, PtxFormat::Rgba8888).unwrap();
    assert_eq!(data.len(), (width * height * 4) as usize);

    let data = PtxEncoder::encode(&img, PtxFormat::Rgba4444).unwrap();
    assert_eq!(data.len(), (width * height * 2) as usize);

    let data = PtxEncoder::encode(&img, PtxFormat::Rgb565).unwrap();
    assert_eq!(data.len(), (width * height * 2) as usize);

    let data = PtxEncoder::encode(&img, PtxFormat::Rgba5551).unwrap();
    assert_eq!(data.len(), (width * height * 2) as usize);

    let data = PtxEncoder::encode(&img, PtxFormat::Rgba4444Block).unwrap();
    assert_eq!(data.len(), (width * height * 2) as usize);

    let data = PtxEncoder::encode(&img, PtxFormat::Rgb565Block).unwrap();
    assert_eq!(data.len(), (width * height * 2) as usize);

    let data = PtxEncoder::encode(&img, PtxFormat::Rgba5551Block).unwrap();
    assert_eq!(data.len(), (width * height * 2) as usize);

    let data = PtxEncoder::encode(&img, PtxFormat::Etc1).unwrap();
    assert_eq!(data.len(), (width * height / 2) as usize);

    let data = PtxEncoder::encode(&img, PtxFormat::Etc1A8).unwrap();
    assert_eq!(data.len(), (width * height / 2 + width * height) as usize);

    let data = PtxEncoder::encode(&img, PtxFormat::Etc1Palette).unwrap();
    let expected = (width * height / 2) + 1 + 16 + (width * height / 2);
    assert_eq!(data.len(), expected as usize);
}

#[test]
fn test_etc1_compressed_alpha() {
    let width = 4u32;
    let height = 4u32;
    let opaque_size = (width * height) / 2;
    let data_opaque = vec![0u8; opaque_size as usize];

    // 17 bytes of header, then one 4x4 alpha block.
    let mut data_alpha = vec![0u8; 17];
    data_alpha.extend(vec![0u8; opaque_size as usize]);
    let mut data = data_opaque.clone();
    data.extend(data_alpha);

    let res = PtxDecoder::decode(&data, width, height, 147, None, Some(100), false);
    assert!(res.is_ok(), "ETC1 with compressed alpha and header should decode");
}

#[test]
fn test_etc1_alpha_legacy() {
    let width = 4u32;
    let height = 4u32;
    let opaque_size = (width * height) / 2;
    let data_opaque = vec![0u8; opaque_size as usize];
    let mut data_no_header = data_opaque.clone();
    data_no_header.extend(vec![0u8; opaque_size as usize]);
    let res = PtxDecoder::decode(&data_no_header, width, height, 147, None, Some(100), false);
    assert!(res.is_ok(), "ETC1 with compressed alpha (no header) should also decode if size matches exactly 2x");
}

#[test]
fn test_ambiguous_format_resolution() {
    let width = 8u32;
    let height = 8u32;
    let opaque_size = (width * height) / 2;
    let alpha_size = width * height;

    let data = vec![0u8; opaque_size as usize];
    let res = PtxDecoder::decode(&data, width, height, 147, None, None, false);
    assert!(res.is_ok(), "ID 147 with opaque-only size should decode as ETC1");

    let mut data_a8 = vec![0u8; (opaque_size + alpha_size) as usize];
    for i in opaque_size as usize..data_a8.len() {
        data_a8[i] = 255;
    }
    let res = PtxDecoder::decode(&data_a8, width, height, 147, None, None, false);
    assert!(res.is_ok(), "ID 147 with alpha size should decode as Etc1A8");
    let img = res.unwrap();
    assert_eq!(img.get(0).a, 255, "Etc1A8 should read alpha channel");

    let pvrtc_data = vec![0u8; 32];
    let res = PtxDecoder::decode(&pvrtc_data, width, height, 30, None, None, false);
    assert!(res.is_ok(), "ID 30 with PVRTC size should decode as PVRTC");

    let mut palette_data = vec![0u8; 81];
    palette_data[32] = 0x10;
    let res = PtxDecoder::decode(&palette_data, width, height, 30, None, None, false);
    assert!(res.is_ok(), "ID 30 with larger size should decode as Etc1Palette");

    let width = 4u32;
    let height = 4u32;
    let opaque_size = 8usize;
    let data_compressed_alpha = vec![0u8; (opaque_size * 2) + 17];
    let res = PtxDecoder::decode(&data_compressed_alpha, width, height, 147, None, Some(100), false);
    assert!(res.is_ok(), "ID 147 with 2x size + 17 bytes should decode as ETC1 + Compressed Alpha with Header");
}

#[test]
fn insufficient_data_errors_name_the_format() {
    let err = PtxDecoder::decode(&[0u8; 3], 1, 1, 0, None, None, false).unwrap_err();
    assert_eq!(format!("{:?}", err), "DeserializationError(\"Insufficient data for Rgba8888: expected 4, got 3\")");
    let err = PtxDecoder::decode(&[0u8; 3], 2, 1, 2, None, None, false).unwrap_err();
    assert_eq!(format!("{:?}", err), "DeserializationError(\"Insufficient data for RGB565: expected 4, got 3\")");
    let err = PtxDecoder::decode(&[0u8; 10], 8, 8, 30, None, None, false).unwrap_err();
    assert_eq!(format!("{:?}", err), "DeserializationError(\"Insufficient data for PVRTC: expected at least 32, got 10\")");
    let err = PtxDecoder::decode(&[0u8; 10], 8, 8, 147, None, None, false).unwrap_err();
    assert_eq!(format!("{:?}", err), "DeserializationError(\"Insufficient data for ETC1: expected at least 32, got 10\")");
    let err = PtxDecoder::decode(&[0u8; 10], 1, 1, -7, None, None, false).unwrap_err();
    assert_eq!(format!("{:?}", err), "DeserializationError(\"Unsupported PTX format for decoding: Unknown(-7)\")");
}

#[test]
fn sixteen_bit_layouts_expand_channels() {
    // 565: 0xF800 is pure red.
    let img = PtxDecoder::decode(&[0x00, 0xF8], 1, 1, 2, None, None, false).unwrap();
    assert_eq!(img.get(0), Rgba32::new(255, 0, 0, 255));
    // 4444: 0x1234 -> r=0x11, g=0x22, b=0x33, a=0x44.
    let img = PtxDecoder::decode(&[0x34, 0x12], 1, 1, 1, None, None, false).unwrap();
    assert_eq!(img.get(0), Rgba32::new(0x11, 0x22, 0x33, 0x44));
    // 5551: 0x07C1 is pure green with alpha on.
    let img = PtxDecoder::decode(&[0xC1, 0x07], 1, 1, 3, None, None, false).unwrap();
    assert_eq!(img.get(0), Rgba32::new(0, 255, 0, 255));
}

#[test]
fn sixteen_bit_encoding_round_trips_quantized_colours() {
    let mut img = RgbaImage::new(3, 2);
    for i in 0..6usize {
        img.set(i, Rgba32::new((i * 40) as u8, (255 - i * 30) as u8, (i * 7) as u8, if i % 2 == 0 { 255 } else { 0 }));
    }
    for (format, code) in [(PtxFormat::Rgba4444, 1), (PtxFormat::Rgb565, 2), (PtxFormat::Rgba5551, 3)] {
        let data = PtxEncoder::encode(&img, format).unwrap();
        let back = PtxDecoder::decode(&data, 3, 2, code, None, None, false).unwrap();
        let again = PtxEncoder::encode(&back, format).unwrap();
        assert_eq!(data, again);
    }
    let data = PtxEncoder::encode(&img, PtxFormat::Rgba4444).unwrap();
    let back = PtxDecoder::decode(&data, 3, 2, 1, None, None, false).unwrap();
    // Channel 40 keeps its high nibble 2 and widens to 0x22.
    assert_eq!(back.get(1).r, 0x22);
}

#[test]
fn tiled_layouts_pad_to_whole_tiles_and_round_trip() {
    let mut img = RgbaImage::new(33, 2);
    img.set(32, Rgba32::new(255, 255, 255, 255));
    img.set(33 + 1, Rgba32::new(0, 0, 255, 255));
    let data = PtxEncoder::encode(&img, PtxFormat::Rgb565Block).unwrap();
    // Two 32x32 tiles side by side.
    assert_eq!(data.len(), 2 * 1024 * 2);
    let back = PtxDecoder::decode(&data, 33, 2, 22, None, None, false).unwrap();
    assert_eq!(back.get(32), Rgba32::new(255, 255, 255, 255));
    assert_eq!(back.get(34), Rgba32::new(0, 0, 255, 255));
    assert_eq!(back.get(0), Rgba32::new(0, 0, 0, 255));
}

#[test]
fn etc1_a8_keeps_alpha() {
    let mut img = RgbaImage::new(4, 4);
    for i in 0..16usize {
        img.set(i, Rgba32::new(200, 100, 50, (i * 16) as u8));
    }
    let data = PtxEncoder::encode(&img, PtxFormat::Etc1A8).unwrap();
    let back = PtxDecoder::decode(&data, 4, 4, 147, None, None, false).unwrap();
    for i in 0..16usize {
        assert_eq!(back.get(i).a, (i * 16) as u8);
    }
}

#[test]
fn etc1_solid_block_decodes_close_to_its_colour() {
    let mut img = RgbaImage::new(4, 4);
    for i in 0..16usize {
        img.set(i, Rgba32::new(128, 64, 32, 255));
    }
    let data = PtxEncoder::encode(&img, PtxFormat::Etc1).unwrap();
    assert_eq!(data.len(), 8);
    let back = PtxDecoder::decode(&data, 4, 4, 147, None, None, false).unwrap();
    let p = back.get(5);
    assert!((p.r as i32 - 128).abs() <= 12 && (p.g as i32 - 64).abs() <= 12 && (p.b as i32 - 32).abs() <= 12);
    assert_eq!(p.a, 255);
}

#[test]
fn pvrtc_encoding_reads_back_close_and_unknown_formats_are_named() {
    let mut img = RgbaImage::new(8, 8);
    for i in 0..64usize {
        img.set(i, Rgba32::new(200, 100, 50, 255));
    }
    let data = PtxEncoder::encode(&img, PtxFormat::Pvrtc4BppRgba).unwrap();
    assert_eq!(data.len(), 32);
    assert_eq!(PtxEncoder::encode(&img, PtxFormat::Pvrtc4BppRgbaA8).unwrap(), data);
    let back = PtxDecoder::decode(&data, 8, 8, 30, None, None, false).unwrap();
    for i in 0..64usize {
        let p = back.get(i);
        assert!((p.r as i32 - 200).abs() <= 8, "{:?}", p);
        assert!((p.g as i32 - 100).abs() <= 8, "{:?}", p);
        assert!((p.b as i32 - 50).abs() <= 8, "{:?}", p);
        assert_eq!(p.a, 255);
    }
    let small = PtxEncoder::encode(&RgbaImage::new(3, 5), PtxFormat::Pvrtc4BppRgba).unwrap();
    assert_eq!(small.len(), 32);
    let err = PtxEncoder::encode(&img, PtxFormat::Unknown(99)).unwrap_err();
    assert_eq!(format!("{:?}", err), "DeserializationError(\"Encoding not implemented for format: Unknown(99)\")");
}

#[test]
fn pvrtc_a8_plane_sets_alpha() {
    // 8x8 PVRTC is 32 bytes of packets; the A8 plane follows.
    let mut data = vec![0u8; 32 + 64];
    for i in 0..64usize {
        data[32 + i] = i as u8;
    }
    let img = PtxDecoder::decode(&data, 8, 8, 148, None, None, false).unwrap();
    assert_eq!(img.get(9).a, 9);
    assert_eq!(img.get(63).a, 63);
}

#[test]
fn format_codes_map_to_formats() {
    assert_eq!(PtxFormat::from(0), PtxFormat::Rgba8888);
    assert_eq!(PtxFormat::from(22), PtxFormat::Rgb565Block);
    assert_eq!(PtxFormat::from(147), PtxFormat::Etc1);
    assert_eq!(PtxFormat::from(148), PtxFormat::Pvrtc4BppRgbaA8);
    assert_eq!(PtxFormat::from(5), PtxFormat::Unknown(5));
}

#[test]
fn palette_alpha_reads_back_quantised() {
    let enc = popcap_formats::etc1::encode_palette_alpha(&[0xF0, 0xF7, 0x60, 0x6F], 2, 2);
    assert_eq!(enc.len(), 19);
    let dec = popcap_formats::etc1::decode_palette_alpha(&enc, 4).unwrap();
    assert_eq!(dec, vec![0xFF, 0xFF, 0x66, 0x66]);
}

#[test]
fn palette_alpha_packs_each_index_most_significant_bit_first() {
    let enc = popcap_formats::etc1::encode_palette_alpha(&[0x10, 0x80], 2, 1);
    assert_eq!(enc[17], 0x18);
    let dec = popcap_formats::etc1::decode_palette_alpha(&enc, 2).unwrap();
    assert_eq!(dec, vec![0x11, 0x88]);
    let enc = popcap_formats::etc1::encode_palette_alpha(&[0x10], 1, 1);
    assert_eq!(enc.len(), 18);
    let dec = popcap_formats::etc1::decode_palette_alpha(&enc, 1).unwrap();
    assert_eq!(dec, vec![0x11]);
    let alphas: Vec<u8> = (0..=255u8).collect();
    let enc = popcap_formats::etc1::encode_palette_alpha(&alphas, 16, 16);
    let dec = popcap_formats::etc1::decode_palette_alpha(&enc, 256).unwrap();
    let quantised: Vec<u8> = alphas.iter().map(|a| (a >> 4) * 0x11).collect();
    assert_eq!(dec, quantised);
}

#[test]
fn flipping_a_selector_bit_changes_only_its_texel() {
    let word: u64 = 0x9C4A_7F3B_0000_0000 | 0x1234_5678;
    let mut base = [Rgba32::new(0, 0, 0, 0); 16];
    popcap_formats::etc1::decode_etc1(word, &mut base);
    for k in 0..16u64 {
        for flip in [1u64 << k, 1u64 << (k + 16)] {
            let mut other = [Rgba32::new(0, 0, 0, 0); 16];
            popcap_formats::etc1::decode_etc1(word ^ flip, &mut other);
            for m in 0..16usize {
                if m as u64 != k {
                    assert_eq!(base[m], other[m]);
                }
            }
        }
    }
}
