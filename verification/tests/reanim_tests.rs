use popcap_formats::reanim::{
    compressed_file, decode, decode_pc, decode_phone32, decode_phone64, encode, encode_body, Reanim,
    ReanimError, ReanimTrack, ReanimTransform, ReanimVersion,
};
use popcap_formats::text::parse_i32;

fn create_test_reanim() -> Reanim {
    let mut reanim = Reanim::default();
    reanim.fps = 60.0f32.to_bits();

    let mut track = ReanimTrack {
        name: "TestTrack".to_string(),
        transforms: vec![],
    };

    let mut t1 = ReanimTransform::default();
    t1.x = Some(10.0f32.to_bits());
    t1.y = Some(20.0f32.to_bits());
    t1.font = Some("Arial".to_string());
    t1.text = Some("Hello".to_string());

    let mut t2 = ReanimTransform::default();
    t2.sx = Some(1.5f32.to_bits());
    t2.sy = Some(1.5f32.to_bits());
    t2.i = Some("123".to_string());

    track.transforms.push(t1);
    track.transforms.push(t2);

    reanim.tracks.push(track);
    reanim
}

fn le32(v: i32) -> [u8; 4] {
    v.to_le_bytes()
}

#[test]
fn test_reanim_roundtrip_pc() {
    let original = create_test_reanim();
    let encoded = encode(&original, ReanimVersion::PC).unwrap();
    let decoded = decode(&encoded).unwrap();

    assert_eq!(f32::from_bits(original.fps), f32::from_bits(decoded.fps));
    assert_eq!(original.tracks.len(), decoded.tracks.len());
    assert_eq!(original.tracks[0].name, decoded.tracks[0].name);
    assert_eq!(
        original.tracks[0].transforms[0].text,
        decoded.tracks[0].transforms[0].text
    );
    assert_eq!(
        original.tracks[0].transforms[1].i,
        decoded.tracks[0].transforms[1].i
    );
}

#[test]
fn test_reanim_roundtrip_phone32() {
    let original = create_test_reanim();
    let encoded = encode(&original, ReanimVersion::Phone32).unwrap();
    let decoded = decode(&encoded).unwrap();

    assert_eq!(f32::from_bits(original.fps), f32::from_bits(decoded.fps));
    assert_eq!(original.tracks.len(), decoded.tracks.len());
    assert_eq!(original.tracks[0].name, decoded.tracks[0].name);
    assert_eq!(
        original.tracks[0].transforms[0].text,
        decoded.tracks[0].transforms[0].text
    );
    assert_eq!(
        original.tracks[0].transforms[1].i,
        decoded.tracks[0].transforms[1].i
    );
}

#[test]
fn test_reanim_roundtrip_phone64() {
    let original = create_test_reanim();
    let encoded = encode(&original, ReanimVersion::Phone64).unwrap();
    let decoded = decode(&encoded).unwrap();

    assert_eq!(f32::from_bits(original.fps), f32::from_bits(decoded.fps));
    assert_eq!(original.tracks.len(), decoded.tracks.len());
    assert_eq!(original.tracks[0].name, decoded.tracks[0].name);
    assert_eq!(
        original.tracks[0].transforms[0].text,
        decoded.tracks[0].transforms[0].text
    );
    assert_eq!(
        original.tracks[0].transforms[1].i,
        decoded.tracks[0].transforms[1].i
    );
}

#[test]
fn test_reanim_roundtrip_every_field() {
    let original = create_test_reanim();
    for v in [ReanimVersion::PC, ReanimVersion::Phone32, ReanimVersion::Phone64] {
        let encoded = encode(&original, v).unwrap();
        let decoded = match v {
            ReanimVersion::PC => decode_pc(&encoded),
            ReanimVersion::Phone32 => decode_phone32(&encoded),
            ReanimVersion::Phone64 => decode_phone64(&encoded),
        }
        .unwrap();
        assert_eq!(decoded.do_scale, None);
        let a = &original.tracks[0].transforms;
        let b = &decoded.tracks[0].transforms;
        assert_eq!(a.len(), b.len());
        for k in 0..a.len() {
            assert_eq!(a[k].x, b[k].x);
            assert_eq!(a[k].y, b[k].y);
            assert_eq!(a[k].kx, b[k].kx);
            assert_eq!(a[k].ky, b[k].ky);
            assert_eq!(a[k].sx, b[k].sx);
            assert_eq!(a[k].sy, b[k].sy);
            assert_eq!(a[k].f, b[k].f);
            assert_eq!(a[k].a, b[k].a);
            assert_eq!(a[k].i, b[k].i);
            assert_eq!(a[k].font, b[k].font);
            assert_eq!(a[k].text, b[k].text);
        }
    }
}

#[test]
fn test_encode_body_header_pc() {
    let mut r = Reanim::default();
    r.fps = 12.0f32.to_bits();
    let body = encode_body(&r, ReanimVersion::PC);
    let mut expected = Vec::new();
    expected.extend_from_slice(&le32(-1282165568));
    expected.extend_from_slice(&le32(0));
    expected.extend_from_slice(&le32(0));
    expected.extend_from_slice(&12.0f32.to_le_bytes());
    expected.extend_from_slice(&le32(0));
    expected.extend_from_slice(&le32(0x0C));
    assert_eq!(body, expected);
}

#[test]
fn test_encode_body_entries_phone64() {
    let mut r = Reanim::default();
    let mut t = ReanimTrack::default();
    t.name = "A".to_string();
    t.transforms.push(ReanimTransform::default());
    r.tracks.push(t);
    let body = encode_body(&r, ReanimVersion::Phone64);
    // header (32 bytes), one entry (32 bytes), name, magic, one frame (56 bytes), strings.
    assert_eq!(&body[0..4], &le32(-1069095568));
    assert_eq!(&body[12..16], &le32(1));
    assert_eq!(&body[28..32], &le32(0x20));
    assert_eq!(&body[32..56], &[0u8; 24]);
    assert_eq!(&body[56..60], &le32(1));
    assert_eq!(&body[60..64], &le32(0));
    assert_eq!(&body[64..68], &le32(1));
    assert_eq!(body[68], b'A');
    assert_eq!(&body[69..73], &le32(0x38));
    assert_eq!(&body[73..77], &(-10000.0f32).to_le_bytes());
    assert_eq!(&body[105..129], &[0u8; 24]);
    assert_eq!(&body[129..133], &le32(-1));
    assert_eq!(&body[133..141], &[0u8; 8]);
    assert_eq!(body.len(), 141);
}

#[test]
fn test_compressed_file_framing() {
    let body = [1u8, 2, 3];
    let stream = [9u8, 8];
    let out = compressed_file(&body, &stream, ReanimVersion::Phone64);
    let mut expected = Vec::new();
    expected.extend_from_slice(&le32(-559022380));
    expected.extend_from_slice(&le32(0));
    expected.extend_from_slice(&le32(3));
    expected.extend_from_slice(&le32(0));
    expected.extend_from_slice(&stream);
    assert_eq!(out, expected);
    let out = compressed_file(&body, &stream, ReanimVersion::PC);
    assert_eq!(out.len(), 10);
    assert_eq!(&out[4..8], &le32(3));
}

#[test]
fn test_encode_compresses_body() {
    let r = create_test_reanim();
    let body = encode_body(&r, ReanimVersion::PC);
    let file = encode(&r, ReanimVersion::PC).unwrap();
    assert_eq!(&file[0..4], &le32(-559022380));
    assert_eq!(&file[4..8], &le32(body.len() as i32));
    assert_ne!(&file[8..], &body[..]);
}

#[test]
fn test_phone_image_ids() {
    let mut r = create_test_reanim();
    r.tracks[0].transforms[0].i = Some("abc".to_string());
    r.tracks[0].transforms[1].i = Some("+007".to_string());
    let encoded = encode(&r, ReanimVersion::Phone32).unwrap();
    let decoded = decode_phone32(&encoded).unwrap();
    assert_eq!(decoded.tracks[0].transforms[0].i, None);
    assert_eq!(decoded.tracks[0].transforms[1].i, Some("7".to_string()));
}

#[test]
fn test_absent_marker_value() {
    let mut r = create_test_reanim();
    r.tracks[0].transforms[0].kx = Some((-10000.0f32).to_bits());
    r.tracks[0].transforms[0].font = Some(String::new());
    let encoded = encode(&r, ReanimVersion::PC).unwrap();
    let decoded = decode(&encoded).unwrap();
    assert_eq!(decoded.tracks[0].transforms[0].kx, None);
    assert_eq!(decoded.tracks[0].transforms[0].font, None);
}

#[test]
fn test_decode_short_data() {
    assert_eq!(decode(&[1, 2, 3]).unwrap_err(), ReanimError::InvalidVariant);
    assert_eq!(decode_pc(&[1, 2, 3]).unwrap_err(), ReanimError::Io);
}

#[test]
fn test_parse_i32_cases() {
    assert_eq!(parse_i32("123"), Some(123));
    assert_eq!(parse_i32("-2147483648"), Some(i32::MIN));
    assert_eq!(parse_i32("2147483647"), Some(i32::MAX));
    assert_eq!(parse_i32("2147483648"), None);
    assert_eq!(parse_i32("+5"), Some(5));
    assert_eq!(parse_i32("-"), None);
    assert_eq!(parse_i32("+"), None);
    assert_eq!(parse_i32(""), None);
    assert_eq!(parse_i32("1a"), None);
    assert_eq!(parse_i32(" 1"), None);
    assert_eq!(parse_i32("99999999999999999999"), None);
}

#[test]
fn fields_the_format_does_not_hold_read_back_absent() {
    let mut original = create_test_reanim();
    original.do_scale = Some(1);
    original.tracks[0].transforms[0].resource = Some("RES".to_string());
    original.tracks[0].transforms[0].i2 = Some("IMAGE_2".to_string());
    original.tracks[0].transforms[1].resource2 = Some("RES2".to_string());
    for v in [ReanimVersion::PC, ReanimVersion::Phone32, ReanimVersion::Phone64] {
        let decoded = decode(&encode(&original, v).unwrap()).unwrap();
        assert_eq!(decoded.do_scale, None);
        assert_eq!(decoded.tracks[0].name, "TestTrack");
        for t in &decoded.tracks[0].transforms {
            assert_eq!(t.resource, None);
            assert_eq!(t.i2, None);
            assert_eq!(t.resource2, None);
        }
        assert_eq!(decoded.tracks[0].transforms[0].font, Some("Arial".to_string()));
        assert_eq!(decoded.tracks[0].transforms[1].i, Some("123".to_string()));
    }
}

#[test]
fn checked_reanim_decoding_reports_where_decoding_aborts() {
    let mut aborting = Vec::new();
    for w in [-1282165568i32, 0, -1, 0, 0, 0x0C, -5] {
        aborting.extend_from_slice(&le32(w));
    }
    assert!(popcap_formats::reanim::decode_checked(&aborting).is_none());
    let decoded = popcap_formats::reanim::decode_checked(&encode(&create_test_reanim(), ReanimVersion::Phone32).unwrap())
        .unwrap()
        .unwrap();
    assert_eq!(decoded.tracks[0].name, "TestTrack");
}
