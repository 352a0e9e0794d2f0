use popcap_formats::particles::{
    decode, decode_pc, decode_phone32, decode_phone64, encode, encode_body, popcap_compress,
    popcap_decompress, read_string, read_string_opt, read_track_nodes, write_string,
    write_track_nodes, ByteReader, Particles, ParticlesEmitter, ParticlesError, ParticlesField,
    ParticlesTrackNode, ParticlesVersion, PopCapCodec,
};
use popcap_formats::trail::{decode_trail, encode_trail, Trail};

fn bits(x: f32) -> u32 {
    x.to_bits()
}

fn create_test_particles() -> Particles {
    let mut particles = Particles::default();

    let mut emitter = ParticlesEmitter::default();
    emitter.name = Some("TestEmitter".to_string());
    emitter.image = Some("star".to_string());
    emitter.image_frames = Some(4);
    emitter.particle_flags = 15;

    let tp1 = ParticlesTrackNode {
        time: bits(0.0),
        low_value: Some(bits(1.0)),
        high_value: Some(bits(2.0)),
        curve_type: None,
        distribution: None,
    };
    emitter.spawn_rate = Some(vec![tp1]);

    let mut field = ParticlesField::default();
    field.field_type = Some(2);
    field.x = Some(vec![ParticlesTrackNode {
        time: bits(0.5),
        low_value: Some(bits(10.0)),
        high_value: None,
        curve_type: None,
        distribution: None,
    }]);
    emitter.field = Some(vec![field]);

    particles.emitters.push(emitter);
    particles
}

#[test]
fn test_particles_roundtrip_pc() {
    let original = create_test_particles();
    let encoded = encode(&original, ParticlesVersion::PC).unwrap();
    let decoded = decode(&encoded).unwrap();

    assert_eq!(original.emitters.len(), decoded.emitters.len());
    assert_eq!(original.emitters[0].name, decoded.emitters[0].name);
    assert_eq!(
        original.emitters[0].spawn_rate,
        decoded.emitters[0].spawn_rate
    );
    assert_eq!(
        original.emitters[0].field.as_ref().unwrap().len(),
        decoded.emitters[0].field.as_ref().unwrap().len()
    );
    assert_eq!(
        original.emitters[0].field.as_ref().unwrap()[0].x,
        decoded.emitters[0].field.as_ref().unwrap()[0].x
    );
}

#[test]
fn test_particles_roundtrip_phone32() {
    let original = create_test_particles();
    let encoded = encode(&original, ParticlesVersion::Phone32).unwrap();
    let decoded = decode(&encoded).unwrap();

    assert_eq!(original.emitters.len(), decoded.emitters.len());
    assert_eq!(original.emitters[0].name, decoded.emitters[0].name);
    assert_eq!(
        original.emitters[0].spawn_rate,
        decoded.emitters[0].spawn_rate
    );
    assert_eq!(
        original.emitters[0].field.as_ref().unwrap().len(),
        decoded.emitters[0].field.as_ref().unwrap().len()
    );
    assert_eq!(
        original.emitters[0].field.as_ref().unwrap()[0].x,
        decoded.emitters[0].field.as_ref().unwrap()[0].x
    );
}

#[test]
fn test_particles_roundtrip_phone64() {
    let original = create_test_particles();
    let encoded = encode(&original, ParticlesVersion::Phone64).unwrap();
    let decoded = decode(&encoded).unwrap();

    assert_eq!(original.emitters.len(), decoded.emitters.len());
    assert_eq!(original.emitters[0].name, decoded.emitters[0].name);
    assert_eq!(
        original.emitters[0].spawn_rate,
        decoded.emitters[0].spawn_rate
    );
    assert_eq!(
        original.emitters[0].field.as_ref().unwrap().len(),
        decoded.emitters[0].field.as_ref().unwrap().len()
    );
    assert_eq!(
        original.emitters[0].field.as_ref().unwrap()[0].x,
        decoded.emitters[0].field.as_ref().unwrap()[0].x
    );
}

#[test]
fn test_particles_variant_decoders_keep_every_part() {
    let mut original = create_test_particles();
    original.emitters[0].image = Some("17".to_string());
    original.emitters[0].on_duration = Some("5".to_string());
    original.emitters[0].image_col = Some(3);
    original.emitters[0].emitter_type = Some(2);
    original.emitters[0].clip_right = Some(vec![ParticlesTrackNode {
        time: bits(1.0),
        low_value: Some(bits(-3.5)),
        high_value: None,
        curve_type: Some(4),
        distribution: Some(7),
    }]);
    let mut sys = ParticlesField::default();
    sys.y = Some(vec![ParticlesTrackNode::default()]);
    original.emitters[0].system_field = Some(vec![sys]);
    for v in [ParticlesVersion::PC, ParticlesVersion::Phone32, ParticlesVersion::Phone64] {
        let encoded = encode(&original, v).unwrap();
        let decoded = match v {
            ParticlesVersion::PC => decode_pc(&encoded),
            ParticlesVersion::Phone32 => decode_phone32(&encoded),
            ParticlesVersion::Phone64 => decode_phone64(&encoded),
        }
        .unwrap();
        let a = &original.emitters[0];
        let b = &decoded.emitters[0];
        assert_eq!(a.image, b.image);
        assert_eq!(a.name, b.name);
        assert_eq!(a.on_duration, b.on_duration);
        assert_eq!(a.image_col, b.image_col);
        assert_eq!(a.image_frames, b.image_frames);
        assert_eq!(a.particle_flags, b.particle_flags);
        assert_eq!(a.emitter_type, b.emitter_type);
        assert_eq!(a.clip_right, b.clip_right);
        assert_eq!(a.spawn_rate, b.spawn_rate);
        assert_eq!(b.system_field.as_ref().unwrap().len(), 1);
        assert_eq!(b.system_field.as_ref().unwrap()[0].y, Some(vec![ParticlesTrackNode::default()]));
        assert_eq!(b.field.as_ref().unwrap()[0].field_type, Some(2));
    }
}

#[test]
fn test_particles_body_header() {
    let p = Particles::default();
    let body = encode_body(&p, ParticlesVersion::Phone64);
    let mut expected = Vec::new();
    for w in [-527264279i32, 0, 0, 0, 0, 0x2B0] {
        expected.extend_from_slice(&w.to_le_bytes());
    }
    assert_eq!(body, expected);
    let mut one = Particles::default();
    one.emitters.push(ParticlesEmitter::default());
    let body = encode_body(&one, ParticlesVersion::PC);
    // header (16) + one emitter header (0x164) + its body
    assert_eq!(&body[0..4], &1092589901i32.to_le_bytes());
    assert_eq!(&body[8..12], &1i32.to_le_bytes());
    assert_eq!(&body[12..16], &0x164i32.to_le_bytes());
    assert_eq!(&body[16 + 12..16 + 16], &1i32.to_le_bytes());
    assert_eq!(&body[16 + 24..16 + 28], &1i32.to_le_bytes());
    assert_eq!(&body[16 + 0x164..16 + 0x164 + 4], &0i32.to_le_bytes());
}

#[test]
fn test_particles_errors() {
    assert_eq!(decode(&[1, 2]).unwrap_err(), ParticlesError::InvalidVariant);
    assert_eq!(decode_pc(&[1, 2]).unwrap_err(), ParticlesError::Io);
    let mut body = Vec::new();
    for w in [1092589901i32, 0, 0, 0x123] {
        body.extend_from_slice(&w.to_le_bytes());
    }
    assert_eq!(
        decode_pc(&body).unwrap_err(),
        ParticlesError::UnsupportedFormat(0x164, 0)
    );
}

#[test]
fn test_popcap_compress_wrapper() {
    let data = b"some bytes to compress, some bytes to compress".to_vec();
    let packed = popcap_compress(&data).unwrap();
    assert_eq!(&packed[0..4], &0xDEADFED4u32.to_le_bytes());
    assert_eq!(&packed[4..8], &(data.len() as u32).to_le_bytes());
    assert_ne!(&packed[8..], &data[..]);
    assert_eq!(popcap_decompress(&packed).unwrap(), data);
    assert_eq!(popcap_decompress(&[0; 4]).unwrap_err(), ParticlesError::InvalidVariant);
    assert_eq!(popcap_decompress(&[0; 12]).unwrap_err(), ParticlesError::InvalidVariant);
}

#[test]
fn test_shared_string_and_node_io() {
    let mut out = Vec::new();
    write_string(&mut out, "abc");
    out.extend_from_slice(&[3, 0, 0, 0, b'x', 0, 0]);
    out.extend_from_slice(&0i32.to_le_bytes());
    let node = ParticlesTrackNode {
        time: bits(2.0),
        low_value: None,
        high_value: Some(bits(4.0)),
        curve_type: None,
        distribution: Some(3),
    };
    write_track_nodes(&mut out, &Some(vec![node]));
    write_track_nodes(&mut out, &None);
    let mut r = ByteReader { data: &out, pos: 0 };
    assert_eq!(read_string(&mut r).unwrap(), "abc");
    assert_eq!(read_string_opt(&mut r).unwrap(), Some("x".to_string()));
    assert_eq!(read_string_opt(&mut r).unwrap(), None);
    assert_eq!(read_track_nodes(&mut r).unwrap(), Some(vec![node]));
    assert_eq!(read_track_nodes(&mut r).unwrap(), None);
    assert_eq!(r.pos, out.len());
    let bad = [2u8, 0, 0, 0, 0xFF, 0xFE];
    let mut r = ByteReader { data: &bad, pos: 0 };
    assert_eq!(read_string(&mut r).unwrap_err(), ParticlesError::StringDecodeError);
}

#[test]
fn test_node_zero_values_read_as_absent() {
    let mut out = Vec::new();
    out.extend_from_slice(&1i32.to_le_bytes());
    out.extend_from_slice(&0u32.to_le_bytes());
    out.extend_from_slice(&(-0.0f32).to_bits().to_le_bytes());
    out.extend_from_slice(&f32::NAN.to_bits().to_le_bytes());
    out.extend_from_slice(&1i32.to_le_bytes());
    out.extend_from_slice(&0i32.to_le_bytes());
    let mut r = ByteReader { data: &out, pos: 0 };
    let nodes = read_track_nodes(&mut r).unwrap().unwrap();
    assert_eq!(nodes[0].low_value, None);
    assert_eq!(nodes[0].high_value, Some(f32::NAN.to_bits()));
    assert_eq!(nodes[0].curve_type, None);
    assert_eq!(nodes[0].distribution, Some(0));
}

#[test]
fn test_trail_roundtrip() {
    let trail = Trail {
        max_points: 20,
        min_point_distance: bits(3.0),
        trail_flags: 1,
        image: Some("IMAGE_ICETRAIL".to_string()),
        width_over_length: Some(vec![
            ParticlesTrackNode {
                time: bits(0.0),
                low_value: Some(bits(12.0)),
                high_value: Some(bits(12.0)),
                curve_type: Some(3),
                distribution: None,
            },
            ParticlesTrackNode {
                time: bits(1.0),
                low_value: Some(bits(5.0)),
                high_value: Some(bits(5.0)),
                curve_type: None,
                distribution: None,
            },
        ]),
        width_over_life: None,
        alpha_over_length: Some(vec![
            ParticlesTrackNode {
                time: bits(0.0),
                low_value: None,
                high_value: None,
                curve_type: None,
                distribution: None,
            },
            ParticlesTrackNode {
                time: bits(0.2),
                low_value: Some(bits(0.3)),
                high_value: Some(bits(0.3)),
                curve_type: None,
                distribution: None,
            },
        ]),
        alpha_over_life: None,
    };

    let encoded = encode_trail(&trail).unwrap();
    let decoded = decode_trail(&encoded).unwrap();

    assert_eq!(decoded.max_points, trail.max_points);
    assert_eq!(
        f32::from_bits(decoded.min_point_distance),
        f32::from_bits(trail.min_point_distance)
    );
    assert_eq!(decoded.trail_flags, trail.trail_flags);
    assert_eq!(decoded.image, trail.image);
    assert_eq!(decoded.width_over_length, trail.width_over_length);
    assert_eq!(decoded.width_over_life, trail.width_over_life);
    assert_eq!(decoded.alpha_over_length, trail.alpha_over_length);
    assert_eq!(decoded.alpha_over_life, trail.alpha_over_life);
}

#[test]
fn test_trail_via_trait() {
    let trail = Trail {
        max_points: 10,
        min_point_distance: bits(2.0),
        trail_flags: 0,
        image: Some("TEST_IMAGE".to_string()),
        width_over_length: None,
        width_over_life: None,
        alpha_over_length: None,
        alpha_over_life: None,
    };

    let encoded = trail.encode().unwrap();
    let decoded = Trail::decode(&encoded).unwrap();

    assert_eq!(decoded.max_points, trail.max_points);
    assert_eq!(decoded.image, trail.image);
}

#[test]
fn test_particles_via_trait() {
    let p = create_test_particles();
    let encoded = PopCapCodec::encode(&p).unwrap();
    let decoded = <Particles as PopCapCodec>::decode(&encoded).unwrap();
    assert_eq!(decoded.emitters[0].image, Some("star".to_string()));
}

fn words(ws: &[i32]) -> Vec<u8> {
    ws.iter().flat_map(|w| w.to_le_bytes()).collect()
}

#[test]
fn checked_particles_decoding_reports_where_decoding_aborts() {
    // A plain PC body whose emitter count is negative.
    let aborting = words(&[1092589901, 0, -1, 0x164]);
    assert!(popcap_formats::particles::decode_checked(&aborting).is_none());
    let garbage = words(&[7, 0, 0]);
    assert!(matches!(
        popcap_formats::particles::decode_checked(&garbage),
        Some(Err(ParticlesError::InvalidVariant))
    ));
    let encoded = encode(&Particles::default(), ParticlesVersion::PC).unwrap();
    let decoded = popcap_formats::particles::decode_checked(&encoded).unwrap().unwrap();
    assert_eq!(decoded.emitters.len(), 0);
}

#[test]
fn phone64_files_are_decoded_with_the_phone64_reader() {
    let mut p = Particles::default();
    let mut e = ParticlesEmitter::default();
    e.name = Some("Glow".to_string());
    e.image = Some("42".to_string());
    p.emitters.push(e);
    let encoded = encode(&p, ParticlesVersion::Phone64).unwrap();
    assert!(decode_pc(&encoded).is_err());
    assert!(decode_phone32(&encoded).is_err());
    let decoded = decode(&encoded).unwrap();
    assert_eq!(decoded.emitters[0].name, Some("Glow".to_string()));
    assert_eq!(decoded.emitters[0].image, Some("42".to_string()));
}

#[test]
fn checked_trail_decoding_matches_the_plain_one() {
    let t = Trail {
        max_points: 3,
        min_point_distance: 0,
        trail_flags: 1,
        image: Some("IMAGE_TRAIL".to_string()),
        width_over_length: None,
        width_over_life: None,
        alpha_over_length: None,
        alpha_over_life: None,
    };
    let encoded = encode_trail(&t).unwrap();
    let checked = popcap_formats::trail::decode_trail_checked(&encoded).unwrap().unwrap();
    assert_eq!(checked.image, Some("IMAGE_TRAIL".to_string()));
    assert_eq!(checked.max_points, 3);
}

#[test]
fn written_strings_and_node_lists_read_back_between_other_bytes() {
    let node = ParticlesTrackNode {
        time: 7,
        low_value: Some(bits(-1.5)),
        high_value: None,
        curve_type: Some(2),
        distribution: None,
    };
    let mut out = vec![9u8, 9, 9];
    write_string(&mut out, "Ünïcode");
    write_string(&mut out, "");
    write_track_nodes(&mut out, &Some(vec![node, node]));
    write_track_nodes(&mut out, &Some(Vec::new()));
    out.extend_from_slice(&[1, 2, 3]);
    let mut r = ByteReader { data: &out, pos: 3 };
    assert_eq!(read_string_opt(&mut r).unwrap(), Some("Ünïcode".to_string()));
    assert_eq!(r.pos, 3 + 4 + "Ünïcode".len());
    assert_eq!(read_string_opt(&mut r).unwrap(), None);
    assert_eq!(read_track_nodes(&mut r).unwrap(), Some(vec![node, node]));
    assert_eq!(read_track_nodes(&mut r).unwrap(), None);
    assert_eq!(r.pos, out.len() - 3);
}

#[test]
fn phone32_files_without_images_come_back_whole_through_decode() {
    let mut original = create_test_particles();
    original.emitters[0].image = None;
    original.emitters[0].on_duration = Some("1.5".to_string());
    let encoded = encode(&original, ParticlesVersion::Phone32).unwrap();
    let via_pc = decode_pc(&encoded).unwrap();
    let decoded = decode(&encoded).unwrap();
    let e = &decoded.emitters[0];
    assert_eq!(e.image, None);
    assert_eq!(e.name, original.emitters[0].name);
    assert_eq!(e.on_duration, original.emitters[0].on_duration);
    assert_eq!(e.image_frames, Some(4));
    assert_eq!(e.particle_flags, 15);
    assert_eq!(e.spawn_rate, original.emitters[0].spawn_rate);
    assert_eq!(e.field.as_ref().unwrap()[0].x, original.emitters[0].field.as_ref().unwrap()[0].x);
    assert_eq!(via_pc.emitters[0].spawn_rate, e.spawn_rate);
}

#[test]
fn a_phone32_image_zero_comes_back_absent_through_decode() {
    let mut original = create_test_particles();
    original.emitters[0].image = Some("0".to_string());
    let encoded = encode(&original, ParticlesVersion::Phone32).unwrap();
    assert_eq!(decode_phone32(&encoded).unwrap().emitters[0].image, Some("0".to_string()));
    assert_eq!(decode(&encoded).unwrap().emitters[0].image, None);
}
