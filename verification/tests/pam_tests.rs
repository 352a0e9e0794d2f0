use popcap_formats::pam_timeline::{layer_spans, LayerSpan};
use popcap_formats::pam::{
    decode_pam, encode_pam, AddsInfo, FrameInfo, ImageInfo, ImageTransform, MoveTransform, MovesInfo,
    PamError, PamInfo, RemovesInfo, SpriteInfo, PAM_MAGIC,
};

fn sample_frame(version: i32) -> FrameInfo {
    FrameInfo {
        label: Some("start".to_string()),
        stop: true,
        command: vec![("use_action".to_string(), "jump".to_string())],
        remove: vec![RemovesInfo { index: 3 }, RemovesInfo { index: 5000 }],
        append: vec![
            AddsInfo {
                index: 1,
                name: Some("arm".to_string()),
                resource: if version >= 6 { 300 } else { 200 },
                sprite: true,
                additive: false,
                preload_frame: 7,
                time_scale: Some(0x18000),
            },
            AddsInfo {
                index: 4000,
                name: None,
                resource: 2,
                sprite: false,
                additive: true,
                preload_frame: 0,
                time_scale: None,
            },
        ],
        change: vec![
            MovesInfo {
                index: 1,
                transform: MoveTransform::Matrix(65536, 10, -20, 65536),
                x: 40000,
                y: -3,
                color: Some((255, 128, 0, 64)),
                source_rectangle: Some((1, -2, 30, 1638)),
                sprite_frame_number: 9,
            },
            MovesInfo {
                index: 2000,
                transform: MoveTransform::Rotate(-1571),
                x: 100,
                y: 200,
                color: None,
                source_rectangle: None,
                sprite_frame_number: 0,
            },
            MovesInfo {
                index: 0,
                transform: MoveTransform::Translate,
                x: -32767,
                y: 32767,
                color: None,
                source_rectangle: None,
                sprite_frame_number: 0,
            },
        ],
    }
}

fn sample_pam(version: i32) -> PamInfo {
    let named = version >= 4;
    let sprite = |name: &str| SpriteInfo {
        name: if named { Some(name.to_string()) } else { None },
        description: if version >= 6 { Some(format!("{} sprite", name)) } else { None },
        frame_rate: if named { 0x1E_0000 } else { 30 * 0x1_0000 },
        work_area: (if version >= 5 { 2 } else { 0 }, 2),
        frame: vec![sample_frame(version), FrameInfo {
            label: None,
            stop: false,
            command: vec![],
            remove: vec![],
            append: vec![],
            change: vec![],
        }],
    };
    PamInfo {
        version,
        frame_rate: 30,
        position: (0, 400),
        size: (1200, 800),
        image: vec![ImageInfo {
            name: "IMAGE_ZOMBIE_HEAD".to_string(),
            size: if version >= 4 { (64, 48) } else { (-1, -1) },
            transform: if version == 1 {
                ImageTransform::Rotation(1571)
            } else {
                ImageTransform::Matrix(1310720, 0, 0, -1310720)
            },
            x: -10,
            y: 25,
        }],
        sprite: vec![sprite("walk"), sprite("eat")],
        main_sprite: sprite("main"),
    }
}

#[test]
fn pam_roundtrip_each_version() {
    for version in 1..=6 {
        let pam = sample_pam(version);
        let bytes = encode_pam(&pam);
        let back = decode_pam(&bytes).expect("a written file reads back");
        assert_eq!(back, pam, "version {}", version);
    }
}

#[test]
fn pam_header_bytes() {
    let pam = PamInfo {
        version: 2,
        frame_rate: 24,
        position: (1, 2),
        size: (3, 4),
        image: vec![],
        sprite: vec![],
        main_sprite: SpriteInfo {
            name: None,
            description: None,
            frame_rate: 24 * 0x1_0000,
            work_area: (0, 0),
            frame: vec![],
        },
    };
    let bytes = encode_pam(&pam);
    assert_eq!(
        bytes,
        vec![0x54, 0x19, 0xF0, 0xBA, 2, 0, 0, 0, 24, 1, 0, 2, 0, 3, 0, 4, 0, 0, 0, 0, 0, 0, 0]
    );
    assert_eq!(decode_pam(&bytes).unwrap(), pam);
}

#[test]
fn pam_absent_main_sprite() {
    let mut bytes = Vec::new();
    bytes.extend_from_slice(&PAM_MAGIC.to_le_bytes());
    bytes.extend_from_slice(&5i32.to_le_bytes());
    bytes.push(12);
    bytes.extend_from_slice(&[0; 8]);
    bytes.extend_from_slice(&[0, 0, 0, 0]);
    bytes.push(0);
    let pam = decode_pam(&bytes).unwrap();
    assert_eq!(pam.main_sprite.frame_rate, 0);
    assert_eq!(pam.main_sprite.name, None);
    assert_eq!(pam.main_sprite.work_area, (0, 0));
    assert!(pam.main_sprite.frame.is_empty());
}

#[test]
fn pam_errors() {
    assert_eq!(decode_pam(&[1, 2]), Err(PamError::UnexpectedEnd));
    assert_eq!(decode_pam(&[0, 0, 0, 0, 1, 0, 0, 0]), Err(PamError::InvalidMagic(0)));
    let mut bytes = PAM_MAGIC.to_le_bytes().to_vec();
    bytes.extend_from_slice(&7i32.to_le_bytes());
    assert_eq!(decode_pam(&bytes), Err(PamError::VersionOutOfRange(7)));
    let mut bytes = PAM_MAGIC.to_le_bytes().to_vec();
    bytes.extend_from_slice(&0i32.to_le_bytes());
    assert_eq!(decode_pam(&bytes), Err(PamError::VersionOutOfRange(0)));
    let mut bytes = PAM_MAGIC.to_le_bytes().to_vec();
    bytes.extend_from_slice(&3i32.to_le_bytes());
    assert_eq!(decode_pam(&bytes), Err(PamError::UnexpectedEnd));
    let full = encode_pam(&sample_pam(6));
    assert_eq!(decode_pam(&full).map(|p| p.version), Ok(6));
    assert_eq!(decode_pam(&full[..full.len() - 1]), Err(PamError::UnexpectedEnd));
}

#[test]
fn pam_source_rectangle_rounds_toward_zero() {
    // One frame with one move that has a source rectangle of raw -701, 701, -20, 19.
    let mut bytes = PAM_MAGIC.to_le_bytes().to_vec();
    bytes.extend_from_slice(&3i32.to_le_bytes());
    bytes.push(30);
    bytes.extend_from_slice(&[0; 8]);
    bytes.extend_from_slice(&[0, 0]); // images
    bytes.extend_from_slice(&[0, 0]); // sprites
    bytes.extend_from_slice(&[1, 0]); // main sprite: one frame
    bytes.push(4); // moves
    bytes.push(1); // one move
    bytes.extend_from_slice(&(0x8000u16 | 5).to_le_bytes());
    bytes.extend_from_slice(&[0, 0, 0, 0]); // short coordinates
    for v in [-701i16, 701, -20, 19] {
        bytes.extend_from_slice(&v.to_le_bytes());
    }
    let pam = decode_pam(&bytes).unwrap();
    let m = pam.main_sprite.frame[0].change[0];
    assert_eq!(m.index, 5);
    assert_eq!(m.source_rectangle, Some((-35, 35, -1, 0)));
    assert_eq!(pam.main_sprite.frame_rate, 30 * 0x1_0000);
    assert_eq!(pam.main_sprite.work_area, (0, 1));
}

#[test]
fn pam_counts_of_255_and_more_use_the_escape() {
    let mut frame = FrameInfo {
        label: None,
        stop: false,
        command: vec![],
        remove: vec![],
        append: vec![],
        change: vec![],
    };
    for i in 0..300 {
        frame.remove.push(RemovesInfo { index: i });
    }
    let pam = PamInfo {
        version: 4,
        frame_rate: 30,
        position: (0, 0),
        size: (0, 0),
        image: vec![],
        sprite: vec![],
        main_sprite: SpriteInfo {
            name: Some(String::new()),
            description: None,
            frame_rate: 0,
            work_area: (0, 1),
            frame: vec![frame],
        },
    };
    let bytes = encode_pam(&pam);
    // header 19, sprite count 2, flag 1, name 2, rate 4, frame count 2, flag byte 1, then 255 and 300.
    assert_eq!(&bytes[31..34], &[255, 0x2C, 0x01]);
    assert_eq!(decode_pam(&bytes).unwrap(), pam);
}

#[test]
fn the_animation_json_is_found_in_a_page_script() {
    let script = "var x = 1;\nconst pamData = {\"version\": 6, \"main_sprite\": {\"frame\": [{}]}};\nplay();";
    let (start, end) = popcap_formats::pam_html::pam_json_span(script.as_bytes()).unwrap();
    assert_eq!(&script[start..end], "{\"version\": 6, \"main_sprite\": {\"frame\": [{}]}}");
    assert_eq!(popcap_formats::pam_html::pam_json_span(b"const other = {}"), None);
    assert_eq!(popcap_formats::pam_html::pam_json_span(b"const pamData = {\"a\": 1"), None);
}

#[test]
fn the_animation_json_comes_from_the_first_script_that_holds_one() {
    let page = "<html><head><script>var a = 1;</script></head><body>\
<script>const pamData = {\"a\": 1</script>\
<script>const pamData = {\"version\": 6, \"s\": {\"t\": 2}}; play();</script>\
<script>const pamData = {\"late\": 0};</script></body></html>";
    let json = popcap_formats::pam_html::pam_json_in_html(page).unwrap();
    assert_eq!(json, b"{\"version\": 6, \"s\": {\"t\": 2}}".to_vec());
    assert_eq!(popcap_formats::pam_html::pam_json_in_html("<html><script>var a = {};</script></html>"), None);
    assert_eq!(popcap_formats::pam_html::pam_json_in_html(""), None);
    let texts = vec![b"no marker".to_vec(), b"const pamData = {}".to_vec()];
    assert_eq!(popcap_formats::pam_html::pam_json_in_scripts(&texts), Some(b"{}".to_vec()));
    assert_eq!(popcap_formats::pam_html::pam_json_in_scripts(&Vec::new()), None);
}

#[test]
fn layer_frames_key_the_marked_frames_and_span_the_gaps() {
    let marks = vec![false, false, true, true, false, true, false, false, false];
    assert_eq!(
        layer_spans(&marks),
        vec![
            LayerSpan::Gap { index: 0, duration: 2 },
            LayerSpan::Key { index: 2 },
            LayerSpan::Key { index: 3 },
            LayerSpan::Gap { index: 4, duration: 1 },
            LayerSpan::Key { index: 5 },
            LayerSpan::Gap { index: 6, duration: 3 },
        ]
    );
    assert_eq!(layer_spans(&vec![true]), vec![LayerSpan::Key { index: 0 }]);
    assert_eq!(layer_spans(&vec![false, false]), vec![LayerSpan::Gap { index: 0, duration: 2 }]);
    assert_eq!(layer_spans(&Vec::new()), Vec::new());
}
