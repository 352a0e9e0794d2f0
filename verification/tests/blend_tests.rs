use popcap_formats::blend::f32_blend_exec;

const MODIFIERS: [[i32; 2]; 8] = [
    [2, 8],
    [5, 17],
    [9, 29],
    [13, 42],
    [18, 60],
    [24, 80],
    [33, 106],
    [47, 183],
];

#[test]
fn test_blend_matches_f32_everywhere() {
    for (t, m) in MODIFIERS.iter().enumerate() {
        let div1 = m[0] as f32 / m[1] as f32;
        let div2 = 1.0 - div1;
        for lo in 0..=255u8 {
            for hi in 0..=255u8 {
                let expected = (lo as f32 * div1 + hi as f32 * div2) as i32;
                assert_eq!(f32_blend_exec(t, lo, hi), expected as u64, "row {} lo {} hi {}", t, lo, hi);
            }
        }
    }
}

#[test]
fn test_blend_known_values() {
    // Row 0 weighs the low colour by a quarter: 0.25 * 0 + 0.75 * 200 = 150.
    assert_eq!(f32_blend_exec(0, 0, 200), 150);
    assert_eq!(f32_blend_exec(0, 255, 255), 255);
}
