//! Encoding PVRTC 4bpp textures: each block's two colours are the lowest and
//! the highest value of each channel over its texels, and each texel's
//! modulation is where it projects onto the line between the two colours
//! interpolated from the neighbouring blocks.
use vstd::prelude::*;
use crate::color::Rgba32;
use crate::image::RgbaImage;
use crate::bytes::{le32, le64, le32_bytes, lemma_le32_roundtrip, push_le32};
use crate::pvrtc::{
    bilinear, chan, interp, is_pow2, lemma_morton_bound, lemma_morton_unfold, morton, morton_exec,
    packet_at, packet_color,
};

verus! {

// ─── What the encoder writes ────────────────────────────────────────────────

/// Texel `(x, y)` of the texture that holds `img` in its top left corner;
/// transparent black past the image.
pub open spec fn tex_pixel(img: RgbaImage, x: int, y: int) -> Rgba32 {
    if 0 <= x < img.width && 0 <= y < img.height {
        img.pixels()[y * img.width + x]
    } else {
        Rgba32::zero_spec()
    }
}

/// Texel position `k` (`py * 4 + px`) of block `(bx, by)`.
pub open spec fn block_texel(img: RgbaImage, bx: int, by: int, k: int) -> Rgba32 {
    tex_pixel(img, 4 * bx + k % 4, 4 * by + k / 4)
}

/// Channel `c` (0 to 3: red, green, blue, alpha) of a colour.
pub open spec fn channel(p: Rgba32, c: int) -> int {
    if c == 0 { p.r as int } else if c == 1 { p.g as int } else if c == 2 { p.b as int } else { p.a as int }
}

/// The lowest value of channel `c` over the first `k` texels of a block.
pub open spec fn block_low(img: RgbaImage, bx: int, by: int, c: int, k: nat) -> int
    decreases k,
{
    if k == 0 {
        255
    } else {
        let m = block_low(img, bx, by, c, (k - 1) as nat);
        let v = channel(block_texel(img, bx, by, k - 1), c);
        if v < m { v } else { m }
    }
}

/// The highest value of channel `c` over the first `k` texels of a block.
pub open spec fn block_high(img: RgbaImage, bx: int, by: int, c: int, k: nat) -> int
    decreases k,
{
    if k == 0 {
        0
    } else {
        let m = block_high(img, bx, by, c, (k - 1) as nat);
        let v = channel(block_texel(img, bx, by, k - 1), c);
        if v > m { v } else { m }
    }
}

/// Colour A of a packet for the colour `(r, g, b, a)` with its opaque flag
/// as the top bit: RGB 5:5:4 when the alpha's top three bits are all set,
/// otherwise ARGB 3:4:4:3.
pub open spec fn field_a(r: int, g: int, b: int, a: int) -> int {
    if a / 32 == 7 {
        0x4000 + (r / 8) * 512 + (g / 8) * 16 + b / 16
    } else {
        (a / 32) * 2048 + (r / 16) * 128 + (g / 16) * 8 + b / 32
    }
}

/// Colour B of a packet with its opaque flag as the top bit: RGB 5:5:5 or
/// ARGB 3:4:4:4.
pub open spec fn field_b(r: int, g: int, b: int, a: int) -> int {
    if a / 32 == 7 {
        0x8000 + (r / 8) * 1024 + (g / 8) * 32 + b / 8
    } else {
        (a / 32) * 4096 + (r / 16) * 256 + (g / 16) * 16 + b / 16
    }
}

/// The packet of block `(bx, by)` before modulation: colour A from the
/// block's lowest channels, colour B from its highest, no punch-through.
pub open spec fn base_word(img: RgbaImage, bx: int, by: int) -> int {
    field_a(block_low(img, bx, by, 0, 16), block_low(img, bx, by, 1, 16), block_low(img, bx, by, 2, 16),
        block_low(img, bx, by, 3, 16)) * 0x2_0000_0000
        + field_b(block_high(img, bx, by, 0, 16), block_high(img, bx, by, 1, 16), block_high(img, bx, by, 2, 16),
        block_high(img, bx, by, 3, 16)) * 0x1_0000_0000_0000
}

/// Channel `c` of colour A (`b == false`) or B interpolated around texel
/// position `k` of block `(x, y)` from the packets before modulation (as
/// `interp` does over packet words).
pub open spec fn base_interp(img: RgbaImage, blocks: int, x: int, y: int, k: int, b: bool, c: int) -> int {
    let py = k / 4;
    let px = k % 4;
    let y0 = if py < 2 { (y + blocks - 1) % blocks } else { y };
    let y1 = (y0 + 1) % blocks;
    let x0 = if px < 2 { (x + blocks - 1) % blocks } else { x };
    let x1 = (x0 + 1) % blocks;
    chan(packet_color(base_word(img, x0, y0) as u64, b), c) * bilinear(k, 0)
        + chan(packet_color(base_word(img, x1, y0) as u64, b), c) * bilinear(k, 1)
        + chan(packet_color(base_word(img, x0, y1) as u64, b), c) * bilinear(k, 2)
        + chan(packet_color(base_word(img, x1, y1) as u64, b), c) * bilinear(k, 3)
}

/// Channel `c` of the difference from interpolated colour A to B.
pub open spec fn mod_span(img: RgbaImage, blocks: int, x: int, y: int, k: int, c: int) -> int {
    base_interp(img, blocks, x, y, k, true, c) - base_interp(img, blocks, x, y, k, false, c)
}

/// Channel `c` of the texel (at the same scale) less interpolated colour A.
pub open spec fn mod_offset(img: RgbaImage, blocks: int, x: int, y: int, k: int, c: int) -> int {
    16 * channel(block_texel(img, x, y, k), c) - base_interp(img, blocks, x, y, k, false, c)
}

/// The modulation of texel position `k` of block `(x, y)`: how many of the
/// thresholds 3/16, 8/16 and 13/16 of the way from colour A to colour B
/// the texel's projection onto that line passes.
pub open spec fn mod_value(img: RgbaImage, blocks: int, x: int, y: int, k: int) -> int {
    let proj = 16 * (mod_offset(img, blocks, x, y, k, 0) * mod_span(img, blocks, x, y, k, 0)
        + mod_offset(img, blocks, x, y, k, 1) * mod_span(img, blocks, x, y, k, 1)
        + mod_offset(img, blocks, x, y, k, 2) * mod_span(img, blocks, x, y, k, 2)
        + mod_offset(img, blocks, x, y, k, 3) * mod_span(img, blocks, x, y, k, 3));
    let len = mod_span(img, blocks, x, y, k, 0) * mod_span(img, blocks, x, y, k, 0)
        + mod_span(img, blocks, x, y, k, 1) * mod_span(img, blocks, x, y, k, 1)
        + mod_span(img, blocks, x, y, k, 2) * mod_span(img, blocks, x, y, k, 2)
        + mod_span(img, blocks, x, y, k, 3) * mod_span(img, blocks, x, y, k, 3);
    (if proj > 3 * len { 1int } else { 0 }) + (if proj > 8 * len { 1int } else { 0 })
        + (if proj > 13 * len { 1int } else { 0 })
}

/// The modulation bits of the first `k` texel positions, two per texel,
/// texel 0 lowest.
pub open spec fn mod_bits(img: RgbaImage, blocks: int, x: int, y: int, k: nat) -> int
    decreases k,
{
    if k == 0 {
        0
    } else {
        mod_bits(img, blocks, x, y, (k - 1) as nat)
            + mod_value(img, blocks, x, y, k - 1) * crate::pvrtc::pow4((k - 1) as nat)
    }
}

/// The packet word the encoder writes for block `(x, y)`.
pub open spec fn encoded_word(img: RgbaImage, blocks: int, x: int, y: int) -> int {
    base_word(img, x, y) + mod_bits(img, blocks, x, y, 16)
}

// ─── Morton order is one to one ─────────────────────────────────────────────

pub proof fn lemma_morton_injective(x1: nat, y1: nat, x2: nat, y2: nat)
    requires
        morton(x1, y1) == morton(x2, y2),
    ensures
        x1 == x2 && y1 == y2,
    decreases x1 + y1,
{
    lemma_morton_unfold(x1, y1);
    lemma_morton_unfold(x2, y2);
    let m = morton(x1, y1);
    let a1 = (y1 % 2) + 2 * (x1 % 2);
    let a2 = (y2 % 2) + 2 * (x2 % 2);
    let r1 = morton(x1 / 2, y1 / 2);
    let r2 = morton(x2 / 2, y2 / 2);
    assert(a1 == a2 && r1 == r2) by (nonlinear_arith)
        requires m == a1 + 4 * r1, m == a2 + 4 * r2, 0 <= a1 < 4, 0 <= a2 < 4, r1 >= 0, r2 >= 0;
    if x1 + y1 > 0 {
        lemma_morton_injective(x1 / 2, y1 / 2, x2 / 2, y2 / 2);
    } else {
        assert(morton(0, 0) == 0);
        lemma_morton_zero(x2, y2);
    }
}

proof fn lemma_morton_zero(x: nat, y: nat)
    requires
        morton(x, y) == 0,
    ensures
        x == 0 && y == 0,
    decreases x + y,
{
    if x + y > 0 {
        lemma_morton_unfold(x, y);
        let r = morton(x / 2, y / 2);
        assert((y % 2) + 2 * (x % 2) == 0 && r == 0) by (nonlinear_arith)
            requires 0 == (y % 2) + 2 * (x % 2) + 4 * r, r >= 0, 0 <= x % 2, 0 <= y % 2;
        lemma_morton_zero(x / 2, y / 2);
    }
}

// ─── Texels and bounds ──────────────────────────────────────────────────────

fn texel_at(img: &RgbaImage, bx: u32, by: u32, k: usize) -> (p: Rgba32)
    requires
        img.wf(),
        bx < 0x2000,
        by < 0x2000,
        k < 16,
    ensures
        p == block_texel(*img, bx as int, by as int, k as int),
{
    let x: u32 = 4 * bx + (k % 4) as u32;
    let y: u32 = 4 * by + (k / 4) as u32;
    if x < img.width && y < img.height {
        let _n = img.data.len();
        proof {
            assert(y * img.width + x < img.width * img.height) by (nonlinear_arith)
                requires x < img.width, y < img.height;
            assert(y * img.width <= y * img.width + x);
            assert(_n == 4 * img.width * img.height);
            assert(img.width * img.height <= 4 * img.width * img.height) by (nonlinear_arith);
            assert(img.width * img.height <= usize::MAX);
        }
        let i: usize = (y as usize) * (img.width as usize) + x as usize;
        img.get(i)
    } else {
        Rgba32::zero()
    }
}

fn channel_exec(p: Rgba32, c: usize) -> (v: u8)
    requires
        c < 4,
    ensures
        v == channel(p, c as int),
{
    if c == 0 { p.r } else if c == 1 { p.g } else if c == 2 { p.b } else { p.a }
}

/// The lowest and highest value of channel `c` over a block's texels.
fn block_extremes(img: &RgbaImage, bx: u32, by: u32, c: usize) -> (r: (u8, u8))
    requires
        img.wf(),
        bx < 0x2000,
        by < 0x2000,
        c < 4,
    ensures
        r.0 == block_low(*img, bx as int, by as int, c as int, 16),
        r.1 == block_high(*img, bx as int, by as int, c as int, 16),
{
    let mut lo: u8 = 255;
    let mut hi: u8 = 0;
    let mut k: usize = 0;
    while k < 16
        invariant
            k <= 16,
            img.wf(),
            bx < 0x2000,
            by < 0x2000,
            c < 4,
            lo == block_low(*img, bx as int, by as int, c as int, k as nat),
            hi == block_high(*img, bx as int, by as int, c as int, k as nat),
        decreases 16 - k,
    {
        let v = channel_exec(texel_at(img, bx, by, k), c);
        if v < lo {
            lo = v;
        }
        if v > hi {
            hi = v;
        }
        k = k + 1;
    }
    (lo, hi)
}

/// Computes `base_word`.
fn base_word_exec(img: &RgbaImage, bx: u32, by: u32) -> (w: u64)
    requires
        img.wf(),
        bx < 0x2000,
        by < 0x2000,
    ensures
        w == base_word(*img, bx as int, by as int),
        w % 0x2_0000_0000 == 0,
        w <= 0xFFFF_FFFE_0000_0000u64,
{
    let (r0, r1) = block_extremes(img, bx, by, 0);
    let (g0, g1) = block_extremes(img, bx, by, 1);
    let (b0, b1) = block_extremes(img, bx, by, 2);
    let (a0, a1) = block_extremes(img, bx, by, 3);
    let fa: u64 = if a0 / 32 == 7 {
        0x4000 + (r0 / 8) as u64 * 512 + (g0 / 8) as u64 * 16 + (b0 / 16) as u64
    } else {
        (a0 / 32) as u64 * 2048 + (r0 / 16) as u64 * 128 + (g0 / 16) as u64 * 8 + (b0 / 32) as u64
    };
    let fb: u64 = if a1 / 32 == 7 {
        0x8000 + (r1 / 8) as u64 * 1024 + (g1 / 8) as u64 * 32 + (b1 / 8) as u64
    } else {
        (a1 / 32) as u64 * 4096 + (r1 / 16) as u64 * 256 + (g1 / 16) as u64 * 16 + (b1 / 16) as u64
    };
    assert(fa < 0x8000 && fb < 0x1_0000);
    assert(fa * 0x2_0000_0000 + fb * 0x1_0000_0000_0000 < 0x1_0000_0000_0000_0000) by (nonlinear_arith)
        requires fa < 0x8000, fb < 0x1_0000;
    assert(fa * 0x2_0000_0000 + fb * 0x1_0000_0000_0000 <= 0xFFFF_FFFE_0000_0000u64) by (nonlinear_arith)
        requires fa < 0x8000, fb < 0x1_0000;
    let w = fa * 0x2_0000_0000 + fb * 0x1_0000_0000_0000;
    assert(w % 0x2_0000_0000 == 0) by (nonlinear_arith)
        requires w == fa * 0x2_0000_0000 + fb * 0x1_0000_0000_0000, fa >= 0, fb >= 0;
    w
}

// ─── Packets ────────────────────────────────────────────────────────────────

/// The words of a grid of `blocks` by `blocks` packets hold, at each
/// block's Morton index, that block's packet before modulation.
pub open spec fn holds_base(words: Seq<u64>, img: RgbaImage, blocks: int) -> bool {
    &&& words.len() == blocks * blocks
    &&& forall|x: int, y: int| 0 <= x < blocks && 0 <= y < blocks
        ==> #[trigger] words[morton(x as nat, y as nat) as int] == base_word(img, x, y) as u64
}

/// The packets before modulation, in Morton order.
fn base_words(img: &RgbaImage, blocks: u32) -> (w: Vec<u64>)
    requires
        img.wf(),
        1 <= blocks <= 0x2000,
        is_pow2(blocks as nat),
    ensures
        holds_base(w@, *img, blocks as int),
{
    proof {
        assert(blocks * blocks <= 0x400_0000) by (nonlinear_arith) requires blocks <= 0x2000;
    }
    let n: usize = (blocks as usize) * (blocks as usize);
    let mut w: Vec<u64> = Vec::new();
    let mut j: usize = 0;
    while j < n
        invariant
            j <= n,
            w@.len() == j,
        decreases n - j,
    {
        w.push(0);
        j = j + 1;
    }
    let mut y: u32 = 0;
    while y < blocks
        invariant
            y <= blocks,
            1 <= blocks <= 0x2000,
            is_pow2(blocks as nat),
            img.wf(),
            n == blocks * blocks,
            w@.len() == n,
            forall|xx: int, yy: int| 0 <= xx < blocks && 0 <= yy < y
                ==> #[trigger] w@[morton(xx as nat, yy as nat) as int] == base_word(*img, xx, yy) as u64,
        decreases blocks - y,
    {
        let mut x: u32 = 0;
        while x < blocks
            invariant
                x <= blocks,
                y < blocks,
                1 <= blocks <= 0x2000,
                is_pow2(blocks as nat),
                img.wf(),
                n == blocks * blocks,
                w@.len() == n,
                forall|xx: int, yy: int| 0 <= xx < blocks && 0 <= yy < blocks && (yy < y || (yy == y && xx < x))
                    ==> #[trigger] w@[morton(xx as nat, yy as nat) as int] == base_word(*img, xx, yy) as u64,
            decreases blocks - x,
        {
            proof {
                lemma_morton_bound(x as nat, y as nat, blocks as nat);
            }
            let m = morton_exec(x, y) as usize;
            let bw = base_word_exec(img, x, y);
            let ghost before = w@;
            w.set(m, bw);
            proof {
                assert forall|xx: int, yy: int| 0 <= xx < blocks && 0 <= yy < blocks && (yy < y || (yy == y && xx < x + 1))
                    implies #[trigger] w@[morton(xx as nat, yy as nat) as int] == base_word(*img, xx, yy) as u64 by {
                    lemma_morton_bound(xx as nat, yy as nat, blocks as nat);
                    if !(xx == x && yy == y) {
                        if morton(xx as nat, yy as nat) == morton(x as nat, y as nat) {
                            lemma_morton_injective(xx as nat, yy as nat, x as nat, y as nat);
                        }
                        assert(before[morton(xx as nat, yy as nat) as int] == base_word(*img, xx, yy) as u64);
                    }
                }
            }
            x = x + 1;
        }
        y = y + 1;
    }
    w
}

// ─── Modulation ─────────────────────────────────────────────────────────────

/// Over the packets before modulation, `interp` is `base_interp`.
proof fn lemma_interp_base(img: RgbaImage, words: Seq<u64>, blocks: int, x: int, y: int, k: int)
    requires
        holds_base(words, img, blocks),
        1 <= blocks,
        0 <= x < blocks,
        0 <= y < blocks,
    ensures
        forall|b: bool, c: int| #[trigger] interp(words, blocks, x, y, k, b, c) == base_interp(img, blocks, x, y, k, b, c),
{
    let py = k / 4;
    let px = k % 4;
    let y0 = if py < 2 { (y + blocks - 1) % blocks } else { y };
    let y1 = (y0 + 1) % blocks;
    let x0 = if px < 2 { (x + blocks - 1) % blocks } else { x };
    let x1 = (x0 + 1) % blocks;
    assert(packet_at(words, x0, y0) == base_word(img, x0, y0) as u64);
    assert(packet_at(words, x1, y0) == base_word(img, x1, y0) as u64);
    assert(packet_at(words, x0, y1) == base_word(img, x0, y1) as u64);
    assert(packet_at(words, x1, y1) == base_word(img, x1, y1) as u64);
}

proof fn lemma_prod_bound(a: int, b: int)
    by (nonlinear_arith)
    requires
        -4080 <= a <= 4080,
        -4080 <= b <= 4080,
    ensures
        -16646400 <= a * b <= 16646400,
{
}

/// The modulation bits of block `(bx, by)`.
fn block_mod(img: &RgbaImage, words: &[u64], blocks: u32, bx: u32, by: u32) -> (m: u64)
    requires
        img.wf(),
        1 <= blocks <= 0x2000,
        is_pow2(blocks as nat),
        bx < blocks,
        by < blocks,
        holds_base(words@, *img, blocks as int),
    ensures
        m == mod_bits(*img, blocks as int, bx as int, by as int, 16),
        m < 0x1_0000_0000,
{
    let mut acc: u64 = 0;
    let mut p4: u64 = 1;
    let mut k: usize = 0;
    while k < 16
        invariant
            k <= 16,
            img.wf(),
            1 <= blocks <= 0x2000,
            is_pow2(blocks as nat),
            bx < blocks,
            by < blocks,
            holds_base(words@, *img, blocks as int),
            p4 == crate::pvrtc::pow4(k as nat),
            acc == mod_bits(*img, blocks as int, bx as int, by as int, k as nat),
            acc < p4,
        decreases 16 - k,
    {
        proof {
            lemma_interp_base(*img, words@, blocks as int, bx as int, by as int, k as int);
            crate::pvrtc::lemma_pow4_bound(k as nat);
            crate::pvrtc::lemma_pow4_step(k as nat);
        }
        let ca = crate::pvrtc::interp_exec(words, blocks, bx, by, k, false);
        let cb = crate::pvrtc::interp_exec(words, blocks, bx, by, k, true);
        let p = texel_at(img, bx, by, k);
        let d0: i64 = cb.0 - ca.0;
        let d1: i64 = cb.1 - ca.1;
        let d2: i64 = cb.2 - ca.2;
        let d3: i64 = cb.3 - ca.3;
        let v0: i64 = 16 * (p.r as i64) - ca.0;
        let v1: i64 = 16 * (p.g as i64) - ca.1;
        let v2: i64 = 16 * (p.b as i64) - ca.2;
        let v3: i64 = 16 * (p.a as i64) - ca.3;
        proof {
            lemma_prod_bound(v0 as int, d0 as int);
            lemma_prod_bound(v1 as int, d1 as int);
            lemma_prod_bound(v2 as int, d2 as int);
            lemma_prod_bound(v3 as int, d3 as int);
            lemma_prod_bound(d0 as int, d0 as int);
            lemma_prod_bound(d1 as int, d1 as int);
            lemma_prod_bound(d2 as int, d2 as int);
            lemma_prod_bound(d3 as int, d3 as int);
            assert(d0 == mod_span(*img, blocks as int, bx as int, by as int, k as int, 0));
            assert(d1 == mod_span(*img, blocks as int, bx as int, by as int, k as int, 1));
            assert(d2 == mod_span(*img, blocks as int, bx as int, by as int, k as int, 2));
            assert(d3 == mod_span(*img, blocks as int, bx as int, by as int, k as int, 3));
            assert(v0 == mod_offset(*img, blocks as int, bx as int, by as int, k as int, 0));
            assert(v1 == mod_offset(*img, blocks as int, bx as int, by as int, k as int, 1));
            assert(v2 == mod_offset(*img, blocks as int, bx as int, by as int, k as int, 2));
            assert(v3 == mod_offset(*img, blocks as int, bx as int, by as int, k as int, 3));
        }
        let proj: i64 = 16 * (v0 * d0 + v1 * d1 + v2 * d2 + v3 * d3);
        let len: i64 = d0 * d0 + d1 * d1 + d2 * d2 + d3 * d3;
        let mv: u64 = (if proj > 3 * len { 1u64 } else { 0 }) + (if proj > 8 * len { 1u64 } else { 0 })
            + (if proj > 13 * len { 1u64 } else { 0 });
        assert(mv == mod_value(*img, blocks as int, bx as int, by as int, k as int));
        proof {
            assert(acc + mv * p4 < 4 * p4) by (nonlinear_arith)
                requires acc < p4, mv <= 3;
        }
        acc = acc + mv * p4;
        p4 = p4 * 4;
        k = k + 1;
    }
    proof {
        reveal_with_fuel(crate::pvrtc::pow4, 17);
    }
    acc
}

// ─── The texture ────────────────────────────────────────────────────────────

/// Encodes `img`, held in the top left corner of a square texture of
/// `blocks` by `blocks` blocks, as PVRTC 4bpp packet words (little-endian,
/// in Morton order).
pub(crate) fn encode_4bpp(img: &RgbaImage, blocks: u32) -> (out: Vec<u8>)
    requires
        img.wf(),
        1 <= blocks <= 0x2000,
        is_pow2(blocks as nat),
    ensures
        out@.len() == 8 * blocks * blocks,
        forall|x: int, y: int| 0 <= x < blocks && 0 <= y < blocks
            ==> #[trigger] le64(out@, 8 * (morton(x as nat, y as nat) as int)) == encoded_word(*img, blocks as int, x, y),
{
    let base = base_words(img, blocks);
    proof {
        assert(blocks * blocks <= 0x400_0000) by (nonlinear_arith) requires blocks <= 0x2000;
    }
    let n: usize = (blocks as usize) * (blocks as usize);
    let mut fin: Vec<u64> = Vec::new();
    let mut j: usize = 0;
    while j < n
        invariant
            j <= n,
            fin@.len() == j,
        decreases n - j,
    {
        fin.push(0);
        j = j + 1;
    }
    let mut y: u32 = 0;
    while y < blocks
        invariant
            y <= blocks,
            1 <= blocks <= 0x2000,
            is_pow2(blocks as nat),
            img.wf(),
            n == blocks * blocks,
            holds_base(base@, *img, blocks as int),
            fin@.len() == n,
            forall|xx: int, yy: int| 0 <= xx < blocks && 0 <= yy < y
                ==> #[trigger] fin@[morton(xx as nat, yy as nat) as int] == encoded_word(*img, blocks as int, xx, yy),
        decreases blocks - y,
    {
        let mut x: u32 = 0;
        while x < blocks
            invariant
                x <= blocks,
                y < blocks,
                1 <= blocks <= 0x2000,
                is_pow2(blocks as nat),
                img.wf(),
                n == blocks * blocks,
                holds_base(base@, *img, blocks as int),
                fin@.len() == n,
                forall|xx: int, yy: int| 0 <= xx < blocks && 0 <= yy < blocks && (yy < y || (yy == y && xx < x))
                    ==> #[trigger] fin@[morton(xx as nat, yy as nat) as int] == encoded_word(*img, blocks as int, xx, yy),
            decreases blocks - x,
        {
            proof {
                lemma_morton_bound(x as nat, y as nat, blocks as nat);
            }
            let m = morton_exec(x, y) as usize;
            let bw = base_word_exec(img, x, y);
            let md = block_mod(img, base.as_slice(), blocks, x, y);
            let ghost before = fin@;
            fin.set(m, bw + md);
            proof {
                assert forall|xx: int, yy: int| 0 <= xx < blocks && 0 <= yy < blocks && (yy < y || (yy == y && xx < x + 1))
                    implies #[trigger] fin@[morton(xx as nat, yy as nat) as int] == encoded_word(*img, blocks as int, xx, yy) by {
                    lemma_morton_bound(xx as nat, yy as nat, blocks as nat);
                    if !(xx == x && yy == y) {
                        if morton(xx as nat, yy as nat) == morton(x as nat, y as nat) {
                            lemma_morton_injective(xx as nat, yy as nat, x as nat, y as nat);
                        }
                        assert(before[morton(xx as nat, yy as nat) as int] == encoded_word(*img, blocks as int, xx, yy));
                    }
                }
            }
            x = x + 1;
        }
        y = y + 1;
    }
    let mut out: Vec<u8> = Vec::new();
    let mut j: usize = 0;
    while j < n
        invariant
            j <= n,
            fin@.len() == n,
            n == blocks * blocks,
            n <= 0x400_0000,
            out@.len() == 8 * j,
            forall|i: int| 0 <= i < j ==> #[trigger] le64(out@, 8 * i) == fin@[i] as int,
        decreases n - j,
    {
        let w = fin[j];
        let lo: u32 = (w % 0x1_0000_0000) as u32;
        let hi: u32 = (w / 0x1_0000_0000) as u32;
        let ghost before = out@;
        push_le32(&mut out, lo);
        push_le32(&mut out, hi);
        proof {
            lemma_le32_roundtrip(lo as int);
            lemma_le32_roundtrip(hi as int);
            assert(out@ == before + le32_bytes(lo as int) + le32_bytes(hi as int));
            assert(le32(out@, 8 * j) == le32(le32_bytes(lo as int), 0));
            assert(le32(out@, 8 * j + 4) == le32(le32_bytes(hi as int), 0));
            assert forall|i: int| 0 <= i < j + 1 implies #[trigger] le64(out@, 8 * i) == fin@[i] as int by {
                if i < j {
                    assert(le64(out@, 8 * i) == le64(before, 8 * i));
                }
            }
        }
        j = j + 1;
    }
    proof {
        assert(8 * (blocks * blocks) == 8 * blocks * blocks) by (nonlinear_arith);
        assert forall|x: int, y: int| 0 <= x < blocks && 0 <= y < blocks
            implies #[trigger] le64(out@, 8 * (morton(x as nat, y as nat) as int)) == encoded_word(*img, blocks as int, x, y) by {
            lemma_morton_bound(x as nat, y as nat, blocks as nat);
            assert(le64(out@, 8 * (morton(x as nat, y as nat) as int)) == fin@[morton(x as nat, y as nat) as int] as int);
        }
    }
    out
}

} // verus!
