//! Pixel loops behind `PtxDecoder::decode`, one per family of layouts.
use vstd::prelude::*;
use crate::bytes::{le16, be64, read_le16, read_le64, read_be64};
use crate::color::Rgba32;
use crate::etc1::{decode_etc1, decode_palette_alpha, etc1_texel, palette_alpha, palette_alpha_ok};
use crate::image::{RgbaImage, pixel_of};
use crate::ptx::{
    PtxFormat, RsbError, etc1_image_texel, etc1_pixel, etc1_region, etc1a8_mode, image_has,
    insufficient_at_least_msg, is_etc1_format, pvrtc_pixel,
    insufficient_msg, pow2_ceil, pvrtc_bytes, pvrtc_side, pvrtc_words, px16, px8888, tile_offset,
    tiles_cover, with_alpha,
};
use crate::pvrtc::{decode_4bpp, is_pow2, lemma_pow2_half, pvrtc_texel, pow2_32};
use crate::text::push_decimal;

verus! {

// ─── Messages ───────────────────────────────────────────────────────────────

fn append_msg(msg: &mut String, s: &str)
    ensures
        final(msg)@ == old(msg)@ + s@,
{
    msg.append(s);
}

pub(crate) fn insufficient(label: &str, expected: u64, got: u64) -> (e: RsbError)
    ensures
        e matches RsbError::DeserializationError(m) && m@ == insufficient_msg(label@, expected as int, got as int),
{
    let mut m = String::from_str("Insufficient data for ");
    append_msg(&mut m, label);
    append_msg(&mut m, ": expected ");
    push_decimal(&mut m, expected);
    append_msg(&mut m, ", got ");
    push_decimal(&mut m, got);
    RsbError::DeserializationError(m)
}

pub(crate) fn insufficient_at_least(label: &str, expected: u64, got: u64) -> (e: RsbError)
    ensures
        e matches RsbError::DeserializationError(m) && m@ == insufficient_at_least_msg(label@, expected as int, got as int),
{
    let mut m = String::from_str("Insufficient data for ");
    append_msg(&mut m, label);
    append_msg(&mut m, ": expected at least ");
    push_decimal(&mut m, expected);
    append_msg(&mut m, ", got ");
    push_decimal(&mut m, got);
    RsbError::DeserializationError(m)
}

// ─── Row-major indexing ─────────────────────────────────────────────────────

/// Pixel `i` of a row-major image `width` pixels wide is `(i % width, i / width)`.
pub(crate) proof fn lemma_row_major(i: int, width: int, height: int)
    requires
        width > 0,
        0 <= i < width * height,
    ensures
        0 <= i % width < width,
        0 <= i / width < height,
        (i / width) * width + i % width == i,
{
    vstd::arithmetic::div_mod::lemma_fundamental_div_mod(i, width);
    vstd::arithmetic::div_mod::lemma_div_pos_is_pos(i, width);
    vstd::arithmetic::div_mod::lemma_mod_pos_bound(i, width);
    let q = i / width;
    let r = i % width;
    assert(q * width + r == i) by (nonlinear_arith)
        requires i == width * q + r;
    assert(q < height) by (nonlinear_arith)
        requires q * width + r == i, r >= 0, i < width * height, width > 0;
}

pub(crate) proof fn lemma_row_major_inverse(x: int, y: int, width: int)
    requires
        width > 0,
        0 <= x < width,
        0 <= y,
    ensures
        (y * width + x) % width == x,
        (y * width + x) / width == y,
{
    vstd::arithmetic::div_mod::lemma_fundamental_div_mod_converse(y * width + x, width, y, x);
}

/// A statement about pixel `i` at `(i % w, i / w)` is one about every `(x, y)`.
pub(crate) proof fn lemma_index_to_xy(s: Seq<Rgba32>, w: int, h: int, f: spec_fn(int, int) -> Rgba32)
    requires
        w >= 0,
        h >= 0,
        forall|i: int| 0 <= i < w * h ==> #[trigger] s[i] == f(i % w, i / w),
    ensures
        forall|x: int, y: int| 0 <= x < w && 0 <= y < h ==> #[trigger] s[y * w + x] == f(x, y),
{
    assert forall|x: int, y: int| 0 <= x < w && 0 <= y < h implies #[trigger] s[y * w + x] == f(x, y) by {
        lemma_row_major_inverse(x, y, w);
        assert(0 <= y * w + x < w * h) by (nonlinear_arith)
            requires 0 <= x < w, 0 <= y < h;
    }
}

/// A statement about pixel `i` is one about pixel `y * w + x`.
pub(crate) proof fn lemma_xy_of_index(s: Seq<Rgba32>, w: int, h: int, g: spec_fn(int) -> Rgba32)
    requires
        forall|i: int| 0 <= i < w * h ==> #[trigger] s[i] == g(i),
    ensures
        forall|x: int, y: int| 0 <= x < w && 0 <= y < h ==> #[trigger] s[y * w + x] == g(y * w + x),
{
    assert forall|x: int, y: int| 0 <= x < w && 0 <= y < h implies #[trigger] s[y * w + x] == g(y * w + x) by {
        assert(0 <= y * w + x < w * h) by (nonlinear_arith)
            requires 0 <= x < w, 0 <= y < h;
    }
}

pub(crate) proof fn lemma_sizes(width: u32, height: u32, n: usize)
    requires
        n == width * height,
        4 * width * height <= usize::MAX,
    ensures
        4 * n == 4 * width * height,
        2 * n == 2 * width * height,
        4 * n <= usize::MAX,
{
    assert(4 * width * height == 4 * (width * height)) by (nonlinear_arith);
    assert(2 * width * height == 2 * (width * height)) by (nonlinear_arith);
}

pub(crate) fn push_pixel(out: &mut Vec<u8>, c: Rgba32)
    ensures
        final(out)@ == old(out)@ + seq![c.r, c.g, c.b, c.a],
{
    out.push(c.r);
    out.push(c.g);
    out.push(c.b);
    out.push(c.a);
    assert(final(out)@ =~= old(out)@ + seq![c.r, c.g, c.b, c.a]);
}

pub(crate) proof fn lemma_push_pixel(before: Seq<u8>, after: Seq<u8>, c: Rgba32, n: int)
    requires
        before.len() == 4 * n,
        after == before + seq![c.r, c.g, c.b, c.a],
    ensures
        after.len() == 4 * (n + 1),
        pixel_of(after, n) == c,
        forall|j: int| 0 <= j < n ==> #[trigger] pixel_of(after, j) == pixel_of(before, j),
{
}

// ─── Uncompressed layouts ───────────────────────────────────────────────────

fn px16_exec(kind: u8, v: u16) -> (c: Rgba32)
    ensures
        c == px16(kind as int, v as int),
{
    if kind == 0 {
        let r5 = v / 2048;
        let g6 = (v / 32) % 64;
        let b5 = v % 32;
        Rgba32::new((r5 * 8 + r5 / 4) as u8, (g6 * 4 + g6 / 16) as u8, (b5 * 8 + b5 / 4) as u8, 255)
    } else if kind == 1 {
        let r4 = v / 4096;
        let g4 = (v / 256) % 16;
        let b4 = (v / 16) % 16;
        let a4 = v % 16;
        Rgba32::new((r4 * 17) as u8, (g4 * 17) as u8, (b4 * 17) as u8, (a4 * 17) as u8)
    } else {
        let r5 = v / 2048;
        let g5 = (v / 64) % 32;
        let b5 = (v / 2) % 32;
        let a: u8 = if v % 2 == 1 { 255 } else { 0 };
        Rgba32::new((r5 * 8 + r5 / 4) as u8, (g5 * 8 + g5 / 4) as u8, (b5 * 8 + b5 / 4) as u8, a)
    }
}

pub(crate) fn decode_rgba8888(data: &[u8], width: u32, height: u32, is_powervr: bool) -> (img: RgbaImage)
    requires
        width * height <= u32::MAX,
        4 * width * height <= usize::MAX,
        data@.len() >= 4 * width * height,
    ensures
        image_has(img, width, height),
        forall|i: int| 0 <= i < width * height ==> #[trigger] img.pixels()[i] == px8888(data@, i, is_powervr),
{
    let n: usize = (width as usize) * (height as usize);
    proof {
        lemma_sizes(width, height, n);
    }
    let mut out: Vec<u8> = Vec::new();
    let mut i: usize = 0;
    while i < n
        invariant
            0 <= i <= n,
            n == width * height,
            4 * n == 4 * width * height,
            4 * n <= usize::MAX,
            data@.len() >= 4 * n,
            out@.len() == 4 * i,
            forall|j: int| 0 <= j < i ==> #[trigger] pixel_of(out@, j) == px8888(data@, j, is_powervr),
        decreases n - i,
    {
        let offset = i * 4;
        let c = if is_powervr {
            Rgba32::new(data[offset + 2], data[offset + 1], data[offset], data[offset + 3])
        } else {
            Rgba32::new(data[offset], data[offset + 1], data[offset + 2], data[offset + 3])
        };
        let ghost before = out@;
        push_pixel(&mut out, c);
        proof {
            lemma_push_pixel(before, out@, c, i as int);
        }
        i = i + 1;
    }
    RgbaImage { width, height, data: out }
}

pub(crate) fn decode_linear16(data: &[u8], width: u32, height: u32, kind: u8) -> (img: RgbaImage)
    requires
        width * height <= u32::MAX,
        4 * width * height <= usize::MAX,
        data@.len() >= 2 * width * height,
    ensures
        image_has(img, width, height),
        forall|i: int| 0 <= i < width * height ==> #[trigger] img.pixels()[i] == px16(kind as int, le16(data@, 2 * i)),
{
    let n: usize = (width as usize) * (height as usize);
    proof {
        lemma_sizes(width, height, n);
    }
    let mut out: Vec<u8> = Vec::new();
    let mut i: usize = 0;
    while i < n
        invariant
            0 <= i <= n,
            n == width * height,
            4 * n == 4 * width * height,
            4 * n <= usize::MAX,
            data@.len() >= 2 * n,
            out@.len() == 4 * i,
            forall|j: int| 0 <= j < i ==> #[trigger] pixel_of(out@, j) == px16(kind as int, le16(data@, 2 * j)),
        decreases n - i,
    {
        let v = read_le16(data, i * 2);
        let c = px16_exec(kind, v);
        let ghost before = out@;
        push_pixel(&mut out, c);
        proof {
            lemma_push_pixel(before, out@, c, i as int);
        }
        i = i + 1;
    }
    RgbaImage { width, height, data: out }
}

proof fn lemma_tile_offset_bound(width: int, height: int, x: int, y: int)
    requires
        0 <= x < width,
        0 <= y < height,
    ensures
        0 <= tile_offset(width, x, y) <= tile_offset(width, width - 1, height - 1),
{
    let tx = (width + 31) / 32;
    let bx = x / 32;
    let by = y / 32;
    let lbx = (width - 1) / 32;
    let lby = (height - 1) / 32;
    assert(bx <= lbx && by <= lby && lbx < tx);
    assert(0 <= y % 32 < 32 && 0 <= x % 32 < 32);
    assert(0 <= (height - 1) % 32 < 32 && 0 <= (width - 1) % 32 < 32);
    if by < lby {
        assert((by * tx + bx) * 1024 + (y % 32) * 32 + x % 32 < (lby * tx) * 1024) by (nonlinear_arith)
            requires by < lby, bx < tx, 0 <= (y % 32) * 32 + x % 32 < 1024, 0 <= by, 0 <= bx;
        assert(0 <= (by * tx + bx) * 1024) by (nonlinear_arith) requires 0 <= by, 0 <= bx, 0 <= tx;
        assert((lby * tx) * 1024 <= (lby * tx + lbx) * 1024 + ((height - 1) % 32) * 32 + (width - 1) % 32) by (nonlinear_arith)
            requires 0 <= lbx, 0 <= (height - 1) % 32, 0 <= (width - 1) % 32;
    } else {
        assert(by == lby);
        assert(y % 32 <= (height - 1) % 32);
        if bx < lbx {
            assert((by * tx + bx) * 1024 + (y % 32) * 32 + x % 32 < (by * tx + lbx) * 1024) by (nonlinear_arith)
                requires bx < lbx, 0 <= (y % 32) * 32 + x % 32 < 1024;
            assert(0 <= (by * tx + bx) * 1024) by (nonlinear_arith) requires 0 <= by, 0 <= bx, 0 <= tx;
        } else {
            assert(x % 32 <= (width - 1) % 32);
            assert(0 <= (by * tx + bx) * 1024) by (nonlinear_arith) requires 0 <= by, 0 <= bx, 0 <= tx;
        }
    }
}

pub(crate) fn decode_tiled16(data: &[u8], width: u32, height: u32, kind: u8) -> (img: RgbaImage)
    requires
        width * height <= u32::MAX,
        4 * width * height <= usize::MAX,
        width + 31 <= u32::MAX,
        tiles_cover(data@.len() as int, width as int, height as int),
    ensures
        image_has(img, width, height),
        forall|x: int, y: int| 0 <= x < width && 0 <= y < height
            ==> #[trigger] img.pixels()[y * width + x] == px16(kind as int, le16(data@, tile_offset(width as int, x, y))),
{
    let n: usize = (width as usize) * (height as usize);
    proof {
        lemma_sizes(width, height, n);
    }
    let mut out: Vec<u8> = Vec::new();
    let tiles_x: usize = ((width as usize) + 31) / 32;
    let mut i: usize = 0;
    while i < n
        invariant
            0 <= i <= n,
            n == width * height,
            4 * n == 4 * width * height,
            4 * n <= usize::MAX,
            tiles_x == (width + 31) / 32,
            tiles_cover(data@.len() as int, width as int, height as int),
            out@.len() == 4 * i,
            forall|j: int| 0 <= j < i ==> #[trigger] pixel_of(out@, j)
                == px16(kind as int, le16(data@, tile_offset(width as int, j % width as int, j / width as int))),
        decreases n - i,
    {
        proof {
            assert(width > 0) by (nonlinear_arith) requires i < n, n == width * height;
            lemma_row_major(i as int, width as int, height as int);
        }
        let x = i % (width as usize);
        let y = i / (width as usize);
        let _len = data.len();
        proof {
            lemma_tile_offset_bound(width as int, height as int, x as int, y as int);
            assert(0 <= (y / 32) * tiles_x) by (nonlinear_arith);
            assert(width * height != 0);
            assert(2 * (((y / 32) * tiles_x + x / 32) * 1024 + (y % 32) * 32 + x % 32) == tile_offset(width as int, x as int, y as int));
        }
        let offset: usize = 2 * (((y / 32) * tiles_x + x / 32) * 1024 + (y % 32) * 32 + x % 32);
        let v = read_le16(data, offset);
        let c = px16_exec(kind, v);
        let ghost before = out@;
        push_pixel(&mut out, c);
        proof {
            lemma_push_pixel(before, out@, c, i as int);
        }
        i = i + 1;
    }
    let img = RgbaImage { width, height, data: out };
    proof {
        lemma_index_to_xy(img.pixels(), width as int, height as int,
            |x: int, y: int| px16(kind as int, le16(data@, tile_offset(width as int, x, y))));
    }
    img
}

// ─── PVRTC ──────────────────────────────────────────────────────────────────

proof fn lemma_is_pow2_pow2_32(k: nat)
    ensures
        is_pow2(pow2_32(k) as nat),
        pow2_32(k) >= 1,
    decreases k,
{
    if k > 0 {
        lemma_is_pow2_pow2_32((k - 1) as nat);
        let n = pow2_32(k) as nat;
        assert(n == 2 * pow2_32((k - 1) as nat));
        assert(n % 2 == 0 && n / 2 == pow2_32((k - 1) as nat));
    }
}

/// The smallest power of two that is at least `v`.
fn next_pow2(v: u32) -> (p: u32)
    requires
        1 <= v <= 0x8000,
    ensures
        p == pow2_ceil(v as int, 1),
        is_pow2(p as nat),
        v <= p <= 0x8000,
{
    let mut p: u32 = 1;
    let ghost mut k: nat = 0;
    proof {
        reveal_with_fuel(pow2_32, 16);
        assert(pow2_32(15) == 0x8000);
        assert(pow2_32(0) == 1);
    }
    while p < v
        invariant
            1 <= v <= 0x8000,
            k <= 15,
            1 <= p,
            p == pow2_32(k),
            p * pow2_32((15 - k) as nat) == 0x8000,
            pow2_ceil(v as int, p as int) == pow2_ceil(v as int, 1),
        decreases 0x10000 - p,
    {
        proof {
            if k == 15 {
                assert(pow2_32(0) == 1);
                assert(false);
            }
            let q = pow2_32((14 - k) as nat);
            assert(pow2_32((15 - k) as nat) == 2 * q);
            assert((2 * p) * q == 0x8000) by (nonlinear_arith)
                requires p * (2 * q) == 0x8000;
            assert(pow2_32(k + 1) == 2 * pow2_32(k));
        }
        p = p * 2;
        proof {
            k = k + 1;
        }
    }
    proof {
        lemma_is_pow2_pow2_32(k);
        lemma_is_pow2_pow2_32((15 - k) as nat);
        assert(p <= 0x8000) by (nonlinear_arith)
            requires p * pow2_32((15 - k) as nat) == 0x8000, pow2_32((15 - k) as nat) >= 1, p >= 1;
    }
    p
}

/// Side of the square texture PVRTC data is decoded at.
pub(crate) fn pvrtc_side_exec(width: u32, height: u32) -> (s: u32)
    requires
        width <= 0x8000,
        height <= 0x8000,
    ensures
        s == pvrtc_side(width as int, height as int),
        is_pow2(s as nat),
        8 <= s <= 0x8000,
        width <= s,
        height <= s,
{
    let nw = if width < 8 { 8 } else { width };
    let nh = if height < 8 { 8 } else { height };
    let pw = next_pow2(nw);
    let ph = next_pow2(nh);
    if pw > ph { pw } else { ph }
}

/// `pvrtc_side` as a 64-bit value.
pub(crate) fn pvrtc_side_u64(width: u32, height: u32) -> (s: u64)
    requires
        width <= 0x8000,
        height <= 0x8000,
    ensures
        s == pvrtc_side(width as int, height as int),
        8 <= s <= 0x8000,
{
    pvrtc_side_exec(width, height) as u64
}

/// Decodes PVRTC 4bpp packets at the square power-of-two size and crops to
/// the image; with `plane`, applies the alpha bytes after the packets.
pub(crate) fn decode_pvrtc(data: &[u8], width: u32, height: u32, plane: bool) -> (img: RgbaImage)
    requires
        width <= 0x8000,
        height <= 0x8000,
        width * height <= u32::MAX,
        4 * width * height <= usize::MAX,
        data@.len() >= pvrtc_bytes(width as int, height as int),
    ensures
        image_has(img, width, height),
        forall|x: int, y: int| 0 <= x < width && 0 <= y < height
            ==> #[trigger] img.pixels()[y * width + x] == pvrtc_pixel(data@, width as int, height as int, plane, x, y),
{
    let side = pvrtc_side_exec(width, height);
    proof {
        lemma_pow2_half(side as nat);
        lemma_pow2_half((side / 2) as nat);
        assert(side % 4 == 0);
        assert((side / 2) / 2 == side / 4);
    }
    let blocks: usize = (side / 4) as usize;
    proof {
        assert(blocks * blocks <= 0x400_0000) by (nonlinear_arith) requires blocks <= 0x2000;
        assert(side * side / 16 == blocks * blocks) by (nonlinear_arith)
            requires side == 4 * blocks;
    }
    let count: usize = blocks * blocks;
    let bytes: usize = count * 8;
    assert(bytes == pvrtc_bytes(width as int, height as int));
    let mut words: Vec<u64> = Vec::new();
    let mut j: usize = 0;
    while j < count
        invariant
            j <= count,
            bytes == count * 8,
            bytes <= data@.len(),
            words@ == pvrtc_words(data@, j as int),
        decreases count - j,
    {
        let w = read_le64(data, 8 * j);
        words.push(w);
        j = j + 1;
        assert(words@ =~= pvrtc_words(data@, j as int));
    }
    let texels = decode_4bpp(words.as_slice(), side);
    assert(words@ == pvrtc_words(data@, pvrtc_bytes(width as int, height as int) / 8));
    let n: usize = (width as usize) * (height as usize);
    proof {
        lemma_sizes(width, height, n);
    }
    let with_plane = plane && data.len() - bytes >= n;
    let mut out: Vec<u8> = Vec::new();
    let mut i: usize = 0;
    while i < n
        invariant
            0 <= i <= n,
            n == width * height,
            4 * n == 4 * width * height,
            4 * n <= usize::MAX,
            8 <= side <= 0x8000,
            width <= side,
            height <= side,
            side == pvrtc_side(width as int, height as int),
            bytes == pvrtc_bytes(width as int, height as int),
            bytes <= data@.len(),
            with_plane == (plane && data@.len() >= bytes + width * height),
            words@ == pvrtc_words(data@, (bytes / 8) as int),
            texels@.len() == side * side,
            forall|tx: int, ty: int| 0 <= tx < side && 0 <= ty < side
                ==> #[trigger] texels@[ty * side + tx] == pvrtc_texel(words@, (side / 4) as int, tx, ty),
            out@.len() == 4 * i,
            forall|k: int| 0 <= k < i ==> #[trigger] pixel_of(out@, k)
                == pvrtc_pixel(data@, width as int, height as int, plane, k % width as int, k / width as int),
        decreases n - i,
    {
        proof {
            assert(width > 0) by (nonlinear_arith) requires i < n, n == width * height;
            lemma_row_major(i as int, width as int, height as int);
        }
        let x = i % (width as usize);
        let y = i / (width as usize);
        proof {
            assert(y * side + x < side * side) by (nonlinear_arith)
                requires x < side, y < side, 0 <= x, 0 <= y;
            assert(side * side <= 0x4000_0000) by (nonlinear_arith)
                requires side <= 0x8000;
            assert(y * width + x == i);
        }
        let t = texels[y * (side as usize) + x];
        let c = if with_plane {
            Rgba32::new(t.r, t.g, t.b, data[bytes + i])
        } else {
            t
        };
        let ghost before = out@;
        push_pixel(&mut out, c);
        proof {
            lemma_push_pixel(before, out@, c, i as int);
        }
        i = i + 1;
    }
    let img = RgbaImage { width, height, data: out };
    proof {
        lemma_index_to_xy(img.pixels(), width as int, height as int,
            |x: int, y: int| pvrtc_pixel(data@, width as int, height as int, plane, x, y));
    }
    img
}

// ─── ETC1 ───────────────────────────────────────────────────────────────────

/// The last ETC1 block decoded, kept for the texels that follow it.
struct BlockCache {
    valid: bool,
    index: usize,
    texels: [Rgba32; 16],
}

impl BlockCache {
    spec fn holds(&self, data: Seq<u8>, offset: int) -> bool {
        self.valid ==> forall|k: int| 0 <= k < 16
            ==> #[trigger] self.texels@[k] == etc1_texel(be64(data, offset + 8 * self.index) as u64, k)
    }

    fn empty() -> (c: BlockCache)
        ensures
            !c.valid,
            c.index == 0,
            forall|k: int| 0 <= k < 16 ==> #[trigger] c.texels@[k] == Rgba32::zero_spec(),
    {
        BlockCache { valid: false, index: 0, texels: [Rgba32::zero(); 16] }
    }
}

/// The blocks of the whole 4x4 tiles of an image fit in `(width * height) / 2` bytes.
proof fn lemma_etc1_block_bound(width: int, height: int, x: int, y: int)
    requires
        0 <= x,
        0 <= y,
        width >= 0,
        height >= 0,
        etc1_region(width, height, x, y),
    ensures
        0 <= (y / 4) * (width / 4) + x / 4,
        8 * ((y / 4) * (width / 4) + x / 4) + 8 <= (width * height) / 2,
{
    let bx = width / 4;
    let by = height / 4;
    assert(x / 4 < bx);
    assert(y / 4 < by);
    assert(0 <= (y / 4) * bx) by (nonlinear_arith) requires 0 <= y / 4, 0 <= bx;
    assert((y / 4) * bx + x / 4 + 1 <= by * bx) by (nonlinear_arith)
        requires y / 4 < by, x / 4 < bx, 0 <= x / 4, 0 <= y / 4;
    assert(16 * (bx * by) <= width * height) by (nonlinear_arith)
        requires 0 <= 4 * bx <= width, 0 <= 4 * by <= height;
    assert(by * bx == bx * by) by (nonlinear_arith);
}

/// Texel `(x, y)` of the ETC1 blocks stored from byte `offset`.
fn cached_texel(data: &[u8], offset: usize, width: u32, height: u32, x: usize, y: usize, cache: &mut BlockCache) -> (c: Rgba32)
    requires
        old(cache).holds(data@, offset as int),
        x < width,
        y < height,
        etc1_region(width as int, height as int, x as int, y as int),
        offset + (width * height) / 2 <= data@.len(),
    ensures
        final(cache).holds(data@, offset as int),
        c == etc1_image_texel(data@, offset as int, width as int, x as int, y as int),
{
    proof {
        lemma_etc1_block_bound(width as int, height as int, x as int, y as int);
    }
    let _len = data.len();
    let idx: usize = (y / 4) * ((width as usize) / 4) + x / 4;
    if !cache.valid || cache.index != idx {
        let word = read_be64(data, offset + 8 * idx);
        let mut texels = [Rgba32::zero(); 16];
        decode_etc1(word, &mut texels);
        cache.texels = texels;
        cache.valid = true;
        cache.index = idx;
    }
    proof {
        assert(0 <= (x % 4) * 4 + y % 4 < 16);
    }
    cache.texels[(x % 4) * 4 + y % 4]
}

/// Where the alpha channel of an ETC1 texture comes from.
enum AlphaPlan {
    /// No alpha: the colour blocks' own.
    Keep,
    /// One byte per pixel after the colour blocks.
    Plane,
    /// The red channel of ETC1 blocks stored from the given offset.
    Blocks(usize),
    /// Values already decoded from a palette chunk.
    Palette(Vec<u8>),
}

spec fn plan_ok(plan: AlphaPlan, len: int, width: int, height: int) -> bool {
    let wh = width * height;
    match plan {
        AlphaPlan::Keep => true,
        AlphaPlan::Plane => wh / 2 + wh <= len,
        AlphaPlan::Blocks(off) => off + wh / 2 <= len,
        AlphaPlan::Palette(a) => a@.len() == wh,
    }
}

spec fn plan_pixel(plan: AlphaPlan, data: Seq<u8>, width: int, height: int, x: int, y: int) -> Rgba32 {
    let i = y * width + x;
    let region = etc1_region(width, height, x, y);
    let base = if region { etc1_image_texel(data, 0, width, x, y) } else { Rgba32::zero_spec() };
    match plan {
        AlphaPlan::Keep => base,
        AlphaPlan::Plane => with_alpha(base, data[(width * height) / 2 + i]),
        AlphaPlan::Blocks(off) => if region {
            with_alpha(base, etc1_image_texel(data, off as int, width, x, y).r)
        } else {
            base
        },
        AlphaPlan::Palette(a) => with_alpha(base, a@[i]),
    }
}

fn etc1a8_mode_exec(len: u64, wh: u64, alpha_format: Option<i32>) -> (m: (bool, bool))
    requires
        wh <= u32::MAX,
    ensures
        m == etc1a8_mode(len as int, wh as int, alpha_format),
{
    let opaque = wh / 2;
    let unc = opaque + wh;
    let cnh = opaque * 2;
    let cwh = cnh + 17;
    match alpha_format {
        Some(af) => if af == 100 { (true, len >= cwh) } else { (false, false) },
        None => if cwh > unc {
            if len >= cwh { (true, true) } else if len >= unc { (false, false) } else if len >= cnh { (true, false) } else { (false, false) }
        } else {
            if len >= unc { (false, false) } else if len >= cwh { (true, true) } else if len >= cnh { (true, false) } else { (false, false) }
        },
    }
}

/// Decodes the palette alpha chunk after the colour blocks, if it is whole.
fn palette_plan(data: &[u8], opaque: usize, n: usize) -> (plan: AlphaPlan)
    requires
        opaque <= data@.len(),
    ensures
        palette_alpha_ok(data@.subrange(opaque as int, data@.len() as int)) ==> (plan matches AlphaPlan::Palette(a)
            && a@.len() == n
            && forall|p: int| 0 <= p < n ==> #[trigger] a@[p] == palette_alpha(data@.subrange(opaque as int, data@.len() as int), p)),
        !palette_alpha_ok(data@.subrange(opaque as int, data@.len() as int)) ==> plan matches AlphaPlan::Keep,
{
    let chunk = vstd::slice::slice_subrange(data, opaque, data.len());
    match decode_palette_alpha(chunk, n) {
        Ok(alphas) => AlphaPlan::Palette(alphas),
        Err(_) => AlphaPlan::Keep,
    }
}

/// How the alpha of an ETC1-family texture is read, as `etc1_pixel` states it.
fn choose_plan(data: &[u8], width: u32, height: u32, fmt: PtxFormat, alpha_format: Option<i32>) -> (plan: AlphaPlan)
    requires
        is_etc1_format(fmt),
        width * height <= u32::MAX,
        data@.len() >= (width * height) / 2,
    ensures
        plan_ok(plan, data@.len() as int, width as int, height as int),
        forall|x: int, y: int| 0 <= x < width && 0 <= y < height
            ==> #[trigger] plan_pixel(plan, data@, width as int, height as int, x, y)
                == etc1_pixel(data@, width as int, height as int, fmt, alpha_format, x, y),
{
    let wh: u64 = (width as u64) * (height as u64);
    let n: usize = (width as usize) * (height as usize);
    let len: u64 = data.len() as u64;
    let opaque: usize = n / 2;
    let plan = if fmt == PtxFormat::Etc1A8 {
        let (comp, hdr) = etc1a8_mode_exec(len, wh, alpha_format);
        if comp && hdr {
            if len - (opaque as u64) == 17 + (opaque as u64) {
                palette_plan(data, opaque, n)
            } else if 2 * (opaque as u64) + 17 <= len {
                AlphaPlan::Blocks(opaque + 17)
            } else {
                AlphaPlan::Keep
            }
        } else if comp {
            if 2 * (opaque as u64) <= len {
                AlphaPlan::Blocks(opaque)
            } else {
                AlphaPlan::Keep
            }
        } else if len >= (opaque as u64) + wh {
            AlphaPlan::Plane
        } else {
            AlphaPlan::Keep
        }
    } else if fmt == PtxFormat::Etc1Palette {
        palette_plan(data, opaque, n)
    } else {
        AlphaPlan::Keep
    };
    assert forall|x: int, y: int| 0 <= x < width && 0 <= y < height
        implies #[trigger] plan_pixel(plan, data@, width as int, height as int, x, y)
            == etc1_pixel(data@, width as int, height as int, fmt, alpha_format, x, y) by {
        assert(0 <= y * width + x < width * height) by (nonlinear_arith)
            requires 0 <= x < width, 0 <= y < height;
    }
    plan
}

/// Decodes an ETC1 texture (`Etc1`, `Etc1A8` or `Etc1Palette`).
pub(crate) fn decode_etc1_family(data: &[u8], width: u32, height: u32, fmt: PtxFormat, alpha_format: Option<i32>) -> (img: RgbaImage)
    requires
        is_etc1_format(fmt),
        width * height <= u32::MAX,
        4 * width * height <= usize::MAX,
        data@.len() >= (width * height) / 2,
    ensures
        image_has(img, width, height),
        forall|x: int, y: int| 0 <= x < width && 0 <= y < height
            ==> #[trigger] img.pixels()[y * width + x] == etc1_pixel(data@, width as int, height as int, fmt, alpha_format, x, y),
{
    let plan = choose_plan(data, width, height, fmt, alpha_format);
    let n: usize = (width as usize) * (height as usize);
    proof {
        lemma_sizes(width, height, n);
    }
    let opaque: usize = n / 2;
    let bw: usize = ((width as usize) / 4) * 4;
    let bh: usize = ((height as usize) / 4) * 4;
    let mut color = BlockCache::empty();
    let mut alpha = BlockCache::empty();
    let mut out: Vec<u8> = Vec::new();
    let mut i: usize = 0;
    while i < n
        invariant
            0 <= i <= n,
            n == width * height,
            4 * n == 4 * width * height,
            4 * n <= usize::MAX,
            opaque == (width * height) / 2,
            bw == (width / 4) * 4,
            bh == (height / 4) * 4,
            data@.len() >= opaque,
            plan_ok(plan, data@.len() as int, width as int, height as int),
            color.holds(data@, 0),
            plan matches AlphaPlan::Blocks(off) ==> alpha.holds(data@, off as int),
            out@.len() == 4 * i,
            forall|k: int| 0 <= k < i ==> #[trigger] pixel_of(out@, k)
                == plan_pixel(plan, data@, width as int, height as int, k % width as int, k / width as int),
        decreases n - i,
    {
        proof {
            assert(width > 0) by (nonlinear_arith) requires i < n, n == width * height;
            lemma_row_major(i as int, width as int, height as int);
        }
        let x = i % (width as usize);
        let y = i / (width as usize);
        proof {
            assert(y * width + x == i);
        }
        let region = x < bw && y < bh;
        let base = if region { cached_texel(data, 0, width, height, x, y, &mut color) } else { Rgba32::zero() };
        let c = match &plan {
            AlphaPlan::Keep => base,
            AlphaPlan::Plane => Rgba32::new(base.r, base.g, base.b, data[opaque + i]),
            AlphaPlan::Blocks(off) => if region {
                let t = cached_texel(data, *off, width, height, x, y, &mut alpha);
                Rgba32::new(base.r, base.g, base.b, t.r)
            } else {
                base
            },
            AlphaPlan::Palette(a) => Rgba32::new(base.r, base.g, base.b, a[i]),
        };
        let ghost before = out@;
        push_pixel(&mut out, c);
        proof {
            lemma_push_pixel(before, out@, c, i as int);
        }
        i = i + 1;
    }
    let img = RgbaImage { width, height, data: out };
    proof {
        lemma_index_to_xy(img.pixels(), width as int, height as int,
            |x: int, y: int| plan_pixel(plan, data@, width as int, height as int, x, y));
    }
    img
}

} // verus!
