//! Pixel loops behind `PtxEncoder::encode`.
use vstd::prelude::*;
use crate::bytes::{le16, le16_bytes, be64_bytes, push_le16, push_be64};
use crate::color::Rgba32;
use crate::etc1::{encode_alpha, encode_palette_alpha, gen_etc1};
use crate::image::RgbaImage;
use crate::ptx_decode::pvrtc_side_exec;
use crate::pvrtc::lemma_pow2_half;
use crate::ptx::{
    PtxFormat, alphas, block_word, etc1_blocks, etc1_encoding, etc1_words, linear16_encoding, pack16, source_block,
    tile_x, tile_y, tiled16_encoding, tiles_x, tiles_y,
};

verus! {

fn pack16_exec(kind: u8, p: Rgba32) -> (v: u16)
    ensures
        v == pack16(kind as int, p),
{
    if kind == 0 {
        let r: u16 = (p.r / 8) as u16;
        let g: u16 = (p.g / 4) as u16;
        let b: u16 = (p.b / 8) as u16;
        assert(r < 32 && g < 64 && b < 32);
        r * 2048 + g * 32 + b
    } else if kind == 1 {
        let r: u16 = (p.r / 16) as u16;
        let g: u16 = (p.g / 16) as u16;
        let b: u16 = (p.b / 16) as u16;
        let a: u16 = (p.a / 16) as u16;
        assert(r < 16 && g < 16 && b < 16 && a < 16);
        r * 4096 + g * 256 + b * 16 + a
    } else {
        let r: u16 = (p.r / 8) as u16;
        let g: u16 = (p.g / 8) as u16;
        let b: u16 = (p.b / 8) as u16;
        let a: u16 = if p.a > 0 { 1 } else { 0 };
        assert(r < 32 && g < 32 && b < 32);
        r * 2048 + g * 64 + b * 2 + a
    }
}

/// Appending a 16-bit value keeps the values before it and reads back.
proof fn lemma_push_le16(before: Seq<u8>, v: int)
    requires
        0 <= v < 0x1_0000,
    ensures
        le16(before + le16_bytes(v), before.len() as int) == v,
        forall|j: int| 0 <= j && 2 * j + 1 < before.len() ==> #[trigger] le16(before + le16_bytes(v), 2 * j) == le16(before, 2 * j),
{
    let after = before + le16_bytes(v);
    assert(after[before.len() as int] == v % 256);
    assert(after[before.len() + 1int] == v / 256 % 256);
}

/// The pixel count of a well-formed image fits in memory four times over.
proof fn lemma_pixel_count(img: RgbaImage)
    requires
        img.wf(),
        img.data@.len() <= usize::MAX,
    ensures
        img.width * img.height <= usize::MAX,
        4 * (img.width * img.height) == img.data@.len(),
        img.pixels().len() == img.width * img.height,
{
    assert(4 * img.width * img.height == 4 * (img.width * img.height)) by (nonlinear_arith);
}

/// Every pixel packed into 16 bits, little-endian, in row-major order.
pub(crate) fn encode_linear16(img: &RgbaImage, kind: u8) -> (out: Vec<u8>)
    requires
        img.wf(),
    ensures
        linear16_encoding(out@, img.pixels(), kind as int),
{
    let _len = img.data.len();
    proof {
        lemma_pixel_count(*img);
    }
    let n: usize = (img.width as usize) * (img.height as usize);
    let mut out: Vec<u8> = Vec::new();
    let mut i: usize = 0;
    while i < n
        invariant
            0 <= i <= n,
            img.wf(),
            n == img.width * img.height,
            4 * n == img.data@.len(),
            out@.len() == 2 * i,
            forall|j: int| 0 <= j < i ==> #[trigger] le16(out@, 2 * j) == pack16(kind as int, img.pixels()[j]),
        decreases n - i,
    {
        let p = img.get(i);
        let v = pack16_exec(kind, p);
        let ghost before = out@;
        push_le16(&mut out, v);
        proof {
            lemma_push_le16(before, v as int);
        }
        i = i + 1;
    }
    out
}

proof fn lemma_tile_slot(width: int, height: int, k: int)
    requires
        width > 0,
        height >= 0,
        0 <= k < tiles_x(width) * tiles_y(height) * 1024,
    ensures
        tiles_x(width) > 0,
        0 <= tile_x(width, k) < tiles_x(width) * 32,
        0 <= tile_y(width, k) < tiles_y(height) * 32,
        tile_x(width, k) <= width + 31,
        tile_y(width, k) <= height + 31,
{
    let tx = tiles_x(width);
    let ty = tiles_y(height);
    let t = k / 1024;
    assert(t < tx * ty) by (nonlinear_arith)
        requires 0 <= k < tx * ty * 1024, t == k / 1024;
    assert(t / tx < ty) by (nonlinear_arith)
        requires 0 <= t < tx * ty, tx > 0;
    assert(0 <= t / tx) by (nonlinear_arith) requires 0 <= t, tx > 0;
    assert(0 <= (t / tx) * 32) by (nonlinear_arith) requires 0 <= t / tx;
    assert((t / tx) * 32 <= (ty - 1) * 32) by (nonlinear_arith) requires t / tx < ty;
    assert(0 <= t % tx < tx);
}

/// The image in 32x32 tiles of packed 16-bit pixels, zero outside the image.
pub(crate) fn encode_tiled16(img: &RgbaImage, kind: u8) -> (out: Vec<u8>)
    requires
        img.wf(),
        img.width + 31 <= u32::MAX,
        img.height + 31 <= u32::MAX,
        2 * tiles_x(img.width as int) * tiles_y(img.height as int) * 1024 <= usize::MAX,
    ensures
        tiled16_encoding(out@, img.pixels(), img.width as int, img.height as int, kind as int),
{
    let _len = img.data.len();
    proof {
        lemma_pixel_count(*img);
    }
    let width = img.width as usize;
    let height = img.height as usize;
    let tx: usize = (width + 31) / 32;
    let ty: usize = (height + 31) / 32;
    proof {
        assert(0 <= tx * ty) by (nonlinear_arith);
        assert(2 * (tx * ty * 1024) == 2 * tx * ty * 1024) by (nonlinear_arith);
    }
    let slots: usize = tx * ty * 1024;
    let mut out: Vec<u8> = Vec::new();
    let mut k: usize = 0;
    while k < slots
        invariant
            0 <= k <= slots,
            img.wf(),
            width == img.width,
            height == img.height,
            width + 31 <= u32::MAX,
            height + 31 <= u32::MAX,
            width * height <= usize::MAX,
            tx == tiles_x(width as int),
            ty == tiles_y(height as int),
            slots == tx * ty * 1024,
            2 * slots <= usize::MAX,
            out@.len() == 2 * k,
            forall|j: int| 0 <= j < k ==> #[trigger] le16(out@, 2 * j) == (
                if tile_x(width as int, j) < width && tile_y(width as int, j) < height {
                    pack16(kind as int, img.pixels()[tile_y(width as int, j) * width + tile_x(width as int, j)])
                } else {
                    0
                }),
        decreases slots - k,
    {
        proof {
            assert(width > 0) by {
                if width == 0 {
                    assert(tx == 0);
                    assert(tx * ty * 1024 == 0) by (nonlinear_arith) requires tx == 0;
                }
            }
            lemma_tile_slot(width as int, height as int, k as int);
        }
        let t = k / 1024;
        let r = k % 1024;
        let x = (t % tx) * 32 + r % 32;
        let y = (t / tx) * 32 + r / 32;
        let v: u16 = if x < width && y < height {
            proof {
                assert(y * width + x < width * height) by (nonlinear_arith)
                    requires x < width, y < height;
            }
            let p = img.get(y * width + x);
            pack16_exec(kind, p)
        } else {
            0
        };
        let ghost before = out@;
        push_le16(&mut out, v);
        proof {
            lemma_push_le16(before, v as int);
        }
        k = k + 1;
    }
    out
}

/// The alpha value of every pixel, in row-major order.
pub(crate) fn alpha_channel(img: &RgbaImage) -> (out: Vec<u8>)
    requires
        img.wf(),
    ensures
        out@ == alphas(img.pixels()),
{
    let _len = img.data.len();
    proof {
        lemma_pixel_count(*img);
    }
    let n: usize = (img.width as usize) * (img.height as usize);
    let mut out: Vec<u8> = Vec::new();
    let mut i: usize = 0;
    while i < n
        invariant
            0 <= i <= n,
            img.wf(),
            n == img.width * img.height,
            n == img.pixels().len(),
            out@ == alphas(img.pixels()).take(i as int),
        decreases n - i,
    {
        let p = img.get(i);
        out.push(p.a);
        i = i + 1;
        assert(out@ =~= alphas(img.pixels()).take(i as int));
    }
    assert(alphas(img.pixels()).take(n as int) =~= alphas(img.pixels()));
    out
}

/// The texels of a source block lie inside the image.
proof fn lemma_block_texel(width: int, height: int, b: int, t: int)
    requires
        width >= 0,
        height >= 0,
        0 <= b < etc1_blocks(width, height),
        0 <= t < 16,
    ensures
        width / 4 > 0,
        0 <= b % (width / 4) < width / 4,
        0 <= b / (width / 4) < height / 4,
        0 <= ((b / (width / 4)) * 4 + t / 4) * width + (b % (width / 4)) * 4 + t % 4 < width * height,
{
    let bw = width / 4;
    let bh = height / 4;
    assert(bw > 0) by (nonlinear_arith) requires 0 <= b < bw * bh, bw >= 0, bh >= 0;
    let bx = b % bw;
    let by = b / bw;
    assert(by < bh) by (nonlinear_arith) requires 0 <= b < bw * bh, bw > 0, by == b / bw;
    assert(0 <= by) by (nonlinear_arith) requires 0 <= b, bw > 0, by == b / bw;
    let row = by * 4 + t / 4;
    let col = bx * 4 + t % 4;
    assert(0 <= row < height);
    assert(0 <= col < width);
    assert(0 <= row * width + col < width * height) by (nonlinear_arith)
        requires 0 <= row < height, 0 <= col < width;
}

/// The texels of block `b`, row by row.
fn block_colors(img: &RgbaImage, b: usize) -> (colors: [Rgba32; 16])
    requires
        img.wf(),
        0 <= b < etc1_blocks(img.width as int, img.height as int),
    ensures
        colors@ == source_block(img.pixels(), img.width as int, b as int),
{
    let _len = img.data.len();
    proof {
        lemma_pixel_count(*img);
        lemma_block_texel(img.width as int, img.height as int, b as int, 0);
    }
    let width = img.width as usize;
    let bw: usize = width / 4;
    let bx = b % bw;
    let by = b / bw;
    let mut colors = [Rgba32::zero(); 16];
    let mut t: usize = 0;
    while t < 16
        invariant
            0 <= t <= 16,
            img.wf(),
            width == img.width,
            width * img.height <= usize::MAX,
            bw == img.width / 4,
            bw > 0,
            bx == b % bw,
            by == b / bw,
            0 <= b < etc1_blocks(img.width as int, img.height as int),
            colors@.len() == 16,
            forall|u: int| 0 <= u < t ==> #[trigger] colors@[u] == source_block(img.pixels(), width as int, b as int)[u],
        decreases 16 - t,
    {
        proof {
            lemma_block_texel(img.width as int, img.height as int, b as int, t as int);
        }
        let idx = (by * 4 + t / 4) * width + bx * 4 + t % 4;
        colors[t] = img.get(idx);
        t = t + 1;
    }
    assert(colors@ =~= source_block(img.pixels(), width as int, b as int));
    colors
}

/// The ETC1 word of block `b`.
fn block_etc1_word(img: &RgbaImage, b: usize) -> (word: u64)
    requires
        img.wf(),
        0 <= b < etc1_blocks(img.width as int, img.height as int),
    ensures
        word == block_word(img.pixels(), img.width as int, b as int),
{
    let colors = block_colors(img, b);
    let word = gen_etc1(&colors);
    proof {
        reveal(block_word);
    }
    word
}

/// The ETC1 words of every whole 4x4 block, big-endian.
fn encode_etc1_words(img: &RgbaImage) -> (out: Vec<u8>)
    requires
        img.wf(),
    ensures
        out@.len() == 8 * etc1_blocks(img.width as int, img.height as int),
        etc1_words(out@, img.pixels(), img.width as int, img.height as int),
{
    let _len = img.data.len();
    proof {
        lemma_pixel_count(*img);
    }
    let width = img.width as usize;
    let bw: usize = width / 4;
    let bh: usize = (img.height as usize) / 4;
    proof {
        assert(8 * (bw * bh) <= 4 * (img.width * img.height)) by (nonlinear_arith)
            requires 4 * bw <= img.width, 4 * bh <= img.height, 0 <= bw, 0 <= bh;
    }
    let nb: usize = bw * bh;
    let mut out: Vec<u8> = Vec::new();
    let mut b: usize = 0;
    while b < nb
        invariant
            0 <= b <= nb,
            img.wf(),
            width == img.width,
            bw == img.width / 4,
            bh == img.height / 4,
            nb == etc1_blocks(img.width as int, img.height as int),
            8 * nb <= usize::MAX,
            out@.len() == 8 * b,
            forall|c: int| 0 <= c < b ==> #[trigger] out@.subrange(8 * c, 8 * c + 8)
                == be64_bytes(block_word(img.pixels(), width as int, c)),
        decreases nb - b,
    {
        proof {
            lemma_block_texel(img.width as int, img.height as int, b as int, 0);
        }
        let word = block_etc1_word(img, b);
        let ghost before = out@;
        push_be64(&mut out, word);
        proof {
            assert forall|c: int| 0 <= c < b + 1 implies #[trigger] out@.subrange(8 * c, 8 * c + 8)
                == be64_bytes(block_word(img.pixels(), width as int, c)) by {
                if c < b {
                    assert(out@.subrange(8 * c, 8 * c + 8) =~= before.subrange(8 * c, 8 * c + 8));
                } else {
                    assert(out@.subrange(8 * c, 8 * c + 8) =~= be64_bytes(word));
                }
            }
        }
        b = b + 1;
    }
    out
}

/// The ETC1-family encoding: the block words, then the alpha channel raw
/// (`Etc1A8`) or palette-packed (`Etc1Palette`).
pub(crate) fn encode_etc1(img: &RgbaImage, format: PtxFormat) -> (out: Vec<u8>)
    requires
        img.wf(),
        (format == PtxFormat::Etc1A8 || format == PtxFormat::Etc1Palette) ==> img.width * img.height <= u32::MAX,
    ensures
        etc1_encoding(out@, img.pixels(), img.width, img.height, format),
{
    let mut out = encode_etc1_words(img);
    let ghost body = out@;
    if format == PtxFormat::Etc1A8 || format == PtxFormat::Etc1Palette {
        let alpha = alpha_channel(img);
        let mut tail = if format == PtxFormat::Etc1A8 {
            encode_alpha(alpha.as_slice(), img.width, img.height)
        } else {
            encode_palette_alpha(alpha.as_slice(), img.width, img.height)
        };
        let ghost tail_view = tail@;
        out.append(&mut tail);
        proof {
            assert(out@.skip(body.len() as int) =~= tail_view);
            assert forall|c: int| 0 <= c < etc1_blocks(img.width as int, img.height as int)
                implies #[trigger] out@.subrange(8 * c, 8 * c + 8)
                    == be64_bytes(block_word(img.pixels(), img.width as int, c)) by {
                assert(out@.subrange(8 * c, 8 * c + 8) =~= body.subrange(8 * c, 8 * c + 8));
            }
        }
    }
    out
}

/// Encodes an image as PVRTC 4bpp (see `pvrtc_encoding`).
pub(crate) fn encode_pvrtc(img: &RgbaImage) -> (out: Vec<u8>)
    requires
        img.wf(),
        img.width <= 0x8000,
        img.height <= 0x8000,
    ensures
        crate::ptx::pvrtc_encoding(out@, *img),
{
    let side = pvrtc_side_exec(img.width, img.height);
    proof {
        lemma_pow2_half(side as nat);
        lemma_pow2_half((side / 2) as nat);
        assert(side % 4 == 0);
        assert((side / 2) / 2 == side / 4);
    }
    let blocks: u32 = side / 4;
    proof {
        assert(side * side == 16 * (blocks * blocks)) by (nonlinear_arith)
            requires side == 4 * blocks;
        assert(8 * blocks * blocks == 8 * (blocks * blocks)) by (nonlinear_arith);
        assert(side * side / 16 == blocks * blocks);
    }
    crate::pvrtc_encode::encode_4bpp(img, blocks)
}

} // verus!
