//! PTX texture decoding and encoding.
use vstd::prelude::*;
use crate::bytes::{le16, le64, be64, be64_bytes};
use crate::color::{Rgba32};
use crate::etc1::{etc1_texel, palette_alpha, palette_alpha_ok, palette_encoding, spec_gen_etc1};
use crate::image::RgbaImage;
use crate::pvrtc::{morton, pvrtc_texel};
use crate::pvrtc_encode::encoded_word;
use crate::text::{decimal, signed_decimal, push_signed_decimal};
use crate::ptx_encode::{encode_etc1, encode_linear16, encode_pvrtc, encode_tiled16};
use crate::ptx_decode::{
    decode_etc1_family, decode_linear16, decode_pvrtc, decode_rgba8888, decode_tiled16, insufficient,
    insufficient_at_least, lemma_xy_of_index,
};

verus! {

/// Pixel layouts of PTX textures.
#[derive(Debug, Clone, Copy, PartialEq, Eq, Structural)]
pub enum PtxFormat {
    Rgba8888,
    Rgba4444,
    Rgb565,
    Rgba5551,
    Rgba4444Block,
    Rgb565Block,
    Rgba5551Block,
    Pvrtc4BppRgba,
    Etc1,
    Pvrtc4BppRgbaA8,
    Etc1A8,
    Etc1Palette,
    Unknown(i32),
}

/// The format a numeric PTX format code names (30 and 147 are refined by
/// the data size when decoding).
pub open spec fn format_of_code(v: i32) -> PtxFormat {
    if v == 0 { PtxFormat::Rgba8888 }
    else if v == 1 { PtxFormat::Rgba4444 }
    else if v == 2 { PtxFormat::Rgb565 }
    else if v == 3 { PtxFormat::Rgba5551 }
    else if v == 21 { PtxFormat::Rgba4444Block }
    else if v == 22 { PtxFormat::Rgb565Block }
    else if v == 23 { PtxFormat::Rgba5551Block }
    else if v == 30 { PtxFormat::Pvrtc4BppRgba }
    else if v == 147 { PtxFormat::Etc1 }
    else if v == 148 { PtxFormat::Pvrtc4BppRgbaA8 }
    else { PtxFormat::Unknown(v) }
}

impl From<i32> for PtxFormat {
    fn from(v: i32) -> (f: Self) {
        match v {
            0 => PtxFormat::Rgba8888,
            1 => PtxFormat::Rgba4444,
            2 => PtxFormat::Rgb565,
            3 => PtxFormat::Rgba5551,
            21 => PtxFormat::Rgba4444Block,
            22 => PtxFormat::Rgb565Block,
            23 => PtxFormat::Rgba5551Block,
            30 => PtxFormat::Pvrtc4BppRgba,
            147 => PtxFormat::Etc1,
            148 => PtxFormat::Pvrtc4BppRgbaA8,
            n => PtxFormat::Unknown(n),
        }
    }
}

impl vstd::std_specs::convert::FromSpecImpl<i32> for PtxFormat {
    open spec fn obeys_from_spec() -> bool {
        true
    }

    open spec fn from_spec(v: i32) -> PtxFormat {
        format_of_code(v)
    }
}

/// Errors of the texture codecs.
#[derive(Debug)]
pub enum RsbError {
    InvalidMagic(String, String),
    InvalidVersion(u32),
    InvalidCompression(u32),
    Zlib,
    Other(String),
    DeserializationError(String),
}

// ─── Format resolution ──────────────────────────────────────────────────────

/// The format used to decode: code 30 with more than `w * h / 2 + 16` bytes
/// is ETC1 with palette alpha, and code 147 with at least twice the opaque
/// ETC1 size (or the opaque size plus one byte per pixel) is ETC1 with alpha.
pub open spec fn resolved_format(len: int, width: int, height: int, code: i32) -> PtxFormat {
    let wh = width * height;
    if code == 30 && len > wh / 2 + 16 {
        PtxFormat::Etc1Palette
    } else if code == 147 && (len >= wh / 2 + wh || len >= (wh / 2) * 2) {
        PtxFormat::Etc1A8
    } else {
        format_of_code(code)
    }
}

pub open spec fn is_block_format(f: PtxFormat) -> bool {
    f == PtxFormat::Rgba4444Block || f == PtxFormat::Rgb565Block || f == PtxFormat::Rgba5551Block
}

pub open spec fn is_pvrtc_format(f: PtxFormat) -> bool {
    f == PtxFormat::Pvrtc4BppRgba || f == PtxFormat::Pvrtc4BppRgbaA8
}

pub open spec fn is_etc1_format(f: PtxFormat) -> bool {
    f == PtxFormat::Etc1 || f == PtxFormat::Etc1A8 || f == PtxFormat::Etc1Palette
}

// ─── 16-bit pixel layouts ───────────────────────────────────────────────────

pub open spec fn expand5(v: int) -> int { v * 8 + v / 4 }
pub open spec fn expand6(v: int) -> int { v * 4 + v / 16 }
pub open spec fn expand4(v: int) -> int { v * 17 }

/// `RRRRRGGG GGGBBBBB`, opaque.
pub open spec fn px565(v: int) -> Rgba32 {
    Rgba32 { r: expand5(v / 2048) as u8, g: expand6((v / 32) % 64) as u8, b: expand5(v % 32) as u8, a: 255 }
}

/// `RRRRGGGG BBBBAAAA`.
pub open spec fn px4444(v: int) -> Rgba32 {
    Rgba32 { r: expand4(v / 4096) as u8, g: expand4((v / 256) % 16) as u8, b: expand4((v / 16) % 16) as u8, a: expand4(v % 16) as u8 }
}

/// `RRRRRGGG GGBBBBBA`, alpha fully on or off.
pub open spec fn px5551(v: int) -> Rgba32 {
    Rgba32 {
        r: expand5(v / 2048) as u8,
        g: expand5((v / 64) % 32) as u8,
        b: expand5((v / 2) % 32) as u8,
        a: if v % 2 == 1 { 255 } else { 0 },
    }
}

/// Decoding of one 16-bit pixel of the 565 (`kind == 0`), 4444 (`1`) or
/// 5551 (`2`) layout.
pub open spec fn px16(kind: int, v: int) -> Rgba32 {
    if kind == 0 { px565(v) } else if kind == 1 { px4444(v) } else { px5551(v) }
}

/// Byte offset of pixel `(x, y)` in the 32x32-tiled layouts: tiles row by
/// row, pixels row by row inside a tile, two bytes each.
pub open spec fn tile_offset(width: int, x: int, y: int) -> int {
    let tiles_x = (width + 31) / 32;
    2 * (((y / 32) * tiles_x + x / 32) * 1024 + (y % 32) * 32 + x % 32)
}

/// The tiled data covers every pixel of the image.
pub open spec fn tiles_cover(len: int, width: int, height: int) -> bool {
    width * height == 0 || tile_offset(width, width - 1, height - 1) + 2 <= len
}

/// Pixel `i` of an RGBA8888 buffer, stored as BGRA on PowerVR.
pub open spec fn px8888(data: Seq<u8>, i: int, powervr: bool) -> Rgba32 {
    if powervr {
        Rgba32 { r: data[4 * i + 2], g: data[4 * i + 1], b: data[4 * i], a: data[4 * i + 3] }
    } else {
        Rgba32 { r: data[4 * i], g: data[4 * i + 1], b: data[4 * i + 2], a: data[4 * i + 3] }
    }
}

// ─── PVRTC sizes ────────────────────────────────────────────────────────────

/// The smallest power of two reached from `p` by doubling that is at least `v`.
pub open spec fn pow2_ceil(v: int, p: int) -> int
    decreases (if p >= v { 0 } else { v - p }),
{
    if p <= 0 || p >= v {
        p
    } else {
        pow2_ceil(v, 2 * p)
    }
}

/// Side of the square power-of-two PVRTC texture for a `width` by `height`
/// image (at least 8).
pub open spec fn pvrtc_side(width: int, height: int) -> int {
    let pw = pow2_ceil(if width < 8 { 8 } else { width }, 1);
    let ph = pow2_ceil(if height < 8 { 8 } else { height }, 1);
    if pw > ph { pw } else { ph }
}

/// Number of PVRTC packet bytes for the texture.
pub open spec fn pvrtc_bytes(width: int, height: int) -> int {
    let s = pvrtc_side(width, height);
    (s * s / 16) * 8
}

/// The PVRTC packet words stored at the start of `data`.
pub open spec fn pvrtc_words(data: Seq<u8>, count: int) -> Seq<u64> {
    Seq::new(count as nat, |j: int| le64(data, 8 * j) as u64)
}

/// Pixel `(x, y)` of a PVRTC texture cropped to `width` by `height`; with
/// `plane`, an alpha byte per pixel follows the packets when the data holds it.
pub open spec fn pvrtc_pixel(data: Seq<u8>, width: int, height: int, plane: bool, x: int, y: int) -> Rgba32 {
    let side = pvrtc_side(width, height);
    let bytes = pvrtc_bytes(width, height);
    let c = pvrtc_texel(pvrtc_words(data, bytes / 8), side / 4, x, y);
    if plane && data.len() >= bytes + width * height {
        with_alpha(c, data[bytes + y * width + x])
    } else {
        c
    }
}

// ─── ETC1 layout ────────────────────────────────────────────────────────────

/// Whether pixel `(x, y)` lies in the whole 4x4 blocks of the image.
pub open spec fn etc1_region(width: int, height: int, x: int, y: int) -> bool {
    x < (width / 4) * 4 && y < (height / 4) * 4
}

/// Texel `(x, y)` of ETC1 blocks stored row by row from byte `offset`.
pub open spec fn etc1_image_texel(data: Seq<u8>, offset: int, width: int, x: int, y: int) -> Rgba32 {
    let word = be64(data, offset + 8 * ((y / 4) * (width / 4) + x / 4)) as u64;
    etc1_texel(word, (x % 4) * 4 + y % 4)
}

/// Alpha storage of an ETC1 texture with alpha, as
/// `(compressed, with_header)`: alpha format 100 means compressed alpha; with
/// no alpha format the data size decides, checking the larger layout first.
pub open spec fn etc1a8_mode(len: int, wh: int, alpha_format: Option<i32>) -> (bool, bool) {
    let opaque = wh / 2;
    let unc = opaque + wh;
    let cnh = opaque * 2;
    let cwh = cnh + 17;
    match alpha_format {
        Some(af) => if af == 100 { (true, len >= cwh) } else { (false, false) },
        None => if cwh > unc {
            if len >= cwh { (true, true) } else if len >= unc { (false, false) } else if len >= cnh { (true, false) } else { (false, false) }
        } else {
            if len >= unc { (false, false) } else if len >= cwh { (true, true) } else if len >= cnh { (true, false) } else { (false, false) }
        },
    }
}

pub open spec fn with_alpha(c: Rgba32, a: u8) -> Rgba32 {
    Rgba32 { a, ..c }
}

/// Pixel `(x, y)` of an ETC1-family texture.
pub open spec fn etc1_pixel(data: Seq<u8>, width: int, height: int, fmt: PtxFormat, alpha_format: Option<i32>, x: int, y: int) -> Rgba32 {
    let wh = width * height;
    let opaque = wh / 2;
    let len = data.len() as int;
    let i = y * width + x;
    let region = etc1_region(width, height, x, y);
    let base = if region { etc1_image_texel(data, 0, width, x, y) } else { Rgba32::zero_spec() };
    if fmt == PtxFormat::Etc1A8 {
        let (comp, hdr) = etc1a8_mode(len, wh, alpha_format);
        if comp && hdr {
            if len - opaque == 17 + opaque {
                let chunk = data.subrange(opaque, len);
                if palette_alpha_ok(chunk) { with_alpha(base, palette_alpha(chunk, i)) } else { base }
            } else if 2 * opaque + 17 <= len && region {
                with_alpha(base, etc1_image_texel(data, opaque + 17, width, x, y).r)
            } else {
                base
            }
        } else if comp {
            if 2 * opaque <= len && region {
                with_alpha(base, etc1_image_texel(data, opaque, width, x, y).r)
            } else {
                base
            }
        } else if len >= opaque + wh {
            with_alpha(base, data[opaque + i])
        } else {
            base
        }
    } else if fmt == PtxFormat::Etc1Palette {
        let chunk = data.subrange(opaque, len);
        if palette_alpha_ok(chunk) { with_alpha(base, palette_alpha(chunk, i)) } else { base }
    } else {
        base
    }
}

// ─── Decoding contract ──────────────────────────────────────────────────────

/// "Insufficient data for {label}: expected {expected}, got {got}".
pub open spec fn insufficient_msg(label: Seq<char>, expected: int, got: int) -> Seq<char> {
    "Insufficient data for "@ + label + ": expected "@ + decimal(expected as nat) + ", got "@ + decimal(got as nat)
}

/// "Insufficient data for {label}: expected at least {expected}, got {got}".
pub open spec fn insufficient_at_least_msg(label: Seq<char>, expected: int, got: int) -> Seq<char> {
    "Insufficient data for "@ + label + ": expected at least "@ + decimal(expected as nat) + ", got "@ + decimal(got as nat)
}

/// The error message decoding fails with, if it fails.
pub open spec fn decode_error(len: int, width: int, height: int, code: i32) -> Option<Seq<char>> {
    let wh = width * height;
    let fmt = resolved_format(len, width, height, code);
    match fmt {
        PtxFormat::Rgba8888 => if len < 4 * wh { Some(insufficient_msg("Rgba8888"@, 4 * wh, len)) } else { None },
        PtxFormat::Rgb565 => if len < 2 * wh { Some(insufficient_msg("RGB565"@, 2 * wh, len)) } else { None },
        PtxFormat::Rgba4444 => if len < 2 * wh { Some(insufficient_msg("RGBA4444"@, 2 * wh, len)) } else { None },
        PtxFormat::Rgba5551 => if len < 2 * wh { Some(insufficient_msg("RGBA5551"@, 2 * wh, len)) } else { None },
        PtxFormat::Rgba4444Block => if len < 2 * wh { Some(insufficient_msg("Rgba4444Block"@, 2 * wh, len)) } else { None },
        PtxFormat::Rgba5551Block => if len < 2 * wh { Some(insufficient_msg("Rgba5551Block"@, 2 * wh, len)) } else { None },
        PtxFormat::Rgb565Block => if len < 2 * wh { Some(insufficient_msg("Rgb565Block"@, 2 * wh, len)) } else { None },
        PtxFormat::Pvrtc4BppRgba | PtxFormat::Pvrtc4BppRgbaA8 => if len < pvrtc_bytes(width, height) {
            Some(insufficient_at_least_msg("PVRTC"@, pvrtc_bytes(width, height), len))
        } else {
            None
        },
        PtxFormat::Etc1 | PtxFormat::Etc1A8 | PtxFormat::Etc1Palette => if len < wh / 2 {
            Some(insufficient_at_least_msg("ETC1"@, wh / 2, len))
        } else {
            None
        },
        PtxFormat::Unknown(n) => Some("Unsupported PTX format for decoding: Unknown("@ + signed_decimal(n as int) + ")"@),
    }
}

/// Pixel `(x, y)` of a successfully decoded texture.
pub open spec fn decoded_pixel(data: Seq<u8>, width: int, height: int, code: i32, alpha_format: Option<i32>, powervr: bool, x: int, y: int) -> Rgba32 {
    let len = data.len() as int;
    let i = y * width + x;
    let fmt = resolved_format(len, width, height, code);
    match fmt {
        PtxFormat::Rgba8888 => px8888(data, i, powervr),
        PtxFormat::Rgb565 => px565(le16(data, 2 * i)),
        PtxFormat::Rgba4444 => px4444(le16(data, 2 * i)),
        PtxFormat::Rgba5551 => px5551(le16(data, 2 * i)),
        PtxFormat::Rgb565Block => px565(le16(data, tile_offset(width, x, y))),
        PtxFormat::Rgba4444Block => px4444(le16(data, tile_offset(width, x, y))),
        PtxFormat::Rgba5551Block => px5551(le16(data, tile_offset(width, x, y))),
        PtxFormat::Pvrtc4BppRgba | PtxFormat::Pvrtc4BppRgbaA8 =>
            pvrtc_pixel(data, width, height, fmt == PtxFormat::Pvrtc4BppRgbaA8, x, y),
        _ => etc1_pixel(data, width, height, fmt, alpha_format, x, y),
    }
}

/// Inputs on which decoding stays within machine limits and the data reads
/// stay in bounds.
pub open spec fn decode_admissible(len: int, width: int, height: int, code: i32) -> bool {
    let fmt = resolved_format(len, width, height, code);
    &&& width * height <= u32::MAX
    &&& 4 * width * height <= usize::MAX
    &&& is_block_format(fmt) && len >= 2 * width * height ==> {
        &&& tiles_cover(len, width, height)
        &&& width + 31 <= u32::MAX
        &&& height + 31 <= u32::MAX
    }
    &&& is_pvrtc_format(fmt) ==> width <= 0x8000 && height <= 0x8000
}

// ─── Encoding contract ──────────────────────────────────────────────────────

/// A colour packed into the 565 (`kind == 0`), 4444 (`1`) or 5551 (`2`)
/// 16-bit layout, keeping the high bits of each channel.
pub open spec fn pack16(kind: int, p: Rgba32) -> int {
    if kind == 0 {
        (p.r / 8) * 2048 + (p.g / 4) * 32 + p.b / 8
    } else if kind == 1 {
        (p.r / 16) * 4096 + (p.g / 16) * 256 + (p.b / 16) * 16 + p.a / 16
    } else {
        (p.r / 8) * 2048 + (p.g / 8) * 64 + (p.b / 8) * 2 + (if p.a > 0 { 1int } else { 0int })
    }
}

/// The 16-bit layout of a format, as the `kind` of `pack16` and `px16`.
pub open spec fn kind16(f: PtxFormat) -> int {
    if f == PtxFormat::Rgb565 || f == PtxFormat::Rgb565Block {
        0
    } else if f == PtxFormat::Rgba4444 || f == PtxFormat::Rgba4444Block {
        1
    } else {
        2
    }
}

pub open spec fn tiles_x(width: int) -> int { (width + 31) / 32 }
pub open spec fn tiles_y(height: int) -> int { (height + 31) / 32 }

/// Column of the pixel stored at 16-bit slot `k` of the tiled layout.
pub open spec fn tile_x(width: int, k: int) -> int {
    ((k / 1024) % tiles_x(width)) * 32 + (k % 1024) % 32
}

/// Row of the pixel stored at 16-bit slot `k` of the tiled layout.
pub open spec fn tile_y(width: int, k: int) -> int {
    ((k / 1024) / tiles_x(width)) * 32 + (k % 1024) / 32
}

/// `out` holds each pixel packed as a little-endian 16-bit value, in order.
pub open spec fn linear16_encoding(out: Seq<u8>, pixels: Seq<Rgba32>, kind: int) -> bool {
    &&& out.len() == 2 * pixels.len()
    &&& forall|i: int| 0 <= i < pixels.len() ==> #[trigger] le16(out, 2 * i) == pack16(kind, pixels[i])
}

/// `out` holds the image in 32x32 tiles of packed 16-bit pixels, with zero
/// in the slots that fall outside the image.
pub open spec fn tiled16_encoding(out: Seq<u8>, pixels: Seq<Rgba32>, width: int, height: int, kind: int) -> bool {
    let slots = tiles_x(width) * tiles_y(height) * 1024;
    &&& out.len() == 2 * slots
    &&& forall|k: int| 0 <= k < slots ==> #[trigger] le16(out, 2 * k) == (
        if tile_x(width, k) < width && tile_y(width, k) < height {
            pack16(kind, pixels[tile_y(width, k) * width + tile_x(width, k)])
        } else {
            0
        })
}

/// Block `b` (row by row over the whole 4x4 blocks) of an image, its texels
/// row by row.
pub open spec fn source_block(pixels: Seq<Rgba32>, width: int, b: int) -> Seq<Rgba32> {
    let bx = b % (width / 4);
    let by = b / (width / 4);
    Seq::new(16, |t: int| pixels[(by * 4 + t / 4) * width + bx * 4 + t % 4])
}

/// Number of whole 4x4 blocks of an image.
pub open spec fn etc1_blocks(width: int, height: int) -> int {
    (width / 4) * (height / 4)
}

/// The ETC1 word `gen_etc1` chooses for block `b` of an image.
#[verifier::opaque]
pub open spec fn block_word(pixels: Seq<Rgba32>, width: int, b: int) -> u64 {
    spec_gen_etc1(source_block(pixels, width, b))
}

/// `out` starts with the ETC1 word of every whole block, big-endian.
pub open spec fn etc1_words(out: Seq<u8>, pixels: Seq<Rgba32>, width: int, height: int) -> bool {
    &&& out.len() >= 8 * etc1_blocks(width, height)
    &&& forall|b: int| 0 <= b < etc1_blocks(width, height)
        ==> #[trigger] out.subrange(8 * b, 8 * b + 8) == be64_bytes(block_word(pixels, width, b))
}

/// The alpha channel of an image.
pub open spec fn alphas(pixels: Seq<Rgba32>) -> Seq<u8> {
    Seq::new(pixels.len(), |i: int| pixels[i].a)
}

/// `out` is the ETC1-family encoding of the image in format `f`.
pub open spec fn etc1_encoding(out: Seq<u8>, pixels: Seq<Rgba32>, width: u32, height: u32, f: PtxFormat) -> bool {
    let body = 8 * etc1_blocks(width as int, height as int);
    &&& etc1_words(out, pixels, width as int, height as int)
    &&& if f == PtxFormat::Etc1A8 {
        out.skip(body) == alphas(pixels)
    } else if f == PtxFormat::Etc1Palette {
        palette_encoding(out.skip(body), alphas(pixels), width, height)
    } else {
        out.len() == body
    }
}

/// The error message encoding fails with, if it fails.
pub open spec fn encode_error(f: PtxFormat) -> Option<Seq<char>> {
    match f {
        PtxFormat::Unknown(n) => Some("Encoding not implemented for format: Unknown("@ + signed_decimal(n as int) + ")"@),
        _ => None,
    }
}

/// `out` is the PVRTC 4bpp encoding of `img`: the packet words of the
/// square power-of-two texture the decoder reads (`pvrtc_side`), each block's
/// word at its Morton index, as `encoded_word` describes them.
pub open spec fn pvrtc_encoding(out: Seq<u8>, img: RgbaImage) -> bool {
    let blocks = pvrtc_side(img.width as int, img.height as int) / 4;
    &&& out.len() == pvrtc_bytes(img.width as int, img.height as int)
    &&& forall|x: int, y: int| 0 <= x < blocks && 0 <= y < blocks
        ==> #[trigger] le64(out, 8 * (morton(x as nat, y as nat) as int)) == encoded_word(img, blocks, x, y)
}

/// `out` is the encoding of the image in format `f`.
pub open spec fn encoded(out: Seq<u8>, img: RgbaImage, f: PtxFormat) -> bool {
    if f == PtxFormat::Rgba8888 {
        out == img.data@
    } else if f == PtxFormat::Rgb565 || f == PtxFormat::Rgba4444 || f == PtxFormat::Rgba5551 {
        linear16_encoding(out, img.pixels(), kind16(f))
    } else if is_block_format(f) {
        tiled16_encoding(out, img.pixels(), img.width as int, img.height as int, kind16(f))
    } else if is_pvrtc_format(f) {
        pvrtc_encoding(out, img)
    } else {
        etc1_encoding(out, img.pixels(), img.width, img.height, f)
    }
}

/// The ETC1 block words of a `width` by `height` image are counted, and
/// its pixels indexed row by row, in `u32`.
pub open spec fn etc1_fits(width: int, height: int) -> bool {
    let bx = width / 4;
    let by = height / 4;
    &&& 8 * (bx * by) <= u32::MAX
    &&& bx > 0 && by > 0 ==> (4 * by - 1) * width + 4 * bx - 1 <= u32::MAX
}

/// Images that format `f` encodes: the 16-bit layouts size their output as
/// `2 * width * height` in `u32` (and the tiled ones step over whole tiles
/// of 32 rows and columns), the ETC1 formats count blocks and index pixels
/// in `u32` (with an alpha plane, `width * height` too); a plain copy and
/// the refused formats need nothing more than a well-formed image.
pub open spec fn encode_admissible(img: RgbaImage, f: PtxFormat) -> bool {
    &&& img.wf()
    &&& (f == PtxFormat::Rgb565 || f == PtxFormat::Rgba4444 || f == PtxFormat::Rgba5551)
        ==> 2 * img.width * img.height <= u32::MAX
    &&& is_block_format(f) ==> {
        &&& 2 * img.width * img.height <= u32::MAX
        &&& img.width + 31 <= u32::MAX
        &&& img.height + 31 <= u32::MAX
        &&& 2 * tiles_x(img.width as int) * tiles_y(img.height as int) * 1024 <= usize::MAX
    }
    &&& (f == PtxFormat::Etc1 || f == PtxFormat::Etc1A8 || f == PtxFormat::Etc1Palette)
        ==> etc1_fits(img.width as int, img.height as int)
    &&& (f == PtxFormat::Etc1A8 || f == PtxFormat::Etc1Palette) ==> img.width * img.height <= u32::MAX
    &&& is_pvrtc_format(f) ==> img.width <= 0x8000 && img.height <= 0x8000
}

/// `img` is a well-formed `width` by `height` image.
pub open spec fn image_has(img: RgbaImage, width: u32, height: u32) -> bool {
    img.wf() && img.width == width && img.height == height
}

} // verus!

verus! {

/// Decoder of PTX texture data.
pub struct PtxDecoder;

impl PtxDecoder {
    /// Decodes `data` as a `width` by `height` texture of the format with
    /// numeric code `format_code`. Codes 30 and 147 are refined by the data
    /// size (see `resolved_format`); `alpha_format` 100 selects ETC1-compressed
    /// alpha; `is_powervr` reads RGBA8888 data as BGRA.
    pub fn decode(
        data: &[u8],
        width: u32,
        height: u32,
        format_code: i32,
        _alpha_size: Option<i32>,
        alpha_format: Option<i32>,
        is_powervr: bool,
    ) -> (res: Result<RgbaImage, RsbError>)
        requires
            decode_admissible(data@.len() as int, width as int, height as int, format_code),
        ensures
            res is Ok <==> decode_error(data@.len() as int, width as int, height as int, format_code) is None,
            res matches Err(e) ==> (e matches RsbError::DeserializationError(m)
                && decode_error(data@.len() as int, width as int, height as int, format_code) == Some(m@)),
            res matches Ok(img) ==> {
                &&& image_has(img, width, height)
                &&& forall|x: int, y: int| 0 <= x < width && 0 <= y < height
                    ==> #[trigger] img.pixels()[y * width + x]
                        == decoded_pixel(data@, width as int, height as int, format_code, alpha_format, is_powervr, x, y)
            },
    {
        let len: u64 = data.len() as u64;
        let wh: u64 = (width as u64) * (height as u64);
        proof {
            assert(4 * wh == 4 * width * height && 2 * wh == 2 * width * height) by (nonlinear_arith)
                requires wh == width * height;
        }
        let mut format = PtxFormat::from(format_code);
        if format_code == 30 {
            if len > wh / 2 + 16 {
                format = PtxFormat::Etc1Palette;
            }
        } else if format_code == 147 {
            if len >= wh / 2 + wh {
                format = PtxFormat::Etc1A8;
            } else if len >= (wh / 2) * 2 {
                format = PtxFormat::Etc1A8;
            }
        }
        let ghost dl = data@.len() as int;
        assert(format == resolved_format(dl, width as int, height as int, format_code));
        match format {
            PtxFormat::Rgba8888 => {
                if len < 4 * wh {
                    return Err(insufficient("Rgba8888", 4 * wh, len));
                }
                let img = decode_rgba8888(data, width, height, is_powervr);
                proof {
                    lemma_xy_of_index(img.pixels(), width as int, height as int, |i: int| px8888(data@, i, is_powervr));
                }
                Ok(img)
            },
            PtxFormat::Rgb565 | PtxFormat::Rgba4444 | PtxFormat::Rgba5551 => {
                if len < 2 * wh {
                    let label = if format == PtxFormat::Rgb565 {
                        "RGB565"
                    } else if format == PtxFormat::Rgba4444 {
                        "RGBA4444"
                    } else {
                        "RGBA5551"
                    };
                    return Err(insufficient(label, 2 * wh, len));
                }
                let kind: u8 = if format == PtxFormat::Rgb565 { 0 } else if format == PtxFormat::Rgba4444 { 1 } else { 2 };
                let img = decode_linear16(data, width, height, kind);
                proof {
                    lemma_xy_of_index(img.pixels(), width as int, height as int, |i: int| px16(kind as int, le16(data@, 2 * i)));
                }
                Ok(img)
            },
            PtxFormat::Rgb565Block | PtxFormat::Rgba4444Block | PtxFormat::Rgba5551Block => {
                if len < 2 * wh {
                    let label = if format == PtxFormat::Rgb565Block {
                        "Rgb565Block"
                    } else if format == PtxFormat::Rgba4444Block {
                        "Rgba4444Block"
                    } else {
                        "Rgba5551Block"
                    };
                    return Err(insufficient(label, 2 * wh, len));
                }
                let kind: u8 = if format == PtxFormat::Rgb565Block { 0 } else if format == PtxFormat::Rgba4444Block { 1 } else { 2 };
                let img = decode_tiled16(data, width, height, kind);
                Ok(img)
            },
            PtxFormat::Pvrtc4BppRgba | PtxFormat::Pvrtc4BppRgbaA8 => {
                let img_or = Self::pvrtc(data, width, height, format == PtxFormat::Pvrtc4BppRgbaA8);
                img_or
            },
            PtxFormat::Etc1 | PtxFormat::Etc1A8 | PtxFormat::Etc1Palette => {
                let opaque: u64 = wh / 2;
                if len < opaque {
                    return Err(insufficient_at_least("ETC1", opaque, len));
                }
                let img = decode_etc1_family(data, width, height, format, alpha_format);
                Ok(img)
            },
            PtxFormat::Unknown(n) => {
                let mut m = String::from_str("Unsupported PTX format for decoding: Unknown(");
                push_signed_decimal(&mut m, n as i64);
                m.append(")");
                Err(RsbError::DeserializationError(m))
            },
        }
    }

    fn pvrtc(data: &[u8], width: u32, height: u32, plane: bool) -> (res: Result<RgbaImage, RsbError>)
        requires
            width <= 0x8000,
            height <= 0x8000,
            width * height <= u32::MAX,
            4 * width * height <= usize::MAX,
        ensures
            res is Ok <==> data@.len() >= pvrtc_bytes(width as int, height as int),
            res matches Err(e) ==> (e matches RsbError::DeserializationError(m)
                && m@ == insufficient_at_least_msg("PVRTC"@, pvrtc_bytes(width as int, height as int), data@.len() as int)),
            res matches Ok(img) ==> {
                &&& image_has(img, width, height)
                &&& forall|x: int, y: int| 0 <= x < width && 0 <= y < height
                    ==> #[trigger] img.pixels()[y * width + x] == pvrtc_pixel(data@, width as int, height as int, plane, x, y)
            },
    {
        let side: u64 = crate::ptx_decode::pvrtc_side_u64(width, height);
        proof {
            assert(side * side <= 0x4000_0000) by (nonlinear_arith) requires side <= 0x8000;
        }
        let bytes: u64 = (side * side / 16) * 8;
        let len: u64 = data.len() as u64;
        if len < bytes {
            return Err(insufficient_at_least("PVRTC", bytes, len));
        }
        Ok(decode_pvrtc(data, width, height, plane))
    }
}

/// Encoder of PTX texture data.
pub struct PtxEncoder;

impl PtxEncoder {
    /// Encodes an image in `format` (see `encoded`); unknown formats are
    /// refused.
    pub fn encode(image: &RgbaImage, format: PtxFormat) -> (res: Result<Vec<u8>, RsbError>)
        requires
            encode_admissible(*image, format),
        ensures
            res is Err <==> encode_error(format) is Some,
            res matches Err(e) ==> (e matches RsbError::DeserializationError(m) && encode_error(format) == Some(m@)),
            res matches Ok(out) ==> encoded(out@, *image, format),
    {
        match format {
            PtxFormat::Rgba8888 => Ok(vstd::slice::slice_to_vec(image.data.as_slice())),
            PtxFormat::Rgb565 => Ok(encode_linear16(image, 0)),
            PtxFormat::Rgba4444 => Ok(encode_linear16(image, 1)),
            PtxFormat::Rgba5551 => Ok(encode_linear16(image, 2)),
            PtxFormat::Rgb565Block => Ok(encode_tiled16(image, 0)),
            PtxFormat::Rgba4444Block => Ok(encode_tiled16(image, 1)),
            PtxFormat::Rgba5551Block => Ok(encode_tiled16(image, 2)),
            PtxFormat::Etc1 | PtxFormat::Etc1A8 | PtxFormat::Etc1Palette => Ok(encode_etc1(image, format)),
            PtxFormat::Pvrtc4BppRgba | PtxFormat::Pvrtc4BppRgbaA8 => Ok(encode_pvrtc(image)),
            PtxFormat::Unknown(n) => {
                let mut m = String::from_str("Encoding not implemented for format: Unknown(");
                push_signed_decimal(&mut m, n as i64);
                m.append(")");
                Err(RsbError::DeserializationError(m))
            },
        }
    }
}

} // verus!

verus! {

// ─── Laws ───────────────────────────────────────────────────────────────────

use vstd::arithmetic::div_mod::lemma_fundamental_div_mod_converse;

/// The colour a 16-bit layout keeps of `p`: each channel cut to the layout's
/// high bits and widened back to eight bits by bit replication.
pub open spec fn requantize(kind: int, p: Rgba32) -> Rgba32 {
    if kind == 0 {
        Rgba32 { r: expand5((p.r / 8) as int) as u8, g: expand6((p.g / 4) as int) as u8, b: expand5((p.b / 8) as int) as u8, a: 255 }
    } else if kind == 1 {
        Rgba32 {
            r: expand4((p.r / 16) as int) as u8,
            g: expand4((p.g / 16) as int) as u8,
            b: expand4((p.b / 16) as int) as u8,
            a: expand4((p.a / 16) as int) as u8,
        }
    } else {
        Rgba32 {
            r: expand5((p.r / 8) as int) as u8,
            g: expand5((p.g / 8) as int) as u8,
            b: expand5((p.b / 8) as int) as u8,
            a: if p.a > 0 { 255 } else { 0 },
        }
    }
}

/// Unpacking a packed colour gives back its requantized form.
pub proof fn lemma_unpack_pack16(kind: int, p: Rgba32)
    requires
        0 <= kind <= 2,
    ensures
        px16(kind, pack16(kind, p)) == requantize(kind, p),
{
    let v = pack16(kind, p);
    if kind == 0 {
        let (r, g, b) = (p.r / 8, p.g / 4, p.b / 8);
        lemma_fundamental_div_mod_converse(v, 2048, r as int, g * 32 + b);
        lemma_fundamental_div_mod_converse(v, 32, r * 64 + g, b as int);
        lemma_fundamental_div_mod_converse(r * 64 + g, 64, r as int, g as int);
    } else if kind == 1 {
        let (r, g, b, a) = (p.r / 16, p.g / 16, p.b / 16, p.a / 16);
        lemma_fundamental_div_mod_converse(v, 4096, r as int, g * 256 + b * 16 + a);
        lemma_fundamental_div_mod_converse(v, 256, r * 16 + g, b * 16 + a);
        lemma_fundamental_div_mod_converse(r * 16 + g, 16, r as int, g as int);
        lemma_fundamental_div_mod_converse(v, 16, r * 256 + g * 16 + b, a as int);
        lemma_fundamental_div_mod_converse(r * 256 + g * 16 + b, 16, r * 16 + g, b as int);
    } else {
        let (r, g, b) = (p.r / 8, p.g / 8, p.b / 8);
        let a: int = if p.a > 0 { 1 } else { 0 };
        lemma_fundamental_div_mod_converse(v, 2048, r as int, g * 64 + b * 2 + a);
        lemma_fundamental_div_mod_converse(v, 64, r * 32 + g, b * 2 + a);
        lemma_fundamental_div_mod_converse(r * 32 + g, 32, r as int, g as int);
        lemma_fundamental_div_mod_converse(v, 2, r * 1024 + g * 32 + b, a);
        lemma_fundamental_div_mod_converse(r * 1024 + g * 32 + b, 32, r * 32 + g, b as int);
    }
}

/// RGBA8888 data written by the encoder reads back as the same image
/// (with the default, non-PowerVR channel order).
pub proof fn lemma_rgba8888_roundtrip(img: RgbaImage, data: Seq<u8>, alpha_format: Option<i32>)
    requires
        img.wf(),
        encoded(data, img, PtxFormat::Rgba8888),
    ensures
        decode_error(data.len() as int, img.width as int, img.height as int, 0) is None,
        forall|x: int, y: int| 0 <= x < img.width && 0 <= y < img.height
            ==> #[trigger] decoded_pixel(data, img.width as int, img.height as int, 0, alpha_format, false, x, y)
                == img.pixels()[y * img.width + x],
{
    assert(4 * img.width * img.height == 4 * (img.width * img.height)) by (nonlinear_arith);
    assert forall|x: int, y: int| 0 <= x < img.width && 0 <= y < img.height
        implies #[trigger] decoded_pixel(data, img.width as int, img.height as int, 0, alpha_format, false, x, y)
            == img.pixels()[y * img.width + x] by {
        assert(0 <= y * img.width + x < img.width * img.height) by (nonlinear_arith)
            requires 0 <= x < img.width, 0 <= y < img.height;
    }
}

/// The numeric code of a 16-bit row-major layout.
pub open spec fn linear16_code(kind: int) -> i32 {
    if kind == 0 { 2 } else if kind == 1 { 1 } else { 3 }
}

/// The format of a 16-bit row-major layout.
pub open spec fn linear16_format(kind: int) -> PtxFormat {
    if kind == 0 { PtxFormat::Rgb565 } else if kind == 1 { PtxFormat::Rgba4444 } else { PtxFormat::Rgba5551 }
}

/// Data written in a 16-bit row-major layout reads back as the requantized image.
pub proof fn lemma_linear16_roundtrip(img: RgbaImage, kind: int, data: Seq<u8>, alpha_format: Option<i32>, powervr: bool)
    requires
        img.wf(),
        0 <= kind <= 2,
        encoded(data, img, linear16_format(kind)),
    ensures
        decode_error(data.len() as int, img.width as int, img.height as int, linear16_code(kind)) is None,
        forall|x: int, y: int| 0 <= x < img.width && 0 <= y < img.height
            ==> #[trigger] decoded_pixel(data, img.width as int, img.height as int, linear16_code(kind), alpha_format, powervr, x, y)
                == requantize(kind, img.pixels()[y * img.width + x]),
{
    assert(2 * img.width * img.height == 2 * (img.width * img.height)) by (nonlinear_arith);
    assert forall|x: int, y: int| 0 <= x < img.width && 0 <= y < img.height
        implies #[trigger] decoded_pixel(data, img.width as int, img.height as int, linear16_code(kind), alpha_format, powervr, x, y)
            == requantize(kind, img.pixels()[y * img.width + x]) by {
        assert(0 <= y * img.width + x < img.width * img.height) by (nonlinear_arith)
            requires 0 <= x < img.width, 0 <= y < img.height;
        lemma_unpack_pack16(kind, img.pixels()[y * img.width + x]);
    }
}

/// The numeric code of a 16-bit tiled layout.
pub open spec fn block16_code(kind: int) -> i32 {
    if kind == 0 { 22 } else if kind == 1 { 21 } else { 23 }
}

/// The format of a 16-bit tiled layout.
pub open spec fn block16_format(kind: int) -> PtxFormat {
    if kind == 0 {
        PtxFormat::Rgb565Block
    } else if kind == 1 {
        PtxFormat::Rgba4444Block
    } else {
        PtxFormat::Rgba5551Block
    }
}

/// Pixel `(x, y)` of the tiled layout sits at slot `tile_offset / 2`, and
/// that slot maps back to `(x, y)`.
proof fn lemma_tile_slot_of(width: int, height: int, x: int, y: int)
    requires
        0 <= x < width,
        0 <= y < height,
    ensures
        tile_offset(width, x, y) % 2 == 0,
        0 <= tile_offset(width, x, y) / 2 < tiles_x(width) * tiles_y(height) * 1024,
        tile_x(width, tile_offset(width, x, y) / 2) == x,
        tile_y(width, tile_offset(width, x, y) / 2) == y,
{
    let tx = tiles_x(width);
    let ty = tiles_y(height);
    let a = (y / 32) * tx + x / 32;
    let m = (y % 32) * 32 + x % 32;
    let k = a * 1024 + m;
    assert(tile_offset(width, x, y) == 2 * k);
    assert(0 <= m < 1024);
    assert(x / 32 < tx);
    assert(y / 32 < ty);
    assert(0 <= a) by (nonlinear_arith) requires a == (y / 32) * tx + x / 32, 0 <= y / 32, 0 <= x / 32, 0 <= tx;
    lemma_fundamental_div_mod_converse(k, 1024, a, m);
    lemma_fundamental_div_mod_converse(a, tx, y / 32, x / 32);
    lemma_fundamental_div_mod_converse(m, 32, y % 32, x % 32);
    let qy = y / 32;
    let rx = x / 32;
    assert(a + 1 <= tx * ty) by (nonlinear_arith)
        requires a == qy * tx + rx, 0 <= qy < ty, 0 <= rx < tx;
}

/// Data written in a 16-bit tiled layout covers the image and reads back as
/// the requantized image.
pub proof fn lemma_tiled16_roundtrip(img: RgbaImage, kind: int, data: Seq<u8>, alpha_format: Option<i32>, powervr: bool)
    requires
        img.wf(),
        0 <= kind <= 2,
        encoded(data, img, block16_format(kind)),
    ensures
        decode_error(data.len() as int, img.width as int, img.height as int, block16_code(kind)) is None,
        tiles_cover(data.len() as int, img.width as int, img.height as int),
        forall|x: int, y: int| 0 <= x < img.width && 0 <= y < img.height
            ==> #[trigger] decoded_pixel(data, img.width as int, img.height as int, block16_code(kind), alpha_format, powervr, x, y)
                == requantize(kind, img.pixels()[y * img.width + x]),
{
    let w = img.width as int;
    let h = img.height as int;
    let tx = tiles_x(w);
    let ty = tiles_y(h);
    assert(w <= tx * 32 && h <= ty * 32);
    assert(w * h <= tx * ty * 1024) by (nonlinear_arith)
        requires w <= tx * 32, h <= ty * 32, 0 <= w, 0 <= h;
    assert(2 * img.width * img.height == 2 * (w * h)) by (nonlinear_arith) requires w == img.width, h == img.height;
    if w * h != 0 {
        assert(w > 0 && h > 0) by (nonlinear_arith) requires w * h != 0, w >= 0, h >= 0;
        lemma_tile_slot_of(w, h, w - 1, h - 1);
    }
    assert forall|x: int, y: int| 0 <= x < img.width && 0 <= y < img.height
        implies #[trigger] decoded_pixel(data, w, h, block16_code(kind), alpha_format, powervr, x, y)
            == requantize(kind, img.pixels()[y * img.width + x]) by {
        lemma_tile_slot_of(w, h, x, y);
        let k = tile_offset(w, x, y) / 2;
        assert(le16(data, 2 * k) == pack16(kind, img.pixels()[tile_y(w, k) * w + tile_x(w, k)]));
        lemma_unpack_pack16(kind, img.pixels()[y * img.width + x]);
    }
}

/// The eight big-endian bytes of a word read back as the word.
pub proof fn lemma_be64_roundtrip(v: u64)
    ensures
        be64(be64_bytes(v), 0) == v,
{
    assert(((v / 0x100_0000_0000_0000 % 0x100) as u8) * 0x100_0000_0000_0000
        + ((v / 0x1_0000_0000_0000 % 0x100) as u8) * 0x1_0000_0000_0000
        + ((v / 0x100_0000_0000 % 0x100) as u8) * 0x100_0000_0000
        + ((v / 0x1_0000_0000 % 0x100) as u8) * 0x1_0000_0000
        + ((v / 0x100_0000 % 0x100) as u8) * 0x100_0000
        + ((v / 0x1_0000 % 0x100) as u8) * 0x1_0000
        + ((v / 0x100 % 0x100) as u8) * 0x100
        + ((v % 0x100) as u8) == v) by (bit_vector);
}

/// An image whose sides are multiples of four, written as ETC1 with a raw
/// alpha plane, reads back as format 147 (with no alpha format given) with
/// each pixel's alpha kept and its colour the texel, at that pixel's place
/// in its block, of the word the encoder chose for the block.
pub proof fn lemma_etc1a8_roundtrip(img: RgbaImage, data: Seq<u8>, powervr: bool)
    requires
        img.wf(),
        img.width % 4 == 0,
        img.height % 4 == 0,
        img.width * img.height <= u32::MAX,
        encoded(data, img, PtxFormat::Etc1A8),
    ensures
        decode_error(data.len() as int, img.width as int, img.height as int, 147) is None,
        forall|x: int, y: int| 0 <= x < img.width && 0 <= y < img.height
            ==> #[trigger] decoded_pixel(data, img.width as int, img.height as int, 147, None, powervr, x, y)
                == with_alpha(
                    etc1_texel(block_word(img.pixels(), img.width as int, (y / 4) * (img.width / 4) + x / 4), (x % 4) * 4 + y % 4),
                    img.pixels()[y * img.width + x].a,
                ),
{
    let w = img.width as int;
    let h = img.height as int;
    let bw = w / 4;
    let bh = h / 4;
    assert(w == 4 * bw && h == 4 * bh);
    assert(w * h == 16 * (bw * bh)) by (nonlinear_arith) requires w == 4 * bw, h == 4 * bh;
    assert(etc1_blocks(w, h) == bw * bh);
    let opaque = (w * h) / 2;
    assert(opaque == 8 * (bw * bh));
    assert(img.pixels().len() == w * h);
    assert(alphas(img.pixels()).len() == w * h);
    assert(data.len() >= opaque);
    assert(data.skip(opaque).len() == data.len() - opaque);
    assert(data.len() == opaque + w * h);
    assert forall|x: int, y: int| 0 <= x < img.width && 0 <= y < img.height
        implies #[trigger] decoded_pixel(data, w, h, 147, None, powervr, x, y)
            == with_alpha(
                etc1_texel(block_word(img.pixels(), w, (y / 4) * (w / 4) + x / 4), (x % 4) * 4 + y % 4),
                img.pixels()[y * img.width + x].a,
            ) by {
        let b = (y / 4) * bw + x / 4;
        let qy = y / 4;
        let rx = x / 4;
        assert(0 <= b && b + 1 <= bw * bh) by (nonlinear_arith)
            requires b == qy * bw + rx, 0 <= qy < bh, 0 <= rx < bw;
        let word = block_word(img.pixels(), w, b);
        assert(data.subrange(8 * b, 8 * b + 8) == be64_bytes(word));
        assert forall|j: int| 0 <= j < 8 implies data[8 * b + j] == #[trigger] be64_bytes(word)[j] by {
            assert(data[8 * b + j] == data.subrange(8 * b, 8 * b + 8)[j]);
        }
        lemma_be64_roundtrip(word);
        assert(be64(data, 8 * b) == be64(be64_bytes(word), 0));
        let i = y * w + x;
        assert(0 <= i < w * h) by (nonlinear_arith)
            requires 0 <= x < w, 0 <= y < h, i == y * w + x;
        assert(data[opaque + i] == data.skip(opaque)[i]);
        assert(data.skip(opaque)[i] == alphas(img.pixels())[i]);
    }
}

/// What the PVRTC encoder writes has the size the decoder reads for the
/// image: decoding it with the PVRTC code that names no alpha plane
/// (148, which no other format shares) does not fail.
pub proof fn lemma_pvrtc_encoding_decodes(img: RgbaImage, data: Seq<u8>)
    requires
        img.wf(),
        encoded(data, img, PtxFormat::Pvrtc4BppRgbaA8),
    ensures
        decode_error(data.len() as int, img.width as int, img.height as int, 148) is None,
{
}

} // verus!
