//! PAM animations (magic `0xBAF01954`, versions 1 to 6): a header, the
//! images the animation draws, its sprites and its main sprite. Each sprite
//! is a run of frames; a frame removes, adds and moves layers. Fixed-point
//! values are kept as the integers the file stores: positions and sizes in
//! twentieths of a pixel, rates and time scales in 16.16, matrices in 16.16
//! (moves) or over 1310720 (images), rotations in thousandths of a radian.
use vstd::prelude::*;
use vstd::utf8::{decode_utf8, encode_utf8, valid_utf8};
use crate::bytes::{as_i32, le16, le32, le16_bytes, le32_bytes};
use crate::text::utf8_lossy;
use crate::bytes::{read_le32, read_le_i32};
use crate::pam_read::read_body;
use crate::pam_write::write_pam;

verus! {

/// The magic number that opens a PAM file.
pub const PAM_MAGIC: u32 = 0xBAF01954;

/// A layer that leaves the stage.
#[derive(Debug, Clone, Copy, PartialEq, Eq)]
pub struct RemovesInfo {
    pub index: i32,
}

/// A layer that enters the stage.
#[derive(Debug, Clone, PartialEq, Eq)]
pub struct AddsInfo {
    pub index: i32,
    pub name: Option<String>,
    pub resource: i32,
    pub sprite: bool,
    pub additive: bool,
    pub preload_frame: i32,
    /// The time scale in 16.16 fixed point, when the file states one
    /// (absent, it is 1).
    pub time_scale: Option<i32>,
}

/// The linear part of a move: none, a rotation (thousandths of a radian),
/// or a 16.16 matrix `a, b, c, d`.
#[derive(Debug, Clone, Copy, PartialEq, Eq)]
pub enum MoveTransform {
    Translate,
    Rotate(i16),
    Matrix(i32, i32, i32, i32),
}

/// A change of a layer: its transform, its translation (in twentieths of a
/// pixel) and what else the frame sets.
#[derive(Debug, Clone, Copy, PartialEq, Eq)]
pub struct MovesInfo {
    pub index: i32,
    pub transform: MoveTransform,
    pub x: i32,
    pub y: i32,
    /// Red, green, blue and alpha, out of 255.
    pub color: Option<(u8, u8, u8, u8)>,
    pub source_rectangle: Option<(i32, i32, i32, i32)>,
    pub sprite_frame_number: i32,
}

/// A frame of a sprite.
#[derive(Debug, Clone, PartialEq, Eq)]
pub struct FrameInfo {
    pub label: Option<String>,
    pub stop: bool,
    pub command: Vec<(String, String)>,
    pub remove: Vec<RemovesInfo>,
    pub append: Vec<AddsInfo>,
    pub change: Vec<MovesInfo>,
}

/// A sprite: its frames, and its rate in 16.16 frames per second.
#[derive(Debug, PartialEq, Eq)]
pub struct SpriteInfo {
    pub name: Option<String>,
    pub description: Option<String>,
    pub frame_rate: i32,
    pub work_area: (i32, i32),
    pub frame: Vec<FrameInfo>,
}

/// The placement of an image: a rotation (version 1, thousandths of a
/// radian) or a matrix `a, b, c, d` over 1310720.
#[derive(Debug, Clone, Copy, PartialEq, Eq)]
pub enum ImageTransform {
    Rotation(u16),
    Matrix(i32, i32, i32, i32),
}

/// An image the animation draws.
#[derive(Debug, PartialEq, Eq)]
pub struct ImageInfo {
    pub name: String,
    pub size: (i32, i32),
    pub transform: ImageTransform,
    /// The offset, in twentieths of a pixel.
    pub x: i16,
    pub y: i16,
}

/// A PAM animation.
#[derive(Debug, PartialEq, Eq)]
pub struct PamInfo {
    pub version: i32,
    pub frame_rate: i32,
    pub position: (u16, u16),
    pub size: (u16, u16),
    pub image: Vec<ImageInfo>,
    pub sprite: Vec<SpriteInfo>,
    pub main_sprite: SpriteInfo,
}

/// Errors of reading a PAM file.
#[derive(Debug, Clone, PartialEq, Eq)]
pub enum PamError {
    InvalidMagic(u32),
    VersionOutOfRange(i32),
    /// The data ends inside a value that is read.
    UnexpectedEnd,
}

// ─── Views ──────────────────────────────────────────────────────────────────

/// The characters of an optional string.
pub open spec fn opt_str(s: Option<String>) -> Option<Seq<char>> {
    match s {
        Some(t) => Some(t@),
        None => None,
    }
}

pub struct AddsView {
    pub index: i32,
    pub name: Option<Seq<char>>,
    pub resource: i32,
    pub sprite: bool,
    pub additive: bool,
    pub preload_frame: i32,
    pub time_scale: Option<i32>,
}

impl View for AddsInfo {
    type V = AddsView;

    open spec fn view(&self) -> AddsView {
        AddsView {
            index: self.index,
            name: opt_str(self.name),
            resource: self.resource,
            sprite: self.sprite,
            additive: self.additive,
            preload_frame: self.preload_frame,
            time_scale: self.time_scale,
        }
    }
}

pub struct FrameView {
    pub label: Option<Seq<char>>,
    pub stop: bool,
    pub command: Seq<(Seq<char>, Seq<char>)>,
    pub remove: Seq<RemovesInfo>,
    pub append: Seq<AddsView>,
    pub change: Seq<MovesInfo>,
}

/// The characters of a command's two strings.
pub open spec fn command_view(c: (String, String)) -> (Seq<char>, Seq<char>) {
    (c.0@, c.1@)
}

pub open spec fn adds_view(a: AddsInfo) -> AddsView {
    a@
}

pub open spec fn adds_views(s: Seq<AddsInfo>) -> Seq<AddsView> {
    s.map_values(|a: AddsInfo| adds_view(a))
}

pub open spec fn command_views(s: Seq<(String, String)>) -> Seq<(Seq<char>, Seq<char>)> {
    s.map_values(|c: (String, String)| command_view(c))
}

impl View for FrameInfo {
    type V = FrameView;

    open spec fn view(&self) -> FrameView {
        FrameView {
            label: opt_str(self.label),
            stop: self.stop,
            command: command_views(self.command@),
            remove: self.remove@,
            append: adds_views(self.append@),
            change: self.change@,
        }
    }
}

pub struct SpriteView {
    pub name: Option<Seq<char>>,
    pub description: Option<Seq<char>>,
    pub frame_rate: i32,
    pub work_area: (i32, i32),
    pub frame: Seq<FrameView>,
}

pub open spec fn frame_view(f: FrameInfo) -> FrameView {
    f@
}

pub open spec fn frame_views(s: Seq<FrameInfo>) -> Seq<FrameView> {
    s.map_values(|f: FrameInfo| frame_view(f))
}

impl View for SpriteInfo {
    type V = SpriteView;

    open spec fn view(&self) -> SpriteView {
        SpriteView {
            name: opt_str(self.name),
            description: opt_str(self.description),
            frame_rate: self.frame_rate,
            work_area: self.work_area,
            frame: frame_views(self.frame@),
        }
    }
}

pub struct ImageView {
    pub name: Seq<char>,
    pub size: (i32, i32),
    pub transform: ImageTransform,
    pub x: i16,
    pub y: i16,
}

impl View for ImageInfo {
    type V = ImageView;

    open spec fn view(&self) -> ImageView {
        ImageView { name: self.name@, size: self.size, transform: self.transform, x: self.x, y: self.y }
    }
}

pub struct PamView {
    pub version: i32,
    pub frame_rate: i32,
    pub position: (u16, u16),
    pub size: (u16, u16),
    pub image: Seq<ImageView>,
    pub sprite: Seq<SpriteView>,
    pub main_sprite: SpriteView,
}

pub open spec fn image_view(i: ImageInfo) -> ImageView {
    i@
}

pub open spec fn sprite_view(s: SpriteInfo) -> SpriteView {
    s@
}

pub open spec fn image_views(s: Seq<ImageInfo>) -> Seq<ImageView> {
    s.map_values(|i: ImageInfo| image_view(i))
}

pub open spec fn sprite_views(s: Seq<SpriteInfo>) -> Seq<SpriteView> {
    s.map_values(|t: SpriteInfo| sprite_view(t))
}

impl View for PamInfo {
    type V = PamView;

    open spec fn view(&self) -> PamView {
        PamView {
            version: self.version,
            frame_rate: self.frame_rate,
            position: self.position,
            size: self.size,
            image: image_views(self.image@),
            sprite: sprite_views(self.sprite@),
            main_sprite: self.main_sprite@,
        }
    }
}

// ─── Reading ────────────────────────────────────────────────────────────────
//
// Each reader takes the data and a position, and gives what it reads with
// the position after it, or `None` where the data ends first.

/// The signed reading of a 16-bit pattern.
pub open spec fn as_i16(u: int) -> int {
    if u >= 0x8000 { u - 0x1_0000 } else { u }
}

pub open spec fn u8_at(d: Seq<u8>, p: int) -> Option<(u8, int)> {
    if 0 <= p < d.len() { Some((d[p], p + 1)) } else { None }
}

pub open spec fn u16_at(d: Seq<u8>, p: int) -> Option<(u16, int)> {
    if 0 <= p && p + 2 <= d.len() { Some((le16(d, p) as u16, p + 2)) } else { None }
}

pub open spec fn i16_at(d: Seq<u8>, p: int) -> Option<(i16, int)> {
    if 0 <= p && p + 2 <= d.len() { Some((as_i16(le16(d, p)) as i16, p + 2)) } else { None }
}

pub open spec fn i32_at(d: Seq<u8>, p: int) -> Option<(i32, int)> {
    if 0 <= p && p + 4 <= d.len() { Some((as_i32(le32(d, p)) as i32, p + 4)) } else { None }
}

/// The text of bytes read as by `String::from_utf8_lossy`: the characters
/// they encode when they are valid UTF-8.
pub open spec fn lossy_text(b: Seq<u8>) -> Seq<char> {
    if valid_utf8(b) { decode_utf8(b) } else { utf8_lossy(b) }
}

/// A string after its 16-bit byte length.
pub open spec fn str_at(d: Seq<u8>, p: int) -> Option<(Seq<char>, int)> {
    match u16_at(d, p) {
        Some((n, q)) => if q + n <= d.len() {
            Some((lossy_text(d.subrange(q, q + n)), q + n))
        } else {
            None
        },
        None => None,
    }
}

/// A count: one byte, or 255 and then a 16-bit count.
pub open spec fn count_at(d: Seq<u8>, p: int) -> Option<(nat, int)> {
    match u8_at(d, p) {
        Some((c, q)) => if c == 255 {
            match u16_at(d, q) {
                Some((n, r)) => Some((n as nat, r)),
                None => None,
            }
        } else {
            Some((c as nat, q))
        },
        None => None,
    }
}

/// `n` items read one after the other.
#[verifier::opaque]
pub open spec fn list_at<A>(d: Seq<u8>, p: int, n: nat, item: spec_fn(Seq<u8>, int) -> Option<(A, int)>) -> Option<(Seq<A>, int)>
    decreases n,
{
    if n == 0 {
        Some((Seq::empty(), p))
    } else {
        match list_at(d, p, (n - 1) as nat, item) {
            Some((xs, q)) => match item(d, q) {
                Some((x, r)) => Some((xs.push(x), r)),
                None => None,
            },
            None => None,
        }
    }
}

/// A counted list, or nothing when the section is absent.
pub open spec fn section_at<A>(d: Seq<u8>, p: int, present: bool, item: spec_fn(Seq<u8>, int) -> Option<(A, int)>) -> Option<(Seq<A>, int)> {
    if present {
        match count_at(d, p) {
            Some((n, q)) => list_at(d, q, n, item),
            None => None,
        }
    } else {
        Some((Seq::empty(), p))
    }
}

pub open spec fn removes_at(d: Seq<u8>, p: int) -> Option<(RemovesInfo, int)> {
    match u16_at(d, p) {
        Some((v, q)) => if v >= 2047 {
            match i32_at(d, q) {
                Some((w, r)) => Some((RemovesInfo { index: w }, r)),
                None => None,
            }
        } else {
            Some((RemovesInfo { index: v as i32 }, q))
        },
        None => None,
    }
}

/// The index of an added layer: the low 11 bits of its word, or a 32-bit
/// index after it when they are all set.
pub open spec fn add_index_at(d: Seq<u8>, num: u16, q: int) -> Option<(i32, int)> {
    if num & 2047 == 2047 { i32_at(d, q) } else { Some(((num & 2047) as i32, q)) }
}

/// The resource of an added layer: one byte, or from version 6 on, 255 and
/// then a 16-bit resource.
pub open spec fn add_resource_at(d: Seq<u8>, version: i32, q: int) -> Option<(i32, int)> {
    match u8_at(d, q) {
        Some((r, s)) => if version >= 6 && r == 255 {
            match u16_at(d, s) {
                Some((w, t)) => Some((w as i32, t)),
                None => None,
            }
        } else {
            Some((r as i32, s))
        },
        None => None,
    }
}

pub open spec fn add_preload_at(d: Seq<u8>, num: u16, q: int) -> Option<(i32, int)> {
    if num & 8192 != 0 {
        match u16_at(d, q) {
            Some((w, r)) => Some((w as i32, r)),
            None => None,
        }
    } else {
        Some((0, q))
    }
}

pub open spec fn add_name_at(d: Seq<u8>, num: u16, q: int) -> Option<(Option<Seq<char>>, int)> {
    if num & 4096 != 0 {
        match str_at(d, q) {
            Some((s, r)) => Some((Some(s), r)),
            None => None,
        }
    } else {
        Some((None, q))
    }
}

pub open spec fn add_scale_at(d: Seq<u8>, num: u16, q: int) -> Option<(Option<i32>, int)> {
    if num & 2048 != 0 {
        match i32_at(d, q) {
            Some((w, r)) => Some((Some(w), r)),
            None => None,
        }
    } else {
        Some((None, q))
    }
}

pub open spec fn adds_at(d: Seq<u8>, p: int, version: i32) -> Option<(AddsView, int)> {
    match u16_at(d, p) {
        Some((num, q0)) => match add_index_at(d, num, q0) {
            Some((index, q1)) => match add_resource_at(d, version, q1) {
                Some((resource, q2)) => match add_preload_at(d, num, q2) {
                    Some((preload_frame, q3)) => match add_name_at(d, num, q3) {
                        Some((name, q4)) => match add_scale_at(d, num, q4) {
                            Some((time_scale, q5)) => Some((
                                AddsView {
                                    index,
                                    name,
                                    resource,
                                    sprite: num & 32768 != 0,
                                    additive: num & 16384 != 0,
                                    preload_frame,
                                    time_scale,
                                },
                                q5,
                            )),
                            None => None,
                        },
                        None => None,
                    },
                    None => None,
                },
                None => None,
            },
            None => None,
        },
        None => None,
    }
}

pub open spec fn move_index_at(d: Seq<u8>, num: u16, q: int) -> Option<(i32, int)> {
    if num & 1023 == 1023 { i32_at(d, q) } else { Some(((num & 1023) as i32, q)) }
}

/// The signed 32-bit value at `o`.
pub open spec fn i32v(d: Seq<u8>, o: int) -> i32 {
    as_i32(le32(d, o)) as i32
}

/// The signed 16-bit value at `o`.
pub open spec fn i16v(d: Seq<u8>, o: int) -> i16 {
    as_i16(le16(d, o)) as i16
}

/// A matrix stored `a, c, b, d`.
pub open spec fn matrix_at(d: Seq<u8>, q: int) -> Option<((i32, i32, i32, i32), int)> {
    if 0 <= q && q + 16 <= d.len() {
        Some(((i32v(d, q), i32v(d, q + 8), i32v(d, q + 4), i32v(d, q + 12)), q + 16))
    } else {
        None
    }
}

pub open spec fn move_transform_at(d: Seq<u8>, num: u16, q: int) -> Option<(MoveTransform, int)> {
    if num & 4096 != 0 {
        match matrix_at(d, q) {
            Some((m, r)) => Some((MoveTransform::Matrix(m.0, m.1, m.2, m.3), r)),
            None => None,
        }
    } else if num & 16384 != 0 {
        match i16_at(d, q) {
            Some((a, r)) => Some((MoveTransform::Rotate(a), r)),
            None => None,
        }
    } else {
        Some((MoveTransform::Translate, q))
    }
}

/// The translation: two 32-bit values with the long-coordinates bit, else
/// two 16-bit values.
pub open spec fn move_coords_at(d: Seq<u8>, num: u16, q: int) -> Option<((i32, i32), int)> {
    if num & 2048 != 0 {
        if 0 <= q && q + 8 <= d.len() { Some(((i32v(d, q), i32v(d, q + 4)), q + 8)) } else { None }
    } else {
        if 0 <= q && q + 4 <= d.len() { Some(((i16v(d, q) as i32, i16v(d, q + 2) as i32), q + 4)) } else { None }
    }
}

/// `v / 20`, rounded toward zero.
pub open spec fn div20(v: int) -> int {
    if v >= 0 { v / 20 } else { -((-v) / 20) }
}

pub open spec fn move_rect_at(d: Seq<u8>, num: u16, q: int) -> Option<(Option<(i32, i32, i32, i32)>, int)> {
    if num & 32768 != 0 {
        if 0 <= q && q + 8 <= d.len() {
            Some((
                Some((
                    div20(i16v(d, q) as int) as i32,
                    div20(i16v(d, q + 2) as int) as i32,
                    div20(i16v(d, q + 4) as int) as i32,
                    div20(i16v(d, q + 6) as int) as i32,
                )),
                q + 8,
            ))
        } else {
            None
        }
    } else {
        Some((None, q))
    }
}

pub open spec fn move_color_at(d: Seq<u8>, num: u16, q: int) -> Option<(Option<(u8, u8, u8, u8)>, int)> {
    if num & 8192 != 0 {
        if 0 <= q && q + 4 <= d.len() { Some((Some((d[q], d[q + 1], d[q + 2], d[q + 3])), q + 4)) } else { None }
    } else {
        Some((None, q))
    }
}

pub open spec fn move_frame_at(d: Seq<u8>, num: u16, q: int) -> Option<(i32, int)> {
    if num & 1024 != 0 {
        match u16_at(d, q) {
            Some((w, r)) => Some((w as i32, r)),
            None => None,
        }
    } else {
        Some((0, q))
    }
}

pub open spec fn moves_at(d: Seq<u8>, p: int) -> Option<(MovesInfo, int)> {
    match u16_at(d, p) {
        Some((num, q0)) => match move_index_at(d, num, q0) {
            Some((index, q1)) => match move_transform_at(d, num, q1) {
                Some((transform, q2)) => match move_coords_at(d, num, q2) {
                    Some((xy, q3)) => match move_rect_at(d, num, q3) {
                        Some((source_rectangle, q4)) => match move_color_at(d, num, q4) {
                            Some((color, q5)) => match move_frame_at(d, num, q5) {
                                Some((sprite_frame_number, q6)) => Some((
                                    MovesInfo {
                                        index,
                                        transform,
                                        x: xy.0,
                                        y: xy.1,
                                        color,
                                        source_rectangle,
                                        sprite_frame_number,
                                    },
                                    q6,
                                )),
                                None => None,
                            },
                            None => None,
                        },
                        None => None,
                    },
                    None => None,
                },
                None => None,
            },
            None => None,
        },
        None => None,
    }
}

pub open spec fn command_at(d: Seq<u8>, p: int) -> Option<((Seq<char>, Seq<char>), int)> {
    match str_at(d, p) {
        Some((a, q)) => match str_at(d, q) {
            Some((b, r)) => Some(((a, b), r)),
            None => None,
        },
        None => None,
    }
}

pub open spec fn removes_fn() -> spec_fn(Seq<u8>, int) -> Option<(RemovesInfo, int)> {
    |d: Seq<u8>, p: int| removes_at(d, p)
}

pub open spec fn adds_fn(version: i32) -> spec_fn(Seq<u8>, int) -> Option<(AddsView, int)> {
    |d: Seq<u8>, p: int| adds_at(d, p, version)
}

pub open spec fn moves_fn() -> spec_fn(Seq<u8>, int) -> Option<(MovesInfo, int)> {
    |d: Seq<u8>, p: int| moves_at(d, p)
}

pub open spec fn command_fn() -> spec_fn(Seq<u8>, int) -> Option<((Seq<char>, Seq<char>), int)> {
    |d: Seq<u8>, p: int| command_at(d, p)
}

pub open spec fn label_at(d: Seq<u8>, present: bool, q: int) -> Option<(Option<Seq<char>>, int)> {
    if present {
        match str_at(d, q) {
            Some((s, r)) => Some((Some(s), r)),
            None => None,
        }
    } else {
        Some((None, q))
    }
}

/// The commands of a frame: a one-byte count, then pairs of strings.
pub open spec fn commands_at(d: Seq<u8>, present: bool, q: int) -> Option<(Seq<(Seq<char>, Seq<char>)>, int)> {
    if present {
        match u8_at(d, q) {
            Some((n, r)) => list_at(d, r, n as nat, command_fn()),
            None => None,
        }
    } else {
        Some((Seq::empty(), q))
    }
}

/// A frame: a flag byte (removes 1, adds 2, moves 4, label 8, stop 16,
/// commands 32; other bits are ignored), then the sections it announces.
pub open spec fn frame_at(d: Seq<u8>, p: int, version: i32) -> Option<(FrameView, int)> {
    match u8_at(d, p) {
        Some((f, q0)) => match section_at(d, q0, f & 1 != 0, removes_fn()) {
            Some((remove, q1)) => match section_at(d, q1, f & 2 != 0, adds_fn(version)) {
                Some((append, q2)) => match section_at(d, q2, f & 4 != 0, moves_fn()) {
                    Some((change, q3)) => match label_at(d, f & 8 != 0, q3) {
                        Some((label, q4)) => match commands_at(d, f & 32 != 0, q4) {
                            Some((command, q5)) => Some((
                                FrameView { label, stop: f & 16 != 0, command, remove, append, change },
                                q5,
                            )),
                            None => None,
                        },
                        None => None,
                    },
                    None => None,
                },
                None => None,
            },
            None => None,
        },
        None => None,
    }
}

pub open spec fn frame_fn(version: i32) -> spec_fn(Seq<u8>, int) -> Option<(FrameView, int)> {
    |d: Seq<u8>, p: int| frame_at(d, p, version)
}

/// The head of a sprite: from version 4 on its name, from version 6 on its
/// description, and its 16.16 rate; before version 4, the animation's rate.
pub open spec fn sprite_head_at(d: Seq<u8>, p: int, version: i32, rate: u8) -> Option<((Option<Seq<char>>, Option<Seq<char>>, i32), int)> {
    if version >= 4 {
        match str_at(d, p) {
            Some((name, q)) => if version >= 6 {
                match str_at(d, q) {
                    Some((desc, r)) => match i32_at(d, r) {
                        Some((fr, s)) => Some(((Some(name), Some(desc), fr), s)),
                        None => None,
                    },
                    None => None,
                }
            } else {
                match i32_at(d, q) {
                    Some((fr, s)) => Some(((Some(name), None, fr), s)),
                    None => None,
                }
            },
            None => None,
        }
    } else {
        Some(((None, None, (rate as int * 0x1_0000) as i32), p))
    }
}

/// The frame count, then from version 5 on the work area's start and a
/// 16-bit value that is skipped; the work area ends at the frame count.
pub open spec fn sprite_span_at(d: Seq<u8>, q: int, version: i32) -> Option<((u16, i32), int)> {
    match u16_at(d, q) {
        Some((n, r)) => if version >= 5 {
            if r + 4 <= d.len() { Some(((n, le16(d, r) as i32), r + 4)) } else { None }
        } else {
            Some(((n, 0), r))
        },
        None => None,
    }
}

pub open spec fn sprite_at(d: Seq<u8>, p: int, version: i32, rate: u8) -> Option<(SpriteView, int)> {
    match sprite_head_at(d, p, version, rate) {
        Some((head, q)) => match sprite_span_at(d, q, version) {
            Some((span, r)) => match list_at(d, r, span.0 as nat, frame_fn(version)) {
                Some((frame, s)) => Some((
                    SpriteView {
                        name: head.0,
                        description: head.1,
                        frame_rate: head.2,
                        work_area: (span.1, span.0 as i32),
                        frame,
                    },
                    s,
                )),
                None => None,
            },
            None => None,
        },
        None => None,
    }
}

pub open spec fn sprite_fn(version: i32, rate: u8) -> spec_fn(Seq<u8>, int) -> Option<(SpriteView, int)> {
    |d: Seq<u8>, p: int| sprite_at(d, p, version, rate)
}

/// The size of an image: two 16-bit values from version 4 on, else `-1, -1`.
pub open spec fn image_size_at(d: Seq<u8>, q: int, version: i32) -> Option<((i32, i32), int)> {
    if version >= 4 {
        if 0 <= q && q + 4 <= d.len() { Some(((le16(d, q) as i32, le16(d, q + 2) as i32), q + 4)) } else { None }
    } else {
        Some(((-1i32, -1i32), q))
    }
}

pub open spec fn image_transform_at(d: Seq<u8>, q: int, version: i32) -> Option<(ImageTransform, int)> {
    if version == 1 {
        match u16_at(d, q) {
            Some((a, r)) => Some((ImageTransform::Rotation(a), r)),
            None => None,
        }
    } else {
        match matrix_at(d, q) {
            Some((m, r)) => Some((ImageTransform::Matrix(m.0, m.1, m.2, m.3), r)),
            None => None,
        }
    }
}

pub open spec fn image_at(d: Seq<u8>, p: int, version: i32) -> Option<(ImageView, int)> {
    match str_at(d, p) {
        Some((name, q)) => match image_size_at(d, q, version) {
            Some((size, r)) => match image_transform_at(d, r, version) {
                Some((transform, s)) => if 0 <= s && s + 4 <= d.len() {
                    Some((ImageView { name, size, transform, x: i16v(d, s), y: i16v(d, s + 2) }, s + 4))
                } else {
                    None
                },
                None => None,
            },
            None => None,
        },
        None => None,
    }
}

pub open spec fn image_fn(version: i32) -> spec_fn(Seq<u8>, int) -> Option<(ImageView, int)> {
    |d: Seq<u8>, p: int| image_at(d, p, version)
}

/// The sprite that stands in for an absent main sprite.
pub open spec fn empty_sprite() -> SpriteView {
    SpriteView { name: None, description: None, frame_rate: 0, work_area: (0, 0), frame: Seq::empty() }
}

/// The main sprite: always there up to version 3, else after a flag byte.
pub open spec fn main_sprite_at(d: Seq<u8>, p: int, version: i32, rate: u8) -> Option<SpriteView> {
    if version <= 3 {
        match sprite_at(d, p, version, rate) {
            Some((s, _)) => Some(s),
            None => None,
        }
    } else {
        match u8_at(d, p) {
            Some((f, q)) => if f != 0 {
                match sprite_at(d, q, version, rate) {
                    Some((s, _)) => Some(s),
                    None => None,
                }
            } else {
                Some(empty_sprite())
            },
            None => None,
        }
    }
}

/// What follows the version: rate, position, size, images, sprites and the
/// main sprite.
pub open spec fn pam_body_at(d: Seq<u8>, version: i32) -> Option<PamView> {
    if d.len() < 19 {
        None
    } else {
        let rate = d[8];
        match list_at(d, 19, le16(d, 17) as nat, image_fn(version)) {
            Some((image, q)) => match u16_at(d, q) {
                Some((n, r)) => match list_at(d, r, n as nat, sprite_fn(version, rate)) {
                    Some((sprite, s)) => match main_sprite_at(d, s, version, rate) {
                        Some(main_sprite) => Some(PamView {
                            version,
                            frame_rate: rate as i32,
                            position: (le16(d, 9) as u16, le16(d, 11) as u16),
                            size: (le16(d, 13) as u16, le16(d, 15) as u16),
                            image,
                            sprite,
                            main_sprite,
                        }),
                        None => None,
                    },
                    None => None,
                },
                None => None,
            },
            None => None,
        }
    }
}

/// What reading `d` gives.
pub open spec fn pam_read(d: Seq<u8>) -> Result<PamView, PamError> {
    if d.len() < 4 {
        Err(PamError::UnexpectedEnd)
    } else if le32(d, 0) != PAM_MAGIC as int {
        Err(PamError::InvalidMagic(le32(d, 0) as u32))
    } else if d.len() < 8 {
        Err(PamError::UnexpectedEnd)
    } else if !(1 <= i32v(d, 4) <= 6) {
        Err(PamError::VersionOutOfRange(i32v(d, 4)))
    } else {
        match pam_body_at(d, i32v(d, 4)) {
            Some(v) => Ok(v),
            None => Err(PamError::UnexpectedEnd),
        }
    }
}


/// The items' encodings, one after the other.
#[verifier::opaque]
pub open spec fn joined<A>(ts: Seq<A>, f: spec_fn(A) -> Seq<u8>) -> Seq<u8>
    decreases ts.len(),
{
    if ts.len() == 0 { Seq::empty() } else { joined(ts.drop_last(), f) + f(ts.last()) }
}

pub proof fn lemma_joined_last<A>(ts: Seq<A>, f: spec_fn(A) -> Seq<u8>)
    ensures
        ts.len() == 0 ==> joined(ts, f) == Seq::<u8>::empty(),
        ts.len() > 0 ==> joined(ts, f) == joined(ts.drop_last(), f) + f(ts.last()),
{
    reveal(joined);
}

pub proof fn lemma_joined_step<A>(ts: Seq<A>, k: int, f: spec_fn(A) -> Seq<u8>)
    requires
        0 <= k < ts.len(),
    ensures
        joined(ts.take(k + 1), f) == joined(ts.take(k), f) + f(ts[k]),
{
    lemma_joined_last(ts.take(k + 1), f);
    assert(ts.take(k + 1).drop_last() =~= ts.take(k));
}

// ─── Writing ────────────────────────────────────────────────────────────────

/// The low 8 bits of `v`.
pub open spec fn b8(v: int) -> Seq<u8> {
    seq![(v % 0x100) as u8]
}

/// The low 16 bits of `v`, least significant byte first.
pub open spec fn b16(v: int) -> Seq<u8> {
    le16_bytes(v % 0x1_0000)
}

/// The low 32 bits of `v`, least significant byte first.
pub open spec fn b32(v: int) -> Seq<u8> {
    le32_bytes(v % 0x1_0000_0000)
}

/// A string after its byte length, written in 16 bits.
pub open spec fn str_bytes(s: Seq<char>) -> Seq<u8> {
    b16(encode_utf8(s).len() as int) + encode_utf8(s)
}

/// The characters of an optional string, empty when absent.
pub open spec fn or_empty(s: Option<Seq<char>>) -> Seq<char> {
    match s {
        Some(t) => t,
        None => Seq::empty(),
    }
}

/// A count: one byte below 255, else 255 and the count in 16 bits.
pub open spec fn count_bytes(n: nat) -> Seq<u8> {
    if n >= 255 { seq![255u8] + b16(n as int) } else { seq![n as u8] }
}

pub open spec fn removes_bytes(r: RemovesInfo) -> Seq<u8> {
    if r.index >= 2047 { b16(2047) + b32(r.index as int) } else { b16(r.index as int) }
}

/// Flag bits 15 to 11 of a 16-bit word.
pub open spec fn high_bits5(b15: bool, b14: bool, b13: bool, b12: bool, b11: bool) -> u16 {
    (if b15 { 0x8000u16 } else { 0u16 }) | (if b14 { 0x4000u16 } else { 0u16 }) | (if b13 { 0x2000u16 } else { 0u16 })
        | (if b12 { 0x1000u16 } else { 0u16 }) | (if b11 { 0x800u16 } else { 0u16 })
}

/// The flag bits of an added layer.
pub open spec fn adds_flags(a: AddsView) -> u16 {
    high_bits5(a.sprite, a.additive, a.preload_frame > 0, a.name is Some, a.time_scale is Some)
}

/// The word of an added layer: its index (2047 when it is written after)
/// with the flag bits.
pub open spec fn adds_num(a: AddsView) -> u16 {
    (if a.index >= 2047 { 2047u16 } else { (a.index % 0x1_0000) as u16 }) | adds_flags(a)
}

pub open spec fn adds_index_part(a: AddsView) -> Seq<u8> {
    if a.index >= 2047 { b32(a.index as int) } else { Seq::empty() }
}

pub open spec fn adds_resource_part(a: AddsView, version: i32) -> Seq<u8> {
    if version >= 6 && a.resource >= 255 { seq![255u8] + b16(a.resource as int) } else { b8(a.resource as int) }
}

/// The preload frame, written when its bit of the word is set.
pub open spec fn adds_preload_part(a: AddsView) -> Seq<u8> {
    if adds_num(a) & 0x2000 != 0 { b16(a.preload_frame as int) } else { Seq::empty() }
}

pub open spec fn adds_name_part(a: AddsView) -> Seq<u8> {
    match a.name {
        Some(t) => str_bytes(t),
        None => Seq::empty(),
    }
}

/// The time scale (1 when absent), written when its bit of the word is set.
pub open spec fn adds_scale_part(a: AddsView) -> Seq<u8> {
    if adds_num(a) & 0x800 != 0 {
        b32(match a.time_scale {
            Some(t) => t as int,
            None => 0x1_0000,
        })
    } else {
        Seq::empty()
    }
}

pub open spec fn adds_bytes(a: AddsView, version: i32) -> Seq<u8> {
    b16(adds_num(a) as int) + adds_index_part(a) + adds_resource_part(a, version) + adds_preload_part(a)
        + adds_name_part(a) + adds_scale_part(a)
}

/// Whether a translation needs 32-bit coordinates.
pub open spec fn long_coords(m: MovesInfo) -> bool {
    !(-32767 <= m.x <= 32767 && -32767 <= m.y <= 32767)
}

/// Flag bits 15 to 10 of a 16-bit word.
pub open spec fn high_bits6(b15: bool, b14: bool, b13: bool, b12: bool, b11: bool, b10: bool) -> u16 {
    (if b15 { 0x8000u16 } else { 0u16 }) | (if b14 { 0x4000u16 } else { 0u16 }) | (if b13 { 0x2000u16 } else { 0u16 })
        | (if b12 { 0x1000u16 } else { 0u16 }) | (if b11 { 0x800u16 } else { 0u16 }) | (if b10 { 0x400u16 } else { 0u16 })
}

/// The flag bits of a move: source rectangle 15, rotation 14, color 13,
/// matrix 12, long coordinates 11, sprite frame 10.
pub open spec fn moves_flags(m: MovesInfo) -> u16 {
    high_bits6(m.source_rectangle is Some, m.transform is Rotate, m.color is Some, m.transform is Matrix,
        long_coords(m), m.sprite_frame_number > 0)
}

/// The word of a move: its index (1023 when it is written after) with the
/// flag bits.
pub open spec fn moves_num(m: MovesInfo) -> u16 {
    (if m.index >= 1023 { 1023u16 } else { (m.index % 0x1_0000) as u16 }) | moves_flags(m)
}

pub open spec fn move_transform_bytes(t: MoveTransform) -> Seq<u8> {
    match t {
        MoveTransform::Matrix(a, b, c, e) => b32(a as int) + b32(c as int) + b32(b as int) + b32(e as int),
        MoveTransform::Rotate(r) => b16(r as int),
        MoveTransform::Translate => Seq::empty(),
    }
}

pub open spec fn moves_index_part(m: MovesInfo) -> Seq<u8> {
    if m.index >= 1023 { b32(m.index as int) } else { Seq::empty() }
}

pub open spec fn moves_coords_part(m: MovesInfo) -> Seq<u8> {
    if long_coords(m) { b32(m.x as int) + b32(m.y as int) } else { b16(m.x as int) + b16(m.y as int) }
}

pub open spec fn moves_rect_part(m: MovesInfo) -> Seq<u8> {
    match m.source_rectangle {
        Some((a, b, c, e)) => b16(a * 20) + b16(b * 20) + b16(c * 20) + b16(e * 20),
        None => Seq::empty(),
    }
}

pub open spec fn moves_color_part(m: MovesInfo) -> Seq<u8> {
    match m.color {
        Some((r, g, b, a)) => seq![r, g, b, a],
        None => Seq::empty(),
    }
}

pub open spec fn moves_frame_part(m: MovesInfo) -> Seq<u8> {
    if m.sprite_frame_number > 0 { b16(m.sprite_frame_number as int) } else { Seq::empty() }
}

pub open spec fn moves_bytes(m: MovesInfo) -> Seq<u8> {
    b16(moves_num(m) as int) + moves_index_part(m) + move_transform_bytes(m.transform) + moves_coords_part(m)
        + moves_rect_part(m) + moves_color_part(m) + moves_frame_part(m)
}

pub open spec fn command_bytes(c: (Seq<char>, Seq<char>)) -> Seq<u8> {
    str_bytes(c.0) + str_bytes(c.1)
}

pub open spec fn removes_bytes_fn() -> spec_fn(RemovesInfo) -> Seq<u8> {
    |r: RemovesInfo| removes_bytes(r)
}

pub open spec fn adds_bytes_fn(version: i32) -> spec_fn(AddsView) -> Seq<u8> {
    |a: AddsView| adds_bytes(a, version)
}

pub open spec fn moves_bytes_fn() -> spec_fn(MovesInfo) -> Seq<u8> {
    |m: MovesInfo| moves_bytes(m)
}

pub open spec fn command_bytes_fn() -> spec_fn((Seq<char>, Seq<char>)) -> Seq<u8> {
    |c: (Seq<char>, Seq<char>)| command_bytes(c)
}

/// Bits 0 to 5 of a byte.
pub open spec fn low_bits6(b0: bool, b1: bool, b2: bool, b3: bool, b4: bool, b5: bool) -> u8 {
    (if b0 { 1u8 } else { 0u8 }) | (if b1 { 2u8 } else { 0u8 }) | (if b2 { 4u8 } else { 0u8 })
        | (if b3 { 8u8 } else { 0u8 }) | (if b4 { 16u8 } else { 0u8 }) | (if b5 { 32u8 } else { 0u8 })
}

/// The flag byte of a frame.
pub open spec fn frame_flags(f: FrameView) -> u8 {
    low_bits6(f.remove.len() > 0, f.append.len() > 0, f.change.len() > 0, f.label is Some, f.stop, f.command.len() > 0)
}

/// A counted section, nothing when it is empty.
pub open spec fn section_bytes<A>(xs: Seq<A>, f: spec_fn(A) -> Seq<u8>) -> Seq<u8> {
    if xs.len() > 0 { count_bytes(xs.len()) + joined(xs, f) } else { Seq::empty() }
}

pub open spec fn frame_bytes(f: FrameView, version: i32) -> Seq<u8> {
    seq![frame_flags(f)]
        + section_bytes(f.remove, removes_bytes_fn())
        + section_bytes(f.append, adds_bytes_fn(version))
        + section_bytes(f.change, moves_bytes_fn())
        + (match f.label {
            Some(t) => str_bytes(t),
            None => Seq::empty(),
        })
        + (if f.command.len() > 0 { b8(f.command.len() as int) + joined(f.command, command_bytes_fn()) } else { Seq::empty() })
}

pub open spec fn frame_bytes_fn(version: i32) -> spec_fn(FrameView) -> Seq<u8> {
    |f: FrameView| frame_bytes(f, version)
}

pub open spec fn sprite_bytes(s: SpriteView, version: i32) -> Seq<u8> {
    (if version >= 4 {
        str_bytes(or_empty(s.name))
            + (if version >= 6 { str_bytes(or_empty(s.description)) } else { Seq::empty() })
            + b32(s.frame_rate as int)
    } else {
        Seq::empty()
    })
        + b16(s.frame.len() as int)
        + (if version >= 5 { b16(s.work_area.0 as int) + b16(s.work_area.1 as int) } else { Seq::empty() })
        + joined(s.frame, frame_bytes_fn(version))
}

pub open spec fn sprite_bytes_fn(version: i32) -> spec_fn(SpriteView) -> Seq<u8> {
    |s: SpriteView| sprite_bytes(s, version)
}

pub open spec fn image_transform_bytes(t: ImageTransform) -> Seq<u8> {
    match t {
        ImageTransform::Rotation(a) => b16(a as int),
        ImageTransform::Matrix(a, b, c, e) => b32(a as int) + b32(c as int) + b32(b as int) + b32(e as int),
    }
}

pub open spec fn image_bytes(i: ImageView, version: i32) -> Seq<u8> {
    str_bytes(i.name)
        + (if version >= 4 { b16(i.size.0 as int) + b16(i.size.1 as int) } else { Seq::empty() })
        + image_transform_bytes(i.transform)
        + b16(i.x as int)
        + b16(i.y as int)
}

pub open spec fn image_bytes_fn(version: i32) -> spec_fn(ImageView) -> Seq<u8> {
    |i: ImageView| image_bytes(i, version)
}

/// The file `encode_pam` writes.
pub open spec fn pam_bytes(p: PamView) -> Seq<u8> {
    b32(PAM_MAGIC as int) + b32(p.version as int) + b8(p.frame_rate as int)
        + b16(p.position.0 as int) + b16(p.position.1 as int)
        + b16(p.size.0 as int) + b16(p.size.1 as int)
        + b16(p.image.len() as int) + joined(p.image, image_bytes_fn(p.version))
        + b16(p.sprite.len() as int) + joined(p.sprite, sprite_bytes_fn(p.version))
        + (if p.version > 3 { seq![1u8] } else { Seq::empty() })
        + sprite_bytes(p.main_sprite, p.version)
}

/// What the writer needs: source rectangles whose values times 20 fit in
/// 32 bits, and translations other than `i32::MIN` (whose magnitude does
/// not fit).
pub open spec fn moves_writable(m: MovesInfo) -> bool {
    &&& m.x != i32::MIN && m.y != i32::MIN
    &&& match m.source_rectangle {
        Some((a, b, c, e)) => {
            &&& i32::MIN <= a * 20 <= i32::MAX
            &&& i32::MIN <= b * 20 <= i32::MAX
            &&& i32::MIN <= c * 20 <= i32::MAX
            &&& i32::MIN <= e * 20 <= i32::MAX
        },
        None => true,
    }
}

pub open spec fn frame_writable(f: FrameView) -> bool {
    forall|i: int| 0 <= i < f.change.len() ==> moves_writable(#[trigger] f.change[i])
}

pub open spec fn sprite_writable(s: SpriteView) -> bool {
    forall|i: int| 0 <= i < s.frame.len() ==> frame_writable(#[trigger] s.frame[i])
}

pub open spec fn pam_writable(p: PamView) -> bool {
    &&& forall|i: int| 0 <= i < p.sprite.len() ==> sprite_writable(#[trigger] p.sprite[i])
    &&& sprite_writable(p.main_sprite)
}

// ─── What reads back ────────────────────────────────────────────────────────

/// A string whose byte length fits the writer's 16 bits.
pub open spec fn text_ok(s: Seq<char>) -> bool {
    encode_utf8(s).len() <= 0xFFFF
}

pub open spec fn removes_ok(r: RemovesInfo) -> bool {
    r.index >= 0
}

pub open spec fn adds_ok(a: AddsView, version: i32) -> bool {
    &&& a.index >= 0
    &&& 0 <= a.resource <= (if version >= 6 { 0xFFFFi32 } else { 0xFFi32 })
    &&& 0 <= a.preload_frame <= 0xFFFF
    &&& a.name matches Some(t) ==> text_ok(t)
}

/// A source-rectangle value that the writer's 16 bits hold times 20.
pub open spec fn rect_value_ok(v: i32) -> bool {
    -1638 <= v <= 1638
}

pub open spec fn moves_ok(m: MovesInfo) -> bool {
    &&& m.index >= 0
    &&& 0 <= m.sprite_frame_number <= 0xFFFF
    &&& m.source_rectangle matches Some((a, b, c, e)) ==> rect_value_ok(a) && rect_value_ok(b) && rect_value_ok(c) && rect_value_ok(e)
}

pub open spec fn frame_ok(f: FrameView, version: i32) -> bool {
    &&& f.remove.len() <= 0xFFFF && f.append.len() <= 0xFFFF && f.change.len() <= 0xFFFF && f.command.len() <= 0xFF
    &&& forall|i: int| 0 <= i < f.remove.len() ==> removes_ok(#[trigger] f.remove[i])
    &&& forall|i: int| 0 <= i < f.append.len() ==> adds_ok(#[trigger] f.append[i], version)
    &&& forall|i: int| 0 <= i < f.change.len() ==> moves_ok(#[trigger] f.change[i])
    &&& forall|i: int| 0 <= i < f.command.len() ==> text_ok((#[trigger] f.command[i]).0) && text_ok(f.command[i].1)
    &&& f.label matches Some(t) ==> text_ok(t)
}

/// A sprite as the version stores it: named from version 4 on, described
/// from version 6 on, at the animation's rate before version 4; its work
/// area ends at its frame count and, before version 5, starts at 0.
pub open spec fn sprite_ok(s: SpriteView, version: i32, rate: int) -> bool {
    &&& if version >= 4 { s.name matches Some(t) && text_ok(t) } else { s.name is None && s.frame_rate == rate * 0x1_0000 }
    &&& if version >= 6 { s.description matches Some(t) && text_ok(t) } else { s.description is None }
    &&& s.frame.len() <= 0xFFFF
    &&& s.work_area.1 == s.frame.len()
    &&& if version >= 5 { 0 <= s.work_area.0 <= 0xFFFF } else { s.work_area.0 == 0 }
    &&& forall|i: int| 0 <= i < s.frame.len() ==> frame_ok(#[trigger] s.frame[i], version)
}

/// An image as the version stores it: sized from version 4 on, placed by a
/// rotation in version 1 and by a matrix after.
pub open spec fn image_ok(i: ImageView, version: i32) -> bool {
    &&& text_ok(i.name)
    &&& if version >= 4 { 0 <= i.size.0 <= 0xFFFF && 0 <= i.size.1 <= 0xFFFF } else { i.size == (-1i32, -1i32) }
    &&& (i.transform is Rotation) == (version == 1)
}

/// An animation whose every value the file's fields hold.
pub open spec fn pam_ok(p: PamView) -> bool {
    &&& 1 <= p.version <= 6
    &&& 0 <= p.frame_rate <= 0xFF
    &&& p.image.len() <= 0xFFFF && p.sprite.len() <= 0xFFFF
    &&& forall|i: int| 0 <= i < p.image.len() ==> image_ok(#[trigger] p.image[i], p.version)
    &&& forall|i: int| 0 <= i < p.sprite.len() ==> sprite_ok(#[trigger] p.sprite[i], p.version, p.frame_rate as int)
    &&& sprite_ok(p.main_sprite, p.version, p.frame_rate as int)
}

/// Reads a PAM file: exactly what `pam_read` gives. Bytes after the main
/// sprite are not read.
pub fn decode_pam(data: &[u8]) -> (res: Result<PamInfo, PamError>)
    ensures
        match res {
            Ok(p) => pam_read(data@) == Ok::<PamView, PamError>(p@),
            Err(e) => pam_read(data@) == Err::<PamView, PamError>(e),
        },
{
    if data.len() < 4 {
        return Err(PamError::UnexpectedEnd);
    }
    let magic = read_le32(data, 0);
    if magic != PAM_MAGIC {
        return Err(PamError::InvalidMagic(magic));
    }
    if data.len() < 8 {
        return Err(PamError::UnexpectedEnd);
    }
    let version = read_le_i32(data, 4);
    if !(1 <= version && version <= 6) {
        return Err(PamError::VersionOutOfRange(version));
    }
    match read_body(data, version) {
        Some(v) => Ok(v),
        None => Err(PamError::UnexpectedEnd),
    }
}


/// Writes a PAM file: exactly `pam_bytes`. Counts and lengths are written
/// in the widths the format gives them, keeping their low bits.
pub fn encode_pam(pam: &PamInfo) -> (out: Vec<u8>)
    requires
        pam_writable(pam@),
    ensures
        out@ == pam_bytes(pam@),
{
    write_pam(pam)
}


/// Reading gives back what writing wrote: every animation whose values the
/// file's fields hold reads back as itself from the bytes `encode_pam`
/// writes for it.
pub proof fn lemma_pam_roundtrip(p: PamView)
    requires
        pam_ok(p),
    ensures
        pam_read(pam_bytes(p)) == Ok::<PamView, PamError>(p),
{
    crate::pam_proof::lemma_pam_reads(p);
}

} // verus!
