//! Compiled Reanim animations (PC, 32-bit and 64-bit phone variants).
//!
//! A compiled file is either the raw body or the magic `0xDEADFED4`, the
//! body size (on 64-bit phones between two zero words) and the body as a
//! zlib stream. The body is a header (track count, frame rate, a magic per
//! variant), one entry per track giving its frame count, then per track its
//! name, a magic, the eight transform values of each frame and the three
//! strings of each frame. Values are 32-bit little-endian; the transform
//! values are `f32`s held here by their bit patterns, `-10000.0` (bits
//! `0xC61C4000`) marking an absent value.
use vstd::prelude::*;
use vstd::utf8::{decode_utf8, encode_utf8, valid_utf8};
use crate::bytes::{as_i32, le32, le32_bytes};
use crate::text::{parsed_i32, signed_decimal};
use crate::zlib::{deflate, zlib_deflate, zlib_inflate};

verus! {

#[derive(Debug, Clone)]
pub struct Reanim {
    pub do_scale: Option<i8>,
    /// Bits of the frame rate (`f32`).
    pub fps: u32,
    pub tracks: Vec<ReanimTrack>,
}

#[derive(Debug, Clone)]
pub struct ReanimTrack {
    pub name: String,
    pub transforms: Vec<ReanimTransform>,
}

/// One frame of a track; the first eight values are `f32` bit patterns.
#[derive(Debug, Clone)]
pub struct ReanimTransform {
    pub x: Option<u32>,
    pub y: Option<u32>,
    pub kx: Option<u32>,
    pub ky: Option<u32>,
    pub sx: Option<u32>,
    pub sy: Option<u32>,
    pub f: Option<u32>,
    pub a: Option<u32>,
    /// The image; an integer id on phones.
    pub i: Option<String>,
    pub resource: Option<String>,
    pub i2: Option<String>,
    pub resource2: Option<String>,
    pub font: Option<String>,
    pub text: Option<String>,
}

#[derive(Debug, Clone, Copy, PartialEq, Eq, Structural)]
pub enum ReanimVersion {
    PC,
    Phone32,
    Phone64,
}

impl Default for Reanim {
    fn default() -> (r: Self)
        ensures
            r.do_scale is None,
            r.fps == 0,
            r.tracks@.len() == 0,
    {
        Reanim { do_scale: None, fps: 0, tracks: Vec::new() }
    }
}

impl Default for ReanimTrack {
    fn default() -> (t: Self)
        ensures
            t.name@.len() == 0,
            t.transforms@.len() == 0,
    {
        ReanimTrack { name: String::new(), transforms: Vec::new() }
    }
}

impl Default for ReanimTransform {
    fn default() -> (t: Self)
        ensures
            t.x is None && t.y is None && t.kx is None && t.ky is None,
            t.sx is None && t.sy is None && t.f is None && t.a is None,
            t.i is None && t.resource is None && t.i2 is None && t.resource2 is None,
            t.font is None && t.text is None,
    {
        ReanimTransform {
            x: None,
            y: None,
            kx: None,
            ky: None,
            sx: None,
            sy: None,
            f: None,
            a: None,
            i: None,
            resource: None,
            i2: None,
            resource2: None,
            font: None,
            text: None,
        }
    }
}

impl Default for ReanimVersion {
    fn default() -> (v: Self)
        ensures
            v == ReanimVersion::PC,
    {
        ReanimVersion::PC
    }
}

/// Errors of the Reanim codec.
#[derive(Debug, Clone, Copy, PartialEq, Eq, Structural)]
pub enum ReanimError {
    /// The data ends inside a value, or its zlib stream cannot be read.
    Io,
    InvalidVariant,
    InvalidTrack,
    InvalidMagic(u32, u32),
    StringDecodeError,
}

// ─── Layout ─────────────────────────────────────────────────────────────────

/// The magic of a compressed file, `0xDEADFED4`, as a signed value.
pub open spec fn compressed_magic() -> int { -559022380 }

/// Bits of `-10000.0`, the value that marks an absent transform value.
pub open spec fn absent_bits() -> u32 { 0xC61C4000 }

/// Signed little-endian 32-bit value at `p`.
pub open spec fn int_at(b: Seq<u8>, p: int) -> int {
    as_i32(le32(b, p))
}

/// Bytes skipped before the track count.
pub open spec fn head_skip(v: ReanimVersion) -> int {
    if v == ReanimVersion::Phone64 { 12 } else { 8 }
}

/// The magic closing the header.
pub open spec fn head_magic(v: ReanimVersion) -> int {
    match v {
        ReanimVersion::PC => 0x0C,
        ReanimVersion::Phone32 => 0x10,
        ReanimVersion::Phone64 => 0x20,
    }
}

/// Where the header's magic is.
pub open spec fn head_magic_at(v: ReanimVersion) -> int {
    if v == ReanimVersion::Phone64 { 28 } else { 20 }
}

/// Where the track entries start.
pub open spec fn entries_at(v: ReanimVersion) -> int {
    if v == ReanimVersion::Phone64 { 32 } else { 24 }
}

/// Size of a track entry.
pub open spec fn entry_size(v: ReanimVersion) -> int {
    match v {
        ReanimVersion::PC => 12,
        ReanimVersion::Phone32 => 16,
        ReanimVersion::Phone64 => 32,
    }
}

/// Bytes of `k` track entries.
pub open spec fn entries_len(v: ReanimVersion, k: int) -> int {
    match v {
        ReanimVersion::PC => 12 * k,
        ReanimVersion::Phone32 => 16 * k,
        ReanimVersion::Phone64 => 32 * k,
    }
}

/// Offset of the frame count within a track entry.
pub open spec fn entry_count_at(v: ReanimVersion) -> int {
    match v {
        ReanimVersion::PC => 8,
        ReanimVersion::Phone32 => 12,
        ReanimVersion::Phone64 => 24,
    }
}

/// The magic after a track's name.
pub open spec fn track_magic(v: ReanimVersion) -> int {
    if v == ReanimVersion::Phone64 { 0x38 } else { 0x2C }
}

/// Bytes of `c` frames of transform values.
pub open spec fn frames_len(v: ReanimVersion, c: int) -> int {
    if v == ReanimVersion::Phone64 { 56 * c } else { 44 * c }
}

/// The track count.
pub open spec fn track_count(b: Seq<u8>, v: ReanimVersion) -> int {
    int_at(b, head_skip(v))
}

/// The frame count of track `k`.
pub open spec fn entry_count(b: Seq<u8>, v: ReanimVersion, k: int) -> int {
    int_at(b, entries_at(v) + entries_len(v, k) + entry_count_at(v))
}

/// Where the tracks start.
pub open spec fn tracks_at(b: Seq<u8>, v: ReanimVersion) -> int {
    let n = track_count(b, v);
    entries_at(v) + entries_len(v, if n < 0 { 0 } else { n })
}

// ─── Strings ────────────────────────────────────────────────────────────────

/// Where the length-prefixed string at `p` ends.
pub open spec fn field_end(b: Seq<u8>, p: int) -> int {
    let l = int_at(b, p);
    if l <= 0 { p + 4 } else { p + 4 + l }
}

/// The fault reading the length-prefixed string at `p`, if any.
pub open spec fn field_fault(b: Seq<u8>, p: int) -> Option<ReanimError> {
    let l = int_at(b, p);
    if p + 4 > b.len() {
        Some(ReanimError::Io)
    } else if l > 0 && p + 4 + l > b.len() {
        Some(ReanimError::Io)
    } else if l > 0 && !valid_utf8(b.subrange(p + 4, p + 4 + l)) {
        Some(ReanimError::StringDecodeError)
    } else {
        None
    }
}

/// The length-prefixed string at `p`; none when empty.
pub open spec fn field_value(b: Seq<u8>, p: int) -> Option<Seq<char>> {
    let l = int_at(b, p);
    if l <= 0 { None } else { Some(decode_utf8(b.subrange(p + 4, p + 4 + l))) }
}

/// Where a frame's image field ends: a string on PC, an integer on phones.
pub open spec fn image_end(b: Seq<u8>, v: ReanimVersion, p: int) -> int {
    if v == ReanimVersion::PC { field_end(b, p) } else { p + 4 }
}

pub open spec fn image_fault(b: Seq<u8>, v: ReanimVersion, p: int) -> Option<ReanimError> {
    if v == ReanimVersion::PC {
        field_fault(b, p)
    } else if p + 4 > b.len() {
        Some(ReanimError::Io)
    } else {
        None
    }
}

/// A frame's image: the string on PC; on phones the integer in decimal,
/// none for -1.
pub open spec fn image_value(b: Seq<u8>, v: ReanimVersion, p: int) -> Option<Seq<char>> {
    if v == ReanimVersion::PC {
        field_value(b, p)
    } else if int_at(b, p) == -1 {
        None
    } else {
        Some(signed_decimal(int_at(b, p)))
    }
}

/// Where the font and text strings of a frame start.
pub open spec fn font_at(b: Seq<u8>, v: ReanimVersion, p: int) -> int { image_end(b, v, p) }
pub open spec fn text_at(b: Seq<u8>, v: ReanimVersion, p: int) -> int { field_end(b, font_at(b, v, p)) }

/// Where the strings of a frame starting at `p` end.
pub open spec fn frame_strings_end(b: Seq<u8>, v: ReanimVersion, p: int) -> int {
    field_end(b, text_at(b, v, p))
}

/// The first fault reading the strings of a frame starting at `p`.
pub open spec fn frame_strings_fault(b: Seq<u8>, v: ReanimVersion, p: int) -> Option<ReanimError> {
    if image_fault(b, v, p) is Some {
        image_fault(b, v, p)
    } else if field_fault(b, font_at(b, v, p)) is Some {
        field_fault(b, font_at(b, v, p))
    } else {
        field_fault(b, text_at(b, v, p))
    }
}

/// Where the strings of frame `j` start, those of frame 0 starting at `s`.
pub open spec fn strings_pos(b: Seq<u8>, v: ReanimVersion, s: int, j: int) -> int
    decreases j,
{
    if j <= 0 { s } else { frame_strings_end(b, v, strings_pos(b, v, s, j - 1)) }
}

/// The first fault reading the strings of frames `j` to `c`.
pub open spec fn strings_fault(b: Seq<u8>, v: ReanimVersion, s: int, j: int, c: int) -> Option<ReanimError>
    decreases c - j,
{
    if j < 0 || j >= c {
        None
    } else if frame_strings_fault(b, v, strings_pos(b, v, s, j)) is Some {
        frame_strings_fault(b, v, strings_pos(b, v, s, j))
    } else {
        strings_fault(b, v, s, j + 1, c)
    }
}

// ─── Tracks ─────────────────────────────────────────────────────────────────

/// The bytes without their trailing NULs.
pub open spec fn trim_nul(s: Seq<u8>) -> Seq<u8>
    decreases s.len(),
{
    if s.len() > 0 && s.last() == 0 { trim_nul(s.drop_last()) } else { s }
}

/// The name bytes of the track at `q`.
pub open spec fn name_bytes(b: Seq<u8>, q: int) -> Seq<u8> {
    b.subrange(q + 4, q + 4 + int_at(b, q))
}

/// Reading the name of the track at `q`: `Some(None)` where decoding aborts
/// aborts (a negative length), `Some(Some(e))` for a fault.
pub open spec fn name_fault(b: Seq<u8>, q: int) -> Option<Option<ReanimError>> {
    let l = int_at(b, q);
    if q + 4 > b.len() {
        Some(Some(ReanimError::Io))
    } else if l < 0 {
        Some(None)
    } else if q + 4 + l > b.len() {
        Some(Some(ReanimError::Io))
    } else if !valid_utf8(trim_nul(name_bytes(b, q))) {
        Some(Some(ReanimError::StringDecodeError))
    } else {
        None
    }
}

pub open spec fn track_magic_at(b: Seq<u8>, q: int) -> int { q + 4 + int_at(b, q) }
pub open spec fn frames_at(b: Seq<u8>, q: int) -> int { track_magic_at(b, q) + 4 }
pub open spec fn track_strings_at(b: Seq<u8>, v: ReanimVersion, q: int, c: int) -> int {
    frames_at(b, q) + frames_len(v, c)
}

/// The first fault reading the track at `q` with `c` frames.
pub open spec fn track_fault(b: Seq<u8>, v: ReanimVersion, q: int, c: int) -> Option<Option<ReanimError>> {
    if name_fault(b, q) is Some {
        name_fault(b, q)
    } else if track_magic_at(b, q) + 4 > b.len() {
        Some(Some(ReanimError::Io))
    } else if int_at(b, track_magic_at(b, q)) != track_magic(v) {
        Some(Some(ReanimError::InvalidTrack))
    } else if track_strings_at(b, v, q, c) > b.len() {
        Some(Some(ReanimError::Io))
    } else {
        match strings_fault(b, v, track_strings_at(b, v, q, c), 0, c) {
            Some(e) => Some(Some(e)),
            None => None,
        }
    }
}

/// Where the track at `q` with `c` frames ends.
pub open spec fn track_end(b: Seq<u8>, v: ReanimVersion, q: int, c: int) -> int {
    strings_pos(b, v, track_strings_at(b, v, q, c), c)
}

/// Where track `k` starts.
pub open spec fn track_pos(b: Seq<u8>, v: ReanimVersion, k: int) -> int
    decreases k,
{
    if k <= 0 {
        tracks_at(b, v)
    } else {
        track_end(b, v, track_pos(b, v, k - 1), entry_count(b, v, k - 1))
    }
}

/// The first fault reading tracks `k` to `n`.
pub open spec fn tracks_fault(b: Seq<u8>, v: ReanimVersion, k: int, n: int) -> Option<Option<ReanimError>>
    decreases n - k,
{
    if k < 0 || k >= n {
        None
    } else if track_fault(b, v, track_pos(b, v, k), entry_count(b, v, k)) is Some {
        track_fault(b, v, track_pos(b, v, k), entry_count(b, v, k))
    } else {
        tracks_fault(b, v, k + 1, n)
    }
}

/// The first fault reading track entries `k` to `n`; a negative frame count
/// is where decoding aborts.
pub open spec fn entries_fault(b: Seq<u8>, v: ReanimVersion, k: int, n: int) -> Option<Option<ReanimError>>
    decreases n - k,
{
    if k < 0 || k >= n {
        None
    } else if entries_at(v) + entries_len(v, k + 1) > b.len() {
        Some(Some(ReanimError::Io))
    } else if entry_count(b, v, k) < 0 {
        Some(None)
    } else {
        entries_fault(b, v, k + 1, n)
    }
}

/// The first fault reading a body: `None` for success, `Some(None)` where
/// decoding aborts, `Some(Some(e))` for an error. With a negative track
/// count decoding reads the first track's name and then aborts.
pub open spec fn body_fault(b: Seq<u8>, v: ReanimVersion) -> Option<Option<ReanimError>> {
    let n = track_count(b, v);
    if b.len() < entries_at(v) {
        Some(Some(ReanimError::Io))
    } else if int_at(b, head_magic_at(v)) != head_magic(v) {
        Some(Some(ReanimError::InvalidMagic(head_magic(v) as u32, 0)))
    } else if n < 0 {
        match name_fault(b, entries_at(v)) {
            Some(f) => Some(f),
            None => Some(None),
        }
    } else if entries_fault(b, v, 0, n) is Some {
        entries_fault(b, v, 0, n)
    } else {
        tracks_fault(b, v, 0, n)
    }
}

/// The body inside a file: the file itself, or its zlib stream read back.
pub open spec fn payload(d: Seq<u8>, v: ReanimVersion) -> Result<Seq<u8>, ReanimError> {
    let start = if v == ReanimVersion::Phone64 { 16int } else { 8int };
    if d.len() < 4 {
        Err(ReanimError::Io)
    } else if int_at(d, 0) != compressed_magic() {
        Ok(d)
    } else if d.len() < start {
        Err(ReanimError::Io)
    } else {
        match zlib_inflate(d.skip(start)) {
            Some(x) => Ok(x),
            None => Err(ReanimError::Io),
        }
    }
}

/// The first fault decoding a file as variant `v` (as `body_fault`).
pub open spec fn variant_fault(d: Seq<u8>, v: ReanimVersion) -> Option<Option<ReanimError>> {
    match payload(d, v) {
        Err(e) => Some(Some(e)),
        Ok(b) => body_fault(b, v),
    }
}

// ─── Decoded values ─────────────────────────────────────────────────────────

/// A transform value at `p`: absent for `-10000.0`.
pub open spec fn value_at(b: Seq<u8>, p: int) -> Option<u32> {
    let bits = le32(b, p) as u32;
    if bits == absent_bits() { None } else { Some(bits) }
}

/// The view of an optional string.
pub open spec fn opt_view(s: Option<String>) -> Option<Seq<char>> {
    match s {
        Some(t) => Some(t@),
        None => None,
    }
}

/// The eight values of `t` are those stored from `p`.
pub open spec fn values_read(t: ReanimTransform, b: Seq<u8>, p: int) -> bool {
    &&& t.x == value_at(b, p)
    &&& t.y == value_at(b, p + 4)
    &&& t.kx == value_at(b, p + 8)
    &&& t.ky == value_at(b, p + 12)
    &&& t.sx == value_at(b, p + 16)
    &&& t.sy == value_at(b, p + 20)
    &&& t.f == value_at(b, p + 24)
    &&& t.a == value_at(b, p + 28)
}

/// `t` is the frame whose values start at `p` and strings at `s`.
pub open spec fn frame_read(t: ReanimTransform, b: Seq<u8>, v: ReanimVersion, p: int, s: int) -> bool {
    &&& values_read(t, b, p)
    &&& opt_view(t.i) == image_value(b, v, s)
    &&& t.resource is None
    &&& t.i2 is None
    &&& t.resource2 is None
    &&& opt_view(t.font) == field_value(b, font_at(b, v, s))
    &&& opt_view(t.text) == field_value(b, text_at(b, v, s))
}

/// `t` is the track at `q` with `c` frames.
pub open spec fn track_read(t: ReanimTrack, b: Seq<u8>, v: ReanimVersion, q: int, c: int) -> bool {
    &&& t.name@ == decode_utf8(trim_nul(name_bytes(b, q)))
    &&& t.transforms@.len() == c
    &&& forall|j: int| 0 <= j < c ==> #[trigger] frame_read(t.transforms@[j], b, v,
        frames_at(b, q) + frames_len(v, j), strings_pos(b, v, track_strings_at(b, v, q, c), j))
}

/// `r` is the animation a body describes.
pub open spec fn reanim_read(r: Reanim, b: Seq<u8>, v: ReanimVersion) -> bool {
    &&& r.do_scale is None
    &&& r.fps == le32(b, head_skip(v) + 4) as u32
    &&& r.tracks@.len() == track_count(b, v)
    &&& forall|k: int| 0 <= k < track_count(b, v) ==> #[trigger] track_read(r.tracks@[k], b, v,
        track_pos(b, v, k), entry_count(b, v, k))
}

/// `r` is what decoding `d` as variant `v` gives.
pub open spec fn decoded_as(r: Reanim, d: Seq<u8>, v: ReanimVersion) -> bool {
    match payload(d, v) {
        Ok(b) => reanim_read(r, b, v),
        Err(_) => false,
    }
}

// ─── Decoding ───────────────────────────────────────────────────────────────

/// Decoding as the first `k` variants in order (PC, 32-bit phone, 64-bit
/// phone) never reaches an input on which decoding aborts (a negative count
/// or length, for which nothing can be allocated).
pub open spec fn decode_admissible(d: Seq<u8>) -> bool {
    &&& variant_fault(d, ReanimVersion::PC) != Some::<Option<ReanimError>>(None)
    &&& variant_fault(d, ReanimVersion::PC) is Some
        ==> variant_fault(d, ReanimVersion::Phone32) != Some::<Option<ReanimError>>(None)
    &&& variant_fault(d, ReanimVersion::PC) is Some && variant_fault(d, ReanimVersion::Phone32) is Some
        ==> variant_fault(d, ReanimVersion::Phone64) != Some::<Option<ReanimError>>(None)
}

/// Decodes a PC file.
pub fn decode_pc(data: &[u8]) -> (res: Result<Reanim, ReanimError>)
    requires
        variant_fault(data@, ReanimVersion::PC) != Some::<Option<ReanimError>>(None),
    ensures
        res is Err <==> variant_fault(data@, ReanimVersion::PC) is Some,
        res matches Err(e) ==> variant_fault(data@, ReanimVersion::PC) == Some(Some(e)),
        res matches Ok(r) ==> decoded_as(r, data@, ReanimVersion::PC),
{
    crate::reanim_read::decode_variant(data, ReanimVersion::PC)
}

/// Decodes a 32-bit phone file.
pub fn decode_phone32(data: &[u8]) -> (res: Result<Reanim, ReanimError>)
    requires
        variant_fault(data@, ReanimVersion::Phone32) != Some::<Option<ReanimError>>(None),
    ensures
        res is Err <==> variant_fault(data@, ReanimVersion::Phone32) is Some,
        res matches Err(e) ==> variant_fault(data@, ReanimVersion::Phone32) == Some(Some(e)),
        res matches Ok(r) ==> decoded_as(r, data@, ReanimVersion::Phone32),
{
    crate::reanim_read::decode_variant(data, ReanimVersion::Phone32)
}

/// Decodes a 64-bit phone file.
pub fn decode_phone64(data: &[u8]) -> (res: Result<Reanim, ReanimError>)
    requires
        variant_fault(data@, ReanimVersion::Phone64) != Some::<Option<ReanimError>>(None),
    ensures
        res is Err <==> variant_fault(data@, ReanimVersion::Phone64) is Some,
        res matches Err(e) ==> variant_fault(data@, ReanimVersion::Phone64) == Some(Some(e)),
        res matches Ok(r) ==> decoded_as(r, data@, ReanimVersion::Phone64),
{
    crate::reanim_read::decode_variant(data, ReanimVersion::Phone64)
}

/// Decodes a file as the first variant that reads it: PC, then 32-bit
/// phone, then 64-bit phone.
pub fn decode(data: &[u8]) -> (res: Result<Reanim, ReanimError>)
    requires
        decode_admissible(data@),
    ensures
        res is Ok <==> variant_fault(data@, ReanimVersion::PC) is None
            || variant_fault(data@, ReanimVersion::Phone32) is None
            || variant_fault(data@, ReanimVersion::Phone64) is None,
        res matches Err(e) ==> e == ReanimError::InvalidVariant,
        res matches Ok(r) ==> if variant_fault(data@, ReanimVersion::PC) is None {
            decoded_as(r, data@, ReanimVersion::PC)
        } else if variant_fault(data@, ReanimVersion::Phone32) is None {
            decoded_as(r, data@, ReanimVersion::Phone32)
        } else {
            decoded_as(r, data@, ReanimVersion::Phone64)
        },
{
    if let Ok(r) = decode_pc(data) {
        return Ok(r);
    }
    if let Ok(r) = decode_phone32(data) {
        return Ok(r);
    }
    if let Ok(r) = decode_phone64(data) {
        return Ok(r);
    }
    Err(ReanimError::InvalidVariant)
}

/// Decodes a file as `decode` does, first testing what `decode` requires:
/// `None` exactly where trying PC, then 32-bit phone, then 64-bit phone
/// reaches an input on which decoding aborts.
pub fn decode_checked(data: &[u8]) -> (res: Option<Result<Reanim, ReanimError>>)
    ensures
        res is None <==> !decode_admissible(data@),
        res matches Some(x) ==> {
            &&& x is Ok <==> variant_fault(data@, ReanimVersion::PC) is None
                || variant_fault(data@, ReanimVersion::Phone32) is None
                || variant_fault(data@, ReanimVersion::Phone64) is None
            &&& x matches Err(e) ==> e == ReanimError::InvalidVariant
            &&& x matches Ok(r) ==> if variant_fault(data@, ReanimVersion::PC) is None {
                decoded_as(r, data@, ReanimVersion::PC)
            } else if variant_fault(data@, ReanimVersion::Phone32) is None {
                decoded_as(r, data@, ReanimVersion::Phone32)
            } else {
                decoded_as(r, data@, ReanimVersion::Phone64)
            }
        },
{
    match crate::reanim_read::decode_variant_checked(data, ReanimVersion::PC) {
        Ok(r) => { return Some(Ok(r)); },
        Err(None) => { return None; },
        Err(Some(_)) => {},
    }
    match crate::reanim_read::decode_variant_checked(data, ReanimVersion::Phone32) {
        Ok(r) => { return Some(Ok(r)); },
        Err(None) => { return None; },
        Err(Some(_)) => {},
    }
    match crate::reanim_read::decode_variant_checked(data, ReanimVersion::Phone64) {
        Ok(r) => { return Some(Ok(r)); },
        Err(None) => { return None; },
        Err(Some(_)) => {},
    }
    Some(Err(ReanimError::InvalidVariant))
}

// ─── Encoding ───────────────────────────────────────────────────────────────

/// The four little-endian bytes of the low 32 bits of `v` (an `i32` written
/// from `v`, wider values keeping their low bits as `as i32` does).
pub open spec fn word(v: int) -> Seq<u8> {
    le32_bytes(v % 0x1_0000_0000)
}

/// `k` zero words.
pub open spec fn zero_words(k: nat) -> Seq<u8> {
    Seq::new(4 * k, |i: int| 0u8)
}

/// A string written with its byte length before it.
pub open spec fn str_field(s: Seq<char>) -> Seq<u8> {
    word(encode_utf8(s).len() as int) + encode_utf8(s)
}

/// The characters of an optional string, empty when absent.
pub open spec fn opt_chars(s: Option<String>) -> Seq<char> {
    match s {
        Some(t) => t@,
        None => Seq::empty(),
    }
}

/// The bits written for an optional value: `-10000.0` when absent.
pub open spec fn value_bits(o: Option<u32>) -> u32 {
    match o {
        Some(b) => b,
        None => absent_bits(),
    }
}

/// The integer image id written on phones: the image parsed as an `i32`,
/// -1 when absent or not a number.
pub open spec fn image_id(i: Option<String>) -> int {
    match i {
        Some(t) => match parsed_i32(t@) {
            Some(n) => n as int,
            None => -1,
        },
        None => -1,
    }
}

/// The zero words after a frame's eight values.
pub open spec fn frame_pad(v: ReanimVersion) -> nat {
    if v == ReanimVersion::Phone64 { 6 } else { 3 }
}

/// The eight values of a frame and their padding.
pub open spec fn frame_values_bytes(t: ReanimTransform, v: ReanimVersion) -> Seq<u8> {
    word(value_bits(t.x) as int) + word(value_bits(t.y) as int) + word(value_bits(t.kx) as int)
        + word(value_bits(t.ky) as int) + word(value_bits(t.sx) as int) + word(value_bits(t.sy) as int)
        + word(value_bits(t.f) as int) + word(value_bits(t.a) as int) + zero_words(frame_pad(v))
}

/// The image field of a frame: a string on PC, the image id on phones.
pub open spec fn image_bytes(t: ReanimTransform, v: ReanimVersion) -> Seq<u8> {
    if v == ReanimVersion::PC { str_field(opt_chars(t.i)) } else { word(image_id(t.i)) }
}

/// The strings of a frame: image, font and text.
pub open spec fn frame_strings_bytes(t: ReanimTransform, v: ReanimVersion) -> Seq<u8> {
    image_bytes(t, v) + str_field(opt_chars(t.font)) + str_field(opt_chars(t.text))
}

/// The concatenation of `f` over `ts`, in order.
pub open spec fn concat_map<A>(ts: Seq<A>, f: spec_fn(A) -> Seq<u8>) -> Seq<u8>
    decreases ts.len(),
{
    if ts.len() == 0 { Seq::empty() } else { concat_map(ts.drop_last(), f) + f(ts.last()) }
}

pub open spec fn values_fn(v: ReanimVersion) -> spec_fn(ReanimTransform) -> Seq<u8> {
    |t: ReanimTransform| frame_values_bytes(t, v)
}

pub open spec fn strings_fn(v: ReanimVersion) -> spec_fn(ReanimTransform) -> Seq<u8> {
    |t: ReanimTransform| frame_strings_bytes(t, v)
}

/// The values of all frames, in order.
pub open spec fn all_values(ts: Seq<ReanimTransform>, v: ReanimVersion) -> Seq<u8> {
    concat_map(ts, values_fn(v))
}

/// The strings of all frames, in order.
pub open spec fn all_strings(ts: Seq<ReanimTransform>, v: ReanimVersion) -> Seq<u8> {
    concat_map(ts, strings_fn(v))
}

/// A track: its name, the track magic, the values and the strings of its frames.
pub open spec fn track_bytes(t: ReanimTrack, v: ReanimVersion) -> Seq<u8> {
    str_field(t.name@) + word(track_magic(v)) + all_values(t.transforms@, v) + all_strings(t.transforms@, v)
}

/// A track entry: zero words around the frame count.
pub open spec fn entry_bytes(t: ReanimTrack, v: ReanimVersion) -> Seq<u8> {
    let c = word(t.transforms@.len() as int);
    match v {
        ReanimVersion::PC => zero_words(2) + c,
        ReanimVersion::Phone32 => zero_words(3) + c,
        ReanimVersion::Phone64 => zero_words(6) + c + zero_words(1),
    }
}

pub open spec fn entries_fn(v: ReanimVersion) -> spec_fn(ReanimTrack) -> Seq<u8> {
    |t: ReanimTrack| entry_bytes(t, v)
}

pub open spec fn tracks_fn(v: ReanimVersion) -> spec_fn(ReanimTrack) -> Seq<u8> {
    |t: ReanimTrack| track_bytes(t, v)
}

/// The entries of all tracks, in order.
pub open spec fn all_entries(ts: Seq<ReanimTrack>, v: ReanimVersion) -> Seq<u8> {
    concat_map(ts, entries_fn(v))
}

/// All tracks, in order.
pub open spec fn all_tracks(ts: Seq<ReanimTrack>, v: ReanimVersion) -> Seq<u8> {
    concat_map(ts, tracks_fn(v))
}

/// The first word of a body of each variant.
pub open spec fn body_magic(v: ReanimVersion) -> int {
    match v {
        ReanimVersion::PC => -1282165568,
        ReanimVersion::Phone32 => -14326347,
        ReanimVersion::Phone64 => -1069095568,
    }
}

/// The header of a body: magic, track count, frame rate and header magic.
pub open spec fn head_bytes(r: Reanim, v: ReanimVersion) -> Seq<u8> {
    let gap: nat = if v == ReanimVersion::Phone64 { 2 } else { 1 };
    word(body_magic(v)) + zero_words(gap) + word(r.tracks@.len() as int) + word(r.fps as int)
        + zero_words(gap) + word(head_magic(v))
}

/// The uncompressed body written for `r`.
pub open spec fn reanim_body(r: Reanim, v: ReanimVersion) -> Seq<u8> {
    head_bytes(r, v) + all_entries(r.tracks@, v) + all_tracks(r.tracks@, v)
}

/// A compressed file: the magic, the body size (between zero words on
/// 64-bit phones) and the zlib stream.
pub open spec fn reanim_file(body: Seq<u8>, stream: Seq<u8>, v: ReanimVersion) -> Seq<u8> {
    let z: nat = if v == ReanimVersion::Phone64 { 1 } else { 0 };
    word(compressed_magic()) + zero_words(z) + word(body.len() as int) + zero_words(z) + stream
}

// ─── What reads back ────────────────────────────────────────────────────────

/// Absent or non-empty, and short enough for its length word.
pub open spec fn str_ok(s: Option<String>) -> bool {
    match s {
        None => true,
        Some(t) => t@.len() > 0 && encode_utf8(t@).len() <= i32::MAX,
    }
}

/// No value is stored as the bits that mark an absent one.
pub open spec fn values_ok(t: ReanimTransform) -> bool {
    &&& t.x != Some(absent_bits())
    &&& t.y != Some(absent_bits())
    &&& t.kx != Some(absent_bits())
    &&& t.ky != Some(absent_bits())
    &&& t.sx != Some(absent_bits())
    &&& t.sy != Some(absent_bits())
    &&& t.f != Some(absent_bits())
    &&& t.a != Some(absent_bits())
}

/// The image reads back: a string on PC; on phones an integer other than
/// -1 written in its canonical decimal form, or absent.
pub open spec fn image_ok(i: Option<String>, v: ReanimVersion) -> bool {
    if v == ReanimVersion::PC {
        str_ok(i)
    } else {
        match i {
            None => true,
            Some(s) => match parsed_i32(s@) {
                Some(n) => n != -1 && signed_decimal(n as int) == s@,
                None => false,
            },
        }
    }
}

/// A frame that reads back as itself.
pub open spec fn frame_ok(t: ReanimTransform, v: ReanimVersion) -> bool {
    &&& values_ok(t)
    &&& image_ok(t.i, v)
    &&& t.resource is None
    &&& t.i2 is None
    &&& t.resource2 is None
    &&& str_ok(t.font)
    &&& str_ok(t.text)
}

/// The name of a track has no trailing NUL.
pub open spec fn name_ok(s: Seq<char>) -> bool {
    s.len() == 0 || (s.last() as u32) != 0
}

/// A track that reads back as itself.
pub open spec fn track_ok(t: ReanimTrack, v: ReanimVersion) -> bool {
    &&& encode_utf8(t.name@).len() <= i32::MAX
    &&& name_ok(t.name@)
    &&& t.transforms@.len() <= i32::MAX
    &&& forall|j: int| 0 <= j < t.transforms@.len() ==> frame_ok(#[trigger] t.transforms@[j], v)
}

/// `t2` is frame `t` without the fields the format does not hold (the
/// second image and the resource names), which read back as absent.
pub open spec fn frame_same_but_dropped(t2: ReanimTransform, t: ReanimTransform) -> bool {
    &&& t2.x == t.x && t2.y == t.y && t2.kx == t.kx && t2.ky == t.ky
    &&& t2.sx == t.sx && t2.sy == t.sy && t2.f == t.f && t2.a == t.a
    &&& t2.i == t.i && t2.font == t.font && t2.text == t.text
    &&& t2.resource is None && t2.i2 is None && t2.resource2 is None
}

/// `t2` is track `t` with each frame as `frame_same_but_dropped` says.
pub open spec fn track_same_but_dropped(t2: ReanimTrack, t: ReanimTrack) -> bool {
    &&& t2.name@ == t.name@
    &&& t2.transforms@.len() == t.transforms@.len()
    &&& forall|j: int| 0 <= j < t.transforms@.len()
        ==> frame_same_but_dropped(#[trigger] t2.transforms@[j], t.transforms@[j])
}

/// `r2` is animation `r` without the scale flag and the fields of its
/// frames that the format does not hold.
pub open spec fn same_but_dropped(r2: Reanim, r: Reanim) -> bool {
    &&& r2.do_scale is None
    &&& r2.fps == r.fps
    &&& r2.tracks@.len() == r.tracks@.len()
    &&& forall|k: int| 0 <= k < r.tracks@.len() ==> track_same_but_dropped(#[trigger] r2.tracks@[k], r.tracks@[k])
}

/// A frame whose other fields read back.
pub open spec fn frame_kept_ok(t: ReanimTransform, v: ReanimVersion) -> bool {
    &&& values_ok(t)
    &&& image_ok(t.i, v)
    &&& str_ok(t.font)
    &&& str_ok(t.text)
}

/// An animation whose fields other than the scale flag, the second images
/// and the resource names read back.
pub open spec fn reanim_kept_ok(r: Reanim, v: ReanimVersion) -> bool {
    &&& r.tracks@.len() <= i32::MAX
    &&& forall|k: int| 0 <= k < r.tracks@.len() ==> {
        let t = #[trigger] r.tracks@[k];
        &&& encode_utf8(t.name@).len() <= i32::MAX
        &&& name_ok(t.name@)
        &&& t.transforms@.len() <= i32::MAX
        &&& forall|j: int| 0 <= j < t.transforms@.len() ==> frame_kept_ok(#[trigger] t.transforms@[j], v)
    }
}

/// An animation that reads back as itself.
pub open spec fn reanim_ok(r: Reanim, v: ReanimVersion) -> bool {
    &&& r.do_scale is None
    &&& r.tracks@.len() <= i32::MAX
    &&& forall|k: int| 0 <= k < r.tracks@.len() ==> track_ok(#[trigger] r.tracks@[k], v)
}

/// Writes the body of `reanim` for the variant.
pub fn encode_body(reanim: &Reanim, version: ReanimVersion) -> (out: Vec<u8>)
    requires
        reanim.tracks@.len() <= i32::MAX,
    ensures
        out@ == reanim_body(*reanim, version),
{
    crate::reanim_write::write_body(reanim, version)
}

/// Frames a zlib stream of `body` as a compressed file of the variant.
pub fn compressed_file(body: &[u8], stream: &[u8], version: ReanimVersion) -> (out: Vec<u8>)
    ensures
        out@ == reanim_file(body@, stream@, version),
{
    crate::reanim_write::frame_stream(body, stream, version)
}

/// Encodes `reanim` as a compressed file of the variant.
pub fn encode(reanim: &Reanim, version: ReanimVersion) -> (res: Result<Vec<u8>, ReanimError>)
    requires
        reanim.tracks@.len() <= i32::MAX,
    ensures
        res matches Ok(out) && out@ == reanim_file(reanim_body(*reanim, version),
            zlib_deflate(reanim_body(*reanim, version)), version)
            && zlib_inflate(zlib_deflate(reanim_body(*reanim, version))) == Some(reanim_body(*reanim, version)),
{
    let body = encode_body(reanim, version);
    match deflate(body.as_slice()) {
        Some(stream) => Ok(compressed_file(body.as_slice(), stream.as_slice(), version)),
        None => Err(ReanimError::Io),
    }
}

/// Round trip: what `encode` writes for an animation the format can carry
/// is read back as that animation by the decoder of the same variant, and
/// `decode` picks that variant for PC and 32-bit phone files. (A 64-bit
/// phone file is also offered to the PC and 32-bit readers first, whose
/// outcome on it rests on what zlib reads from bytes it did not write.)
pub proof fn lemma_reanim_roundtrip(r: Reanim, v: ReanimVersion)
    requires
        reanim_ok(r, v),
        zlib_inflate(zlib_deflate(reanim_body(r, v))) == Some(reanim_body(r, v)),
    ensures
        variant_fault(reanim_file(reanim_body(r, v), zlib_deflate(reanim_body(r, v)), v), v) is None,
        decoded_as(r, reanim_file(reanim_body(r, v), zlib_deflate(reanim_body(r, v)), v), v),
        v != ReanimVersion::Phone64 ==> decode_admissible(reanim_file(reanim_body(r, v), zlib_deflate(reanim_body(r, v)), v)),
        v == ReanimVersion::Phone32 ==> variant_fault(reanim_file(reanim_body(r, v), zlib_deflate(reanim_body(r, v)), v), ReanimVersion::PC) is Some,
{
    crate::reanim_proof::lemma_file(r, v);
    if v == ReanimVersion::Phone32 {
        crate::reanim_proof::lemma_phone32_not_pc(r);
    }
}

/// Round trip through `decode` for 64-bit phone files. The PC and 32-bit
/// phone readers take the zlib stream from byte 8, where a 64-bit phone
/// file holds the body size and a zero word; where zlib refuses those bytes
/// (as it does whenever they do not start with a valid zlib header, see
/// `inflate`), both readers fail without an abort, and `decode` reads the
/// file with the 64-bit reader as the animation it was written for.
pub proof fn lemma_reanim_decode_phone64(r: Reanim)
    requires
        reanim_ok(r, ReanimVersion::Phone64),
        zlib_inflate(zlib_deflate(reanim_body(r, ReanimVersion::Phone64))) == Some(reanim_body(r, ReanimVersion::Phone64)),
        zlib_inflate(reanim_file(reanim_body(r, ReanimVersion::Phone64),
            zlib_deflate(reanim_body(r, ReanimVersion::Phone64)), ReanimVersion::Phone64).skip(8)) is None,
    ensures
        ({
            let d = reanim_file(reanim_body(r, ReanimVersion::Phone64),
                zlib_deflate(reanim_body(r, ReanimVersion::Phone64)), ReanimVersion::Phone64);
            &&& decode_admissible(d)
            &&& variant_fault(d, ReanimVersion::PC) == Some(Some(ReanimError::Io))
            &&& variant_fault(d, ReanimVersion::Phone32) == Some(Some(ReanimError::Io))
            &&& variant_fault(d, ReanimVersion::Phone64) is None
            &&& decoded_as(r, d, ReanimVersion::Phone64)
        }),
{
    let b = reanim_body(r, ReanimVersion::Phone64);
    let z = zlib_deflate(b);
    let d = reanim_file(b, z, ReanimVersion::Phone64);
    crate::reanim_proof::lemma_file(r, ReanimVersion::Phone64);
    lemma_magic_first(b.len() as int, z);
    assert(d == word(compressed_magic()) + (zero_words(1) + word(b.len() as int) + zero_words(1) + z)) by {
        assert(d =~= word(compressed_magic()) + (zero_words(1) + word(b.len() as int) + zero_words(1) + z));
    }
    lemma_short_readers_fail(d);
}

proof fn lemma_magic_first(n: int, z: Seq<u8>)
    ensures
        ({
            let d = word(compressed_magic()) + (zero_words(1) + word(n) + zero_words(1) + z);
            d.len() >= 16 && int_at(d, 0) == compressed_magic()
        }),
{
    let d = word(compressed_magic()) + (zero_words(1) + word(n) + zero_words(1) + z);
    assert(crate::reanim_proof::holds_at(d, 0, word(compressed_magic()))) by {
        assert(d.subrange(0, 4) =~= word(compressed_magic()));
    }
    crate::reanim_proof::lemma_at_word(d, 0, compressed_magic());
}

proof fn lemma_short_readers_fail(d: Seq<u8>)
    requires
        d.len() >= 16,
        int_at(d, 0) == compressed_magic(),
        zlib_inflate(d.skip(8)) is None,
        variant_fault(d, ReanimVersion::Phone64) is None,
    ensures
        decode_admissible(d),
        variant_fault(d, ReanimVersion::PC) == Some(Some(ReanimError::Io)),
        variant_fault(d, ReanimVersion::Phone32) == Some(Some(ReanimError::Io)),
{
}

/// Round trip with the fields the format does not hold: what `encode`
/// writes for `r` reads back, with the decoder of the same variant, as `r`
/// without its scale flag, second images and resource names; `decode`
/// picks that decoder for PC and 32-bit phone files.
pub proof fn lemma_reanim_roundtrip_dropping(r: Reanim, r2: Reanim, v: ReanimVersion)
    requires
        reanim_kept_ok(r, v),
        same_but_dropped(r2, r),
        zlib_inflate(zlib_deflate(reanim_body(r, v))) == Some(reanim_body(r, v)),
    ensures
        reanim_body(r2, v) == reanim_body(r, v),
        variant_fault(reanim_file(reanim_body(r, v), zlib_deflate(reanim_body(r, v)), v), v) is None,
        decoded_as(r2, reanim_file(reanim_body(r, v), zlib_deflate(reanim_body(r, v)), v), v),
        v != ReanimVersion::Phone64 ==> decode_admissible(reanim_file(reanim_body(r, v), zlib_deflate(reanim_body(r, v)), v)),
        v == ReanimVersion::Phone32 ==> variant_fault(reanim_file(reanim_body(r, v), zlib_deflate(reanim_body(r, v)), v), ReanimVersion::PC) is Some,
{
    crate::reanim_proof::lemma_body_same(r, r2, v);
    assert(reanim_ok(r2, v)) by {
        assert forall|k: int| 0 <= k < r2.tracks@.len() implies track_ok(#[trigger] r2.tracks@[k], v) by {
            let t = r.tracks@[k];
            let t2 = r2.tracks@[k];
            assert(track_same_but_dropped(t2, t));
            assert forall|j: int| 0 <= j < t2.transforms@.len() implies frame_ok(#[trigger] t2.transforms@[j], v) by {
                assert(frame_same_but_dropped(t2.transforms@[j], t.transforms@[j]));
                assert(frame_kept_ok(t.transforms@[j], v));
            }
        }
    }
    lemma_reanim_roundtrip(r2, v);
}

} // verus!
