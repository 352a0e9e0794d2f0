//! Compiled Particles definitions (PC, 32-bit and 64-bit phone variants).
//!
//! A compiled file is either the raw body or the magic `0xDEADFED4`, the
//! body size and the body as a zlib stream. The body is a header (track
//! count and a magic giving the emitter header size), one fixed-size header
//! per emitter (image grid, flags, emitter type and the field counts), then
//! per emitter its image, name, duration tracks, the 21 system tracks, the
//! fields and system fields, and the 16 particle tracks. Values are 32-bit
//! little-endian; the `f32`s of track nodes are held here by their bits.
use vstd::prelude::*;
use vstd::utf8::{decode_utf8, encode_utf8, valid_utf8};
use crate::bytes::{le32, read_le32};
use crate::reanim::{concat_map, image_id, int_at, name_ok, opt_chars, str_field, trim_nul, word, zero_words};
use crate::text::{parsed_i32, signed_decimal};
use crate::zlib::{deflate, inflate, zlib_deflate, zlib_inflate};

verus! {

/// One key of a track; `f32` values are held by their bits.
#[derive(Debug, Clone, Copy, PartialEq, Eq)]
pub struct ParticlesTrackNode {
    pub time: u32,
    pub low_value: Option<u32>,
    pub high_value: Option<u32>,
    pub curve_type: Option<i32>,
    pub distribution: Option<i32>,
}

#[derive(Debug, Clone)]
pub struct ParticlesField {
    pub field_type: Option<i32>,
    pub x: Option<Vec<ParticlesTrackNode>>,
    pub y: Option<Vec<ParticlesTrackNode>>,
}

#[derive(Debug, Clone)]
pub struct ParticlesEmitter {
    pub name: Option<String>,
    pub image: Option<String>,
    pub image_path: Option<String>,
    pub image_col: Option<i32>,
    pub image_row: Option<i32>,
    pub image_frames: Option<i32>,
    pub animated: Option<i32>,
    pub particle_flags: i32,
    pub emitter_type: Option<i32>,
    pub on_duration: Option<String>,
    pub system_duration: Option<Vec<ParticlesTrackNode>>,
    pub cross_fade_duration: Option<Vec<ParticlesTrackNode>>,
    pub spawn_rate: Option<Vec<ParticlesTrackNode>>,
    pub spawn_min_active: Option<Vec<ParticlesTrackNode>>,
    pub spawn_max_active: Option<Vec<ParticlesTrackNode>>,
    pub spawn_max_launched: Option<Vec<ParticlesTrackNode>>,
    pub emitter_radius: Option<Vec<ParticlesTrackNode>>,
    pub emitter_offset_x: Option<Vec<ParticlesTrackNode>>,
    pub emitter_offset_y: Option<Vec<ParticlesTrackNode>>,
    pub emitter_box_x: Option<Vec<ParticlesTrackNode>>,
    pub emitter_box_y: Option<Vec<ParticlesTrackNode>>,
    pub emitter_path: Option<Vec<ParticlesTrackNode>>,
    pub emitter_skew_x: Option<Vec<ParticlesTrackNode>>,
    pub emitter_skew_y: Option<Vec<ParticlesTrackNode>>,
    pub particle_duration: Option<Vec<ParticlesTrackNode>>,
    pub system_red: Option<Vec<ParticlesTrackNode>>,
    pub system_green: Option<Vec<ParticlesTrackNode>>,
    pub system_blue: Option<Vec<ParticlesTrackNode>>,
    pub system_alpha: Option<Vec<ParticlesTrackNode>>,
    pub system_brightness: Option<Vec<ParticlesTrackNode>>,
    pub launch_speed: Option<Vec<ParticlesTrackNode>>,
    pub launch_angle: Option<Vec<ParticlesTrackNode>>,
    pub field: Option<Vec<ParticlesField>>,
    pub system_field: Option<Vec<ParticlesField>>,
    pub particle_red: Option<Vec<ParticlesTrackNode>>,
    pub particle_green: Option<Vec<ParticlesTrackNode>>,
    pub particle_blue: Option<Vec<ParticlesTrackNode>>,
    pub particle_alpha: Option<Vec<ParticlesTrackNode>>,
    pub particle_brightness: Option<Vec<ParticlesTrackNode>>,
    pub particle_spin_angle: Option<Vec<ParticlesTrackNode>>,
    pub particle_spin_speed: Option<Vec<ParticlesTrackNode>>,
    pub particle_scale: Option<Vec<ParticlesTrackNode>>,
    pub particle_stretch: Option<Vec<ParticlesTrackNode>>,
    pub collision_reflect: Option<Vec<ParticlesTrackNode>>,
    pub collision_spin: Option<Vec<ParticlesTrackNode>>,
    pub clip_top: Option<Vec<ParticlesTrackNode>>,
    pub clip_bottom: Option<Vec<ParticlesTrackNode>>,
    pub clip_left: Option<Vec<ParticlesTrackNode>>,
    pub clip_right: Option<Vec<ParticlesTrackNode>>,
    pub animation_rate: Option<Vec<ParticlesTrackNode>>,
}

#[derive(Debug, Clone)]
pub struct Particles {
    pub emitters: Vec<ParticlesEmitter>,
}

#[derive(Debug, Clone, Copy, PartialEq, Eq, Structural)]
pub enum ParticlesVersion {
    PC,
    Phone32,
    Phone64,
}

/// Errors of the Particles and Trail codecs.
#[derive(Debug, Clone, Copy, PartialEq, Eq, Structural)]
pub enum ParticlesError {
    /// The data ends inside a value, or its zlib stream cannot be read.
    Io,
    InvalidVariant,
    /// A magic differs: the expected value, then 0.
    UnsupportedFormat(u32, u32),
    StringDecodeError,
}

/// An emitter with every optional part absent and no flags.
pub open spec fn blank_emitter(e: ParticlesEmitter) -> bool {
    &&& e.name is None
    &&& e.image is None
    &&& e.image_path is None
    &&& e.image_col is None
    &&& e.image_row is None
    &&& e.image_frames is None
    &&& e.animated is None
    &&& e.emitter_type is None
    &&& e.on_duration is None
    &&& e.system_duration is None
    &&& e.cross_fade_duration is None
    &&& e.spawn_rate is None
    &&& e.spawn_min_active is None
    &&& e.spawn_max_active is None
    &&& e.spawn_max_launched is None
    &&& e.emitter_radius is None
    &&& e.emitter_offset_x is None
    &&& e.emitter_offset_y is None
    &&& e.emitter_box_x is None
    &&& e.emitter_box_y is None
    &&& e.emitter_path is None
    &&& e.emitter_skew_x is None
    &&& e.emitter_skew_y is None
    &&& e.particle_duration is None
    &&& e.system_red is None
    &&& e.system_green is None
    &&& e.system_blue is None
    &&& e.system_alpha is None
    &&& e.system_brightness is None
    &&& e.launch_speed is None
    &&& e.launch_angle is None
    &&& e.field is None
    &&& e.system_field is None
    &&& e.particle_red is None
    &&& e.particle_green is None
    &&& e.particle_blue is None
    &&& e.particle_alpha is None
    &&& e.particle_brightness is None
    &&& e.particle_spin_angle is None
    &&& e.particle_spin_speed is None
    &&& e.particle_scale is None
    &&& e.particle_stretch is None
    &&& e.collision_reflect is None
    &&& e.collision_spin is None
    &&& e.clip_top is None
    &&& e.clip_bottom is None
    &&& e.clip_left is None
    &&& e.clip_right is None
    &&& e.animation_rate is None
    &&& e.particle_flags == 0
}

/// No part of the body of an emitter is set.
pub open spec fn blank_body(e: ParticlesEmitter) -> bool {
    &&& e.name is None && e.image is None && e.image_path is None && e.on_duration is None
    &&& e.system_duration is None && e.field is None && e.system_field is None
    &&& forall|j: int| 0 <= j < 21 ==> #[trigger] system_tracks(e)[j] is None
    &&& forall|j: int| 0 <= j < 16 ==> #[trigger] particle_tracks(e)[j] is None
}

impl Default for ParticlesEmitter {
    fn default() -> (e: Self)
        ensures
            blank_emitter(e),
    {
        ParticlesEmitter {
            name: None,
            image: None,
            image_path: None,
            image_col: None,
            image_row: None,
            image_frames: None,
            animated: None,
            emitter_type: None,
            on_duration: None,
            system_duration: None,
            cross_fade_duration: None,
            spawn_rate: None,
            spawn_min_active: None,
            spawn_max_active: None,
            spawn_max_launched: None,
            emitter_radius: None,
            emitter_offset_x: None,
            emitter_offset_y: None,
            emitter_box_x: None,
            emitter_box_y: None,
            emitter_path: None,
            emitter_skew_x: None,
            emitter_skew_y: None,
            particle_duration: None,
            system_red: None,
            system_green: None,
            system_blue: None,
            system_alpha: None,
            system_brightness: None,
            launch_speed: None,
            launch_angle: None,
            field: None,
            system_field: None,
            particle_red: None,
            particle_green: None,
            particle_blue: None,
            particle_alpha: None,
            particle_brightness: None,
            particle_spin_angle: None,
            particle_spin_speed: None,
            particle_scale: None,
            particle_stretch: None,
            collision_reflect: None,
            collision_spin: None,
            clip_top: None,
            clip_bottom: None,
            clip_left: None,
            clip_right: None,
            animation_rate: None,
            particle_flags: 0,
        }
    }
}

impl Default for ParticlesField {
    fn default() -> (f: Self)
        ensures
            f.field_type is None && f.x is None && f.y is None,
    {
        ParticlesField { field_type: None, x: None, y: None }
    }
}

impl Default for ParticlesTrackNode {
    fn default() -> (n: Self)
        ensures
            n.time == 0 && n.low_value is None && n.high_value is None,
            n.curve_type is None && n.distribution is None,
    {
        ParticlesTrackNode { time: 0, low_value: None, high_value: None, curve_type: None, distribution: None }
    }
}

impl Default for Particles {
    fn default() -> (p: Self)
        ensures
            p.emitters@.len() == 0,
    {
        Particles { emitters: Vec::new() }
    }
}

impl Default for ParticlesVersion {
    fn default() -> (v: Self)
        ensures
            v == ParticlesVersion::PC,
    {
        ParticlesVersion::PC
    }
}

// ─── Layout ─────────────────────────────────────────────────────────────────

/// The magic of a compressed file, `0xDEADFED4`, as a signed value.
pub open spec fn compiled_magic() -> int { -559022380 }

pub open spec fn is_p64(v: ParticlesVersion) -> bool { v == ParticlesVersion::Phone64 }

/// Where the emitter count is.
pub open spec fn count_at(v: ParticlesVersion) -> int { if is_p64(v) { 12 } else { 8 } }

/// Where the emitter headers start (after the count and the header magic).
pub open spec fn heads_at(v: ParticlesVersion) -> int { if is_p64(v) { 24 } else { 16 } }

/// The header magic: the size of an emitter header.
pub open spec fn head_size(v: ParticlesVersion) -> int { if is_p64(v) { 0x2B0 } else { 0x164 } }

/// Bytes of `k` emitter headers.
pub open spec fn heads_len(v: ParticlesVersion, k: int) -> int { if is_p64(v) { 0x2B0 * k } else { 0x164 * k } }

/// Where the image grid starts within an emitter header.
pub open spec fn grid_at(v: ParticlesVersion) -> int { if is_p64(v) { 8 } else { 4 } }

/// Where the field and system field counts are within an emitter header.
pub open spec fn field_count_at(v: ParticlesVersion) -> int { if is_p64(v) { 408 } else { 216 } }
pub open spec fn sys_count_at(v: ParticlesVersion) -> int { if is_p64(v) { 424 } else { 224 } }

/// The magic before a field list: the size of a field header.
pub open spec fn field_size(v: ParticlesVersion) -> int { if is_p64(v) { 0x18 } else { 0x14 } }

/// Bytes of `k` field headers.
pub open spec fn field_heads_len(v: ParticlesVersion, k: int) -> int { if is_p64(v) { 0x18 * k } else { 0x14 * k } }

/// The emitter count.
pub open spec fn emitter_count(b: Seq<u8>, v: ParticlesVersion) -> int { int_at(b, count_at(v)) }

/// Where the header of emitter `i` is.
pub open spec fn head_pos(v: ParticlesVersion, i: int) -> int { heads_at(v) + heads_len(v, i) }

/// The field and system field counts of emitter `i`.
pub open spec fn field_count(b: Seq<u8>, v: ParticlesVersion, i: int) -> int {
    int_at(b, head_pos(v, i) + field_count_at(v))
}
pub open spec fn sys_count(b: Seq<u8>, v: ParticlesVersion, i: int) -> int {
    int_at(b, head_pos(v, i) + sys_count_at(v))
}

// ─── Strings and track nodes ────────────────────────────────────────────────

/// Where the length-prefixed string at `p` ends.
pub open spec fn str_end(b: Seq<u8>, p: int) -> int {
    if int_at(b, p) <= 0 { p + 4 } else { p + 4 + int_at(b, p) }
}

/// The bytes of the string at `p`, trailing NULs removed.
pub open spec fn str_bytes(b: Seq<u8>, p: int) -> Seq<u8> {
    trim_nul(b.subrange(p + 4, p + 4 + int_at(b, p)))
}

/// The fault reading the string at `p`, if any.
pub open spec fn str_fault(b: Seq<u8>, p: int) -> Option<ParticlesError> {
    let l = int_at(b, p);
    if p + 4 > b.len() {
        Some(ParticlesError::Io)
    } else if l > 0 && p + 4 + l > b.len() {
        Some(ParticlesError::Io)
    } else if l > 0 && !valid_utf8(str_bytes(b, p)) {
        Some(ParticlesError::StringDecodeError)
    } else {
        None
    }
}

/// The characters of the string at `p`.
pub open spec fn str_chars(b: Seq<u8>, p: int) -> Seq<char> {
    if int_at(b, p) <= 0 { Seq::empty() } else { decode_utf8(str_bytes(b, p)) }
}

/// The string at `p`, none when empty.
pub open spec fn str_value(b: Seq<u8>, p: int) -> Option<Seq<char>> {
    if str_chars(b, p).len() == 0 { None } else { Some(str_chars(b, p)) }
}

/// The view of an optional string.
pub open spec fn opt_view(s: Option<String>) -> Option<Seq<char>> {
    match s {
        Some(t) => Some(t@),
        None => None,
    }
}

/// `Some(x)` unless `x` is the default `d`.
pub open spec fn unless(x: int, d: int) -> Option<i32> {
    if x == d { None } else { Some(x as i32) }
}

/// An `f32` value, none when it equals zero (either sign).
pub open spec fn nonzero_bits(bits: int) -> Option<u32> {
    if bits % 0x8000_0000 == 0 { None } else { Some(bits as u32) }
}

/// `n` is the node stored at `q`.
pub open spec fn node_read(n: ParticlesTrackNode, b: Seq<u8>, q: int) -> bool {
    &&& n.time == le32(b, q) as u32
    &&& n.low_value == nonzero_bits(le32(b, q + 4))
    &&& n.high_value == nonzero_bits(le32(b, q + 8))
    &&& n.curve_type == unless(int_at(b, q + 12), 1)
    &&& n.distribution == unless(int_at(b, q + 16), 1)
}

/// Where the node list at `p` ends.
pub open spec fn nodes_end(b: Seq<u8>, p: int) -> int {
    let c = int_at(b, p);
    if c <= 0 { p + 4 } else { p + 4 + 20 * c }
}

/// Reading the node list at `p`: `Some(None)` where decoding aborts
/// (a negative count), `Some(Some(e))` for a fault.
pub open spec fn nodes_fault(b: Seq<u8>, p: int) -> Option<Option<ParticlesError>> {
    let c = int_at(b, p);
    if p + 4 > b.len() {
        Some(Some(ParticlesError::Io))
    } else if c < 0 {
        Some(None)
    } else if p + 4 + 20 * c > b.len() {
        Some(Some(ParticlesError::Io))
    } else {
        None
    }
}

/// `o` is the node list at `p`: none for a count of zero.
pub open spec fn nodes_read(o: Option<Vec<ParticlesTrackNode>>, b: Seq<u8>, p: int) -> bool {
    let c = int_at(b, p);
    if c == 0 {
        o is None
    } else {
        &&& o matches Some(ns)
        &&& ns@.len() == c
        &&& forall|j: int| 0 <= j < c ==> #[trigger] node_read(ns@[j], b, p + 4 + 20 * j)
    }
}

/// Where the `k`-th of consecutive node lists starting at `p` starts.
pub open spec fn run_pos(b: Seq<u8>, p: int, k: int) -> int
    decreases k,
{
    if k <= 0 { p } else { nodes_end(b, run_pos(b, p, k - 1)) }
}

/// The first fault reading node lists `j` to `k` of the run at `p`.
pub open spec fn run_fault(b: Seq<u8>, p: int, j: int, k: int) -> Option<Option<ParticlesError>>
    decreases k - j,
{
    if j < 0 || j >= k {
        None
    } else if nodes_fault(b, run_pos(b, p, j)) is Some {
        nodes_fault(b, run_pos(b, p, j))
    } else {
        run_fault(b, p, j + 1, k)
    }
}

/// `s` holds the `k` node lists of the run at `p`.
pub open spec fn run_read(s: Seq<Option<Vec<ParticlesTrackNode>>>, b: Seq<u8>, p: int, k: int) -> bool {
    &&& s.len() == k
    &&& forall|j: int| 0 <= j < k ==> #[trigger] nodes_read(s[j], b, run_pos(b, p, j))
}

// ─── Fields ─────────────────────────────────────────────────────────────────

/// Where the node lists of `c` fields whose list starts at `p` start.
pub open spec fn field_nodes_at(v: ParticlesVersion, p: int, c: int) -> int {
    p + 4 + field_heads_len(v, c)
}

/// Where a list of `c` fields starting at `p` ends.
pub open spec fn fields_end(b: Seq<u8>, v: ParticlesVersion, p: int, c: int) -> int {
    run_pos(b, field_nodes_at(v, p, c), 2 * c)
}

/// The first fault reading a list of `c` fields at `p`.
pub open spec fn fields_fault(b: Seq<u8>, v: ParticlesVersion, p: int, c: int) -> Option<Option<ParticlesError>> {
    if p + 4 > b.len() {
        Some(Some(ParticlesError::Io))
    } else if int_at(b, p) != field_size(v) {
        Some(Some(ParticlesError::UnsupportedFormat(field_size(v) as u32, 0)))
    } else if field_nodes_at(v, p, c) > b.len() {
        Some(Some(ParticlesError::Io))
    } else {
        run_fault(b, field_nodes_at(v, p, c), 0, 2 * c)
    }
}

/// `o` is the list of `c` fields at `p`: none when `c` is zero.
pub open spec fn fields_read(o: Option<Vec<ParticlesField>>, b: Seq<u8>, v: ParticlesVersion, p: int, c: int) -> bool {
    let q = field_nodes_at(v, p, c);
    if c == 0 {
        o is None
    } else {
        &&& o matches Some(fs)
        &&& fs@.len() == c
        &&& forall|k: int| 0 <= k < c ==> {
            &&& (#[trigger] fs@[k]).field_type == unless(int_at(b, p + 4 + field_heads_len(v, k)), 0)
            &&& nodes_read(fs@[k].x, b, run_pos(b, q, 2 * k))
            &&& nodes_read(fs@[k].y, b, run_pos(b, q, 2 * k + 1))
        }
    }
}

// ─── Emitters ───────────────────────────────────────────────────────────────

/// The fault reading the header of emitter `i`.
pub open spec fn head_fault(b: Seq<u8>, v: ParticlesVersion, i: int) -> Option<Option<ParticlesError>> {
    let q = head_pos(v, i);
    if q + field_count_at(v) + 4 > b.len() {
        Some(Some(ParticlesError::Io))
    } else if field_count(b, v, i) < 0 {
        Some(None)
    } else if q + sys_count_at(v) + 4 > b.len() {
        Some(Some(ParticlesError::Io))
    } else if sys_count(b, v, i) < 0 {
        Some(None)
    } else if q + head_size(v) > b.len() {
        Some(Some(ParticlesError::Io))
    } else {
        None
    }
}

/// The first fault reading headers `i` to `n`.
pub open spec fn heads_fault(b: Seq<u8>, v: ParticlesVersion, i: int, n: int) -> Option<Option<ParticlesError>>
    decreases n - i,
{
    if i < 0 || i >= n {
        None
    } else if head_fault(b, v, i) is Some {
        head_fault(b, v, i)
    } else {
        heads_fault(b, v, i + 1, n)
    }
}

/// `e` holds what the header of emitter `i` gives.
pub open spec fn head_read(e: ParticlesEmitter, b: Seq<u8>, v: ParticlesVersion, i: int) -> bool {
    let g = head_pos(v, i) + grid_at(v);
    &&& e.image_col == unless(int_at(b, g), 0)
    &&& e.image_row == unless(int_at(b, g + 4), 0)
    &&& e.image_frames == unless(int_at(b, g + 8), 1)
    &&& e.animated == unless(int_at(b, g + 12), 0)
    &&& e.particle_flags == int_at(b, g + 16)
    &&& e.emitter_type == unless(int_at(b, g + 20), 1)
}

/// Where the image of an emitter at `p` ends: a string on PC, an integer
/// on phones.
pub open spec fn image_end(b: Seq<u8>, v: ParticlesVersion, p: int) -> int {
    if v == ParticlesVersion::PC { str_end(b, p) } else { p + 4 }
}

pub open spec fn image_fault(b: Seq<u8>, v: ParticlesVersion, p: int) -> Option<ParticlesError> {
    if v == ParticlesVersion::PC {
        str_fault(b, p)
    } else if p + 4 > b.len() {
        Some(ParticlesError::Io)
    } else {
        None
    }
}

/// The image: the string on PC; on phones the integer in decimal, none for -1.
pub open spec fn image_value(b: Seq<u8>, v: ParticlesVersion, p: int) -> Option<Seq<char>> {
    if v == ParticlesVersion::PC {
        str_value(b, p)
    } else if int_at(b, p) == -1 {
        None
    } else {
        Some(signed_decimal(int_at(b, p)))
    }
}

/// Positions in the body of an emitter starting at `p`.
pub open spec fn name_at(b: Seq<u8>, v: ParticlesVersion, p: int) -> int { image_end(b, v, p) }
pub open spec fn duration_at(b: Seq<u8>, v: ParticlesVersion, p: int) -> int { str_end(b, name_at(b, v, p)) }
pub open spec fn on_duration_at(b: Seq<u8>, v: ParticlesVersion, p: int) -> int { nodes_end(b, duration_at(b, v, p)) }
pub open spec fn system_run_at(b: Seq<u8>, v: ParticlesVersion, p: int) -> int { str_end(b, on_duration_at(b, v, p)) }

/// Positions in the rest of a body, from its system tracks at `s` on.
pub open spec fn fields_at(b: Seq<u8>, s: int) -> int { run_pos(b, s, 21) }
pub open spec fn sys_fields_at(b: Seq<u8>, v: ParticlesVersion, s: int, fc: int) -> int {
    fields_end(b, v, fields_at(b, s), fc)
}
pub open spec fn particle_run_at(b: Seq<u8>, v: ParticlesVersion, s: int, fc: int, sc: int) -> int {
    fields_end(b, v, sys_fields_at(b, v, s, fc), sc)
}
pub open spec fn tail_end(b: Seq<u8>, v: ParticlesVersion, s: int, fc: int, sc: int) -> int {
    run_pos(b, particle_run_at(b, v, s, fc, sc), 16)
}
pub open spec fn emitter_end(b: Seq<u8>, v: ParticlesVersion, p: int, fc: int, sc: int) -> int {
    tail_end(b, v, system_run_at(b, v, p), fc, sc)
}

/// The first fault reading the image, name, duration track and on-duration
/// of an emitter at `p`.
pub open spec fn intro_fault(b: Seq<u8>, v: ParticlesVersion, p: int) -> Option<Option<ParticlesError>> {
    if image_fault(b, v, p) is Some {
        Some(image_fault(b, v, p))
    } else if str_fault(b, name_at(b, v, p)) is Some {
        Some(str_fault(b, name_at(b, v, p)))
    } else if nodes_fault(b, duration_at(b, v, p)) is Some {
        nodes_fault(b, duration_at(b, v, p))
    } else if str_fault(b, on_duration_at(b, v, p)) is Some {
        Some(str_fault(b, on_duration_at(b, v, p)))
    } else {
        None
    }
}

/// The first fault reading the rest of a body from its system tracks at `s`.
pub open spec fn tail_fault(b: Seq<u8>, v: ParticlesVersion, s: int, fc: int, sc: int) -> Option<Option<ParticlesError>> {
    if run_fault(b, s, 0, 21) is Some {
        run_fault(b, s, 0, 21)
    } else if fields_fault(b, v, fields_at(b, s), fc) is Some {
        fields_fault(b, v, fields_at(b, s), fc)
    } else if fields_fault(b, v, sys_fields_at(b, v, s, fc), sc) is Some {
        fields_fault(b, v, sys_fields_at(b, v, s, fc), sc)
    } else {
        run_fault(b, particle_run_at(b, v, s, fc, sc), 0, 16)
    }
}

/// The first fault reading the body of an emitter at `p` with `fc` fields
/// and `sc` system fields.
pub open spec fn emitter_fault(b: Seq<u8>, v: ParticlesVersion, p: int, fc: int, sc: int) -> Option<Option<ParticlesError>> {
    if intro_fault(b, v, p) is Some {
        intro_fault(b, v, p)
    } else {
        tail_fault(b, v, system_run_at(b, v, p), fc, sc)
    }
}

/// The 21 system tracks of an emitter, in file order.
pub open spec fn system_tracks(e: ParticlesEmitter) -> Seq<Option<Vec<ParticlesTrackNode>>> {
    seq![e.cross_fade_duration, e.spawn_rate, e.spawn_min_active, e.spawn_max_active,
        e.spawn_max_launched, e.emitter_radius, e.emitter_offset_x, e.emitter_offset_y,
        e.emitter_box_x, e.emitter_box_y, e.emitter_path, e.emitter_skew_x, e.emitter_skew_y,
        e.particle_duration, e.system_red, e.system_green, e.system_blue, e.system_alpha,
        e.system_brightness, e.launch_speed, e.launch_angle]
}

/// The 16 particle tracks of an emitter, in file order.
pub open spec fn particle_tracks(e: ParticlesEmitter) -> Seq<Option<Vec<ParticlesTrackNode>>> {
    seq![e.particle_red, e.particle_green, e.particle_blue, e.particle_alpha,
        e.particle_brightness, e.particle_spin_angle, e.particle_spin_speed, e.particle_scale,
        e.particle_stretch, e.collision_reflect, e.collision_spin, e.clip_top, e.clip_bottom,
        e.clip_left, e.clip_right, e.animation_rate]
}

/// `r` and `e` hold the same header values.
pub open spec fn same_head(r: ParticlesEmitter, e: ParticlesEmitter) -> bool {
    &&& r.image_col == e.image_col
    &&& r.image_row == e.image_row
    &&& r.image_frames == e.image_frames
    &&& r.animated == e.animated
    &&& r.particle_flags == e.particle_flags
    &&& r.emitter_type == e.emitter_type
}

/// `e` holds the image, name, duration track and on-duration of an emitter at `p`.
pub open spec fn intro_read(e: ParticlesEmitter, b: Seq<u8>, v: ParticlesVersion, p: int) -> bool {
    &&& opt_view(e.image) == image_value(b, v, p)
    &&& e.image_path is None
    &&& opt_view(e.name) == str_value(b, name_at(b, v, p))
    &&& nodes_read(e.system_duration, b, duration_at(b, v, p))
    &&& opt_view(e.on_duration) == str_value(b, on_duration_at(b, v, p))
}

/// `e` holds the rest of a body from its system tracks at `s`.
pub open spec fn tail_read(e: ParticlesEmitter, b: Seq<u8>, v: ParticlesVersion, s: int, fc: int, sc: int) -> bool {
    &&& run_read(system_tracks(e), b, s, 21)
    &&& fields_read(e.field, b, v, fields_at(b, s), fc)
    &&& fields_read(e.system_field, b, v, sys_fields_at(b, v, s, fc), sc)
    &&& run_read(particle_tracks(e), b, particle_run_at(b, v, s, fc, sc), 16)
}

/// `e` holds what the body of an emitter at `p` gives.
pub open spec fn body_read(e: ParticlesEmitter, b: Seq<u8>, v: ParticlesVersion, p: int, fc: int, sc: int) -> bool {
    &&& intro_read(e, b, v, p)
    &&& tail_read(e, b, v, system_run_at(b, v, p), fc, sc)
}

// ─── Bodies ─────────────────────────────────────────────────────────────────

/// Where the emitter bodies start.
pub open spec fn bodies_at(b: Seq<u8>, v: ParticlesVersion) -> int {
    let n = emitter_count(b, v);
    head_pos(v, if n < 0 { 0 } else { n })
}

/// Where the body of emitter `i` starts.
pub open spec fn emitter_pos(b: Seq<u8>, v: ParticlesVersion, i: int) -> int
    decreases i,
{
    if i <= 0 {
        bodies_at(b, v)
    } else {
        emitter_end(b, v, emitter_pos(b, v, i - 1), field_count(b, v, i - 1), sys_count(b, v, i - 1))
    }
}

/// The first fault reading emitter bodies `i` to `n`.
pub open spec fn bodies_fault(b: Seq<u8>, v: ParticlesVersion, i: int, n: int) -> Option<Option<ParticlesError>>
    decreases n - i,
{
    if i < 0 || i >= n {
        None
    } else if emitter_fault(b, v, emitter_pos(b, v, i), field_count(b, v, i), sys_count(b, v, i)) is Some {
        emitter_fault(b, v, emitter_pos(b, v, i), field_count(b, v, i), sys_count(b, v, i))
    } else {
        bodies_fault(b, v, i + 1, n)
    }
}

/// The first fault reading a body: `None` for success, `Some(None)` where
/// decoding aborts (a negative count), `Some(Some(e))` for an error.
pub open spec fn body_fault(b: Seq<u8>, v: ParticlesVersion) -> Option<Option<ParticlesError>> {
    let n = emitter_count(b, v);
    if b.len() < count_at(v) + 4 {
        Some(Some(ParticlesError::Io))
    } else if n < 0 {
        Some(None)
    } else if b.len() < heads_at(v) {
        Some(Some(ParticlesError::Io))
    } else if int_at(b, heads_at(v) - 4) != head_size(v) {
        Some(Some(ParticlesError::UnsupportedFormat(head_size(v) as u32, 0)))
    } else if heads_fault(b, v, 0, n) is Some {
        heads_fault(b, v, 0, n)
    } else {
        bodies_fault(b, v, 0, n)
    }
}

/// `r` is what a body describes.
pub open spec fn particles_read(r: Particles, b: Seq<u8>, v: ParticlesVersion) -> bool {
    &&& r.emitters@.len() == emitter_count(b, v)
    &&& forall|i: int| 0 <= i < emitter_count(b, v) ==> {
        &&& head_read(#[trigger] r.emitters@[i], b, v, i)
        &&& body_read(r.emitters@[i], b, v, emitter_pos(b, v, i), field_count(b, v, i), sys_count(b, v, i))
    }
}

/// The body inside a file: the file itself, or its zlib stream read back.
pub open spec fn payload(d: Seq<u8>) -> Result<Seq<u8>, ParticlesError> {
    if d.len() < 4 {
        Err(ParticlesError::Io)
    } else if int_at(d, 0) != compiled_magic() {
        Ok(d)
    } else if d.len() < 8 {
        Err(ParticlesError::Io)
    } else {
        match zlib_inflate(d.skip(8)) {
            Some(x) => Ok(x),
            None => Err(ParticlesError::Io),
        }
    }
}

/// The first fault decoding a file as variant `v` (as `body_fault`).
pub open spec fn variant_fault(d: Seq<u8>, v: ParticlesVersion) -> Option<Option<ParticlesError>> {
    match payload(d) {
        Err(e) => Some(Some(e)),
        Ok(b) => body_fault(b, v),
    }
}

/// `r` is what decoding `d` as variant `v` gives.
pub open spec fn decoded_as(r: Particles, d: Seq<u8>, v: ParticlesVersion) -> bool {
    match payload(d) {
        Ok(b) => particles_read(r, b, v),
        Err(_) => false,
    }
}

// ─── Decoding ───────────────────────────────────────────────────────────────

/// Decoding as the first `k` variants in order (PC, 32-bit phone, 64-bit
/// phone) never reaches an input on which decoding aborts (a negative count,
/// for which nothing can be allocated).
pub open spec fn decode_admissible(d: Seq<u8>) -> bool {
    &&& variant_fault(d, ParticlesVersion::PC) != Some::<Option<ParticlesError>>(None)
    &&& variant_fault(d, ParticlesVersion::PC) is Some
        ==> variant_fault(d, ParticlesVersion::Phone32) != Some::<Option<ParticlesError>>(None)
    &&& variant_fault(d, ParticlesVersion::PC) is Some && variant_fault(d, ParticlesVersion::Phone32) is Some
        ==> variant_fault(d, ParticlesVersion::Phone64) != Some::<Option<ParticlesError>>(None)
}

/// Decodes a PC file.
pub fn decode_pc(data: &[u8]) -> (res: Result<Particles, ParticlesError>)
    requires
        variant_fault(data@, ParticlesVersion::PC) != Some::<Option<ParticlesError>>(None),
    ensures
        res is Err <==> variant_fault(data@, ParticlesVersion::PC) is Some,
        res matches Err(e) ==> variant_fault(data@, ParticlesVersion::PC) == Some(Some(e)),
        res matches Ok(r) ==> decoded_as(r, data@, ParticlesVersion::PC),
{
    crate::particles_read::decode_variant(data, ParticlesVersion::PC)
}

/// Decodes a 32-bit phone file.
pub fn decode_phone32(data: &[u8]) -> (res: Result<Particles, ParticlesError>)
    requires
        variant_fault(data@, ParticlesVersion::Phone32) != Some::<Option<ParticlesError>>(None),
    ensures
        res is Err <==> variant_fault(data@, ParticlesVersion::Phone32) is Some,
        res matches Err(e) ==> variant_fault(data@, ParticlesVersion::Phone32) == Some(Some(e)),
        res matches Ok(r) ==> decoded_as(r, data@, ParticlesVersion::Phone32),
{
    crate::particles_read::decode_variant(data, ParticlesVersion::Phone32)
}

/// Decodes a 64-bit phone file.
pub fn decode_phone64(data: &[u8]) -> (res: Result<Particles, ParticlesError>)
    requires
        variant_fault(data@, ParticlesVersion::Phone64) != Some::<Option<ParticlesError>>(None),
    ensures
        res is Err <==> variant_fault(data@, ParticlesVersion::Phone64) is Some,
        res matches Err(e) ==> variant_fault(data@, ParticlesVersion::Phone64) == Some(Some(e)),
        res matches Ok(r) ==> decoded_as(r, data@, ParticlesVersion::Phone64),
{
    crate::particles_read::decode_variant(data, ParticlesVersion::Phone64)
}

/// Decodes a file as the first variant that reads it: PC, then 32-bit
/// phone, then 64-bit phone.
pub fn decode(data: &[u8]) -> (res: Result<Particles, ParticlesError>)
    requires
        decode_admissible(data@),
    ensures
        res is Ok <==> variant_fault(data@, ParticlesVersion::PC) is None
            || variant_fault(data@, ParticlesVersion::Phone32) is None
            || variant_fault(data@, ParticlesVersion::Phone64) is None,
        res matches Err(e) ==> e == ParticlesError::InvalidVariant,
        res matches Ok(r) ==> if variant_fault(data@, ParticlesVersion::PC) is None {
            decoded_as(r, data@, ParticlesVersion::PC)
        } else if variant_fault(data@, ParticlesVersion::Phone32) is None {
            decoded_as(r, data@, ParticlesVersion::Phone32)
        } else {
            decoded_as(r, data@, ParticlesVersion::Phone64)
        },
{
    if let Ok(r) = decode_pc(data) {
        return Ok(r);
    }
    if let Ok(r) = decode_phone32(data) {
        return Ok(r);
    }
    if let Ok(r) = decode_phone64(data) {
        return Ok(r);
    }
    Err(ParticlesError::InvalidVariant)
}

/// Decodes a file as `decode` does, first testing what `decode` requires:
/// `None` exactly where trying PC, then 32-bit phone, then 64-bit phone
/// reaches an input on which decoding aborts.
pub fn decode_checked(data: &[u8]) -> (res: Option<Result<Particles, ParticlesError>>)
    ensures
        res is None <==> !decode_admissible(data@),
        res matches Some(x) ==> {
            &&& x is Ok <==> variant_fault(data@, ParticlesVersion::PC) is None
                || variant_fault(data@, ParticlesVersion::Phone32) is None
                || variant_fault(data@, ParticlesVersion::Phone64) is None
            &&& x matches Err(e) ==> e == ParticlesError::InvalidVariant
            &&& x matches Ok(r) ==> if variant_fault(data@, ParticlesVersion::PC) is None {
                decoded_as(r, data@, ParticlesVersion::PC)
            } else if variant_fault(data@, ParticlesVersion::Phone32) is None {
                decoded_as(r, data@, ParticlesVersion::Phone32)
            } else {
                decoded_as(r, data@, ParticlesVersion::Phone64)
            }
        },
{
    match crate::particles_read::decode_variant_checked(data, ParticlesVersion::PC) {
        Ok(r) => { return Some(Ok(r)); },
        Err(None) => { return None; },
        Err(Some(_)) => {},
    }
    match crate::particles_read::decode_variant_checked(data, ParticlesVersion::Phone32) {
        Ok(r) => { return Some(Ok(r)); },
        Err(None) => { return None; },
        Err(Some(_)) => {},
    }
    match crate::particles_read::decode_variant_checked(data, ParticlesVersion::Phone64) {
        Ok(r) => { return Some(Ok(r)); },
        Err(None) => { return None; },
        Err(Some(_)) => {},
    }
    Some(Err(ParticlesError::InvalidVariant))
}

// ─── Encoding ───────────────────────────────────────────────────────────────

/// `x`, or `d` when absent.
pub open spec fn or(x: Option<i32>, d: int) -> int {
    match x {
        Some(y) => y as int,
        None => d,
    }
}

/// Bits of an optional value, those of `0.0` when absent.
pub open spec fn bits_or_zero(x: Option<u32>) -> int {
    match x {
        Some(y) => y as int,
        None => 0,
    }
}

/// A node as written.
pub open spec fn node_bytes(n: ParticlesTrackNode) -> Seq<u8> {
    word(n.time as int) + word(bits_or_zero(n.low_value)) + word(bits_or_zero(n.high_value))
        + word(or(n.curve_type, 1)) + word(or(n.distribution, 1))
}

pub open spec fn node_fn() -> spec_fn(ParticlesTrackNode) -> Seq<u8> {
    |n: ParticlesTrackNode| node_bytes(n)
}

/// A node list as written: its count, then its nodes; a count of zero when absent.
pub open spec fn nodes_bytes(o: Option<Vec<ParticlesTrackNode>>) -> Seq<u8> {
    match o {
        None => word(0),
        Some(ns) => word(ns@.len() as int) + concat_map(ns@, node_fn()),
    }
}

pub open spec fn nodes_fn() -> spec_fn(Option<Vec<ParticlesTrackNode>>) -> Seq<u8> {
    |o: Option<Vec<ParticlesTrackNode>>| nodes_bytes(o)
}

/// An optional string as written, empty when absent.
pub open spec fn string_bytes(s: Option<String>) -> Seq<u8> {
    str_field(opt_chars(s))
}

/// The header of a field as written.
pub open spec fn field_head_bytes(f: ParticlesField, v: ParticlesVersion) -> Seq<u8> {
    word(or(f.field_type, 0)) + zero_words(if is_p64(v) { 5nat } else { 4nat })
}

pub open spec fn field_head_fn(v: ParticlesVersion) -> spec_fn(ParticlesField) -> Seq<u8> {
    |f: ParticlesField| field_head_bytes(f, v)
}

/// The node lists of a field as written.
pub open spec fn field_nodes_bytes(f: ParticlesField) -> Seq<u8> {
    nodes_bytes(f.x) + nodes_bytes(f.y)
}

pub open spec fn field_nodes_fn() -> spec_fn(ParticlesField) -> Seq<u8> {
    |f: ParticlesField| field_nodes_bytes(f)
}

/// A field list as written: the field size, the headers, then the node lists.
pub open spec fn fields_bytes(o: Option<Vec<ParticlesField>>, v: ParticlesVersion) -> Seq<u8> {
    word(field_size(v)) + match o {
        None => Seq::empty(),
        Some(fs) => concat_map(fs@, field_head_fn(v)) + concat_map(fs@, field_nodes_fn()),
    }
}

/// The number of fields in an optional list.
pub open spec fn field_len(o: Option<Vec<ParticlesField>>) -> int {
    match o {
        None => 0,
        Some(fs) => fs@.len() as int,
    }
}

/// The image grid, flags and emitter type of a header as written.
pub open spec fn grid_bytes(e: ParticlesEmitter) -> Seq<u8> {
    word(or(e.image_col, 0)) + word(or(e.image_row, 0)) + word(or(e.image_frames, 1))
        + word(or(e.animated, 0)) + word(e.particle_flags as int) + word(or(e.emitter_type, 1))
}

/// The header of an emitter as written.
pub open spec fn emitter_head_bytes(e: ParticlesEmitter, v: ParticlesVersion) -> Seq<u8> {
    let grid = grid_bytes(e);
    if is_p64(v) {
        zero_words(2) + grid + zero_words(94) + word(field_len(e.field)) + zero_words(3)
            + word(field_len(e.system_field)) + zero_words(65)
    } else {
        zero_words(1) + grid + zero_words(47) + word(field_len(e.field)) + zero_words(1)
            + word(field_len(e.system_field)) + zero_words(32)
    }
}

pub open spec fn emitter_head_fn(v: ParticlesVersion) -> spec_fn(ParticlesEmitter) -> Seq<u8> {
    |e: ParticlesEmitter| emitter_head_bytes(e, v)
}

/// The image of an emitter as written: a string on PC, its id on phones.
pub open spec fn image_bytes(e: ParticlesEmitter, v: ParticlesVersion) -> Seq<u8> {
    if v == ParticlesVersion::PC { string_bytes(e.image) } else { word(image_id(e.image)) }
}

/// The body of an emitter as written.
pub open spec fn emitter_body_bytes(e: ParticlesEmitter, v: ParticlesVersion) -> Seq<u8> {
    image_bytes(e, v) + string_bytes(e.name) + nodes_bytes(e.system_duration) + string_bytes(e.on_duration)
        + concat_map(system_tracks(e), nodes_fn()) + fields_bytes(e.field, v)
        + fields_bytes(e.system_field, v) + concat_map(particle_tracks(e), nodes_fn())
}

pub open spec fn emitter_body_fn(v: ParticlesVersion) -> spec_fn(ParticlesEmitter) -> Seq<u8> {
    |e: ParticlesEmitter| emitter_body_bytes(e, v)
}

/// The first word of a body of each variant.
pub open spec fn particles_magic(v: ParticlesVersion) -> int {
    if is_p64(v) { -527264279 } else { 1092589901 }
}

/// The header of a body as written.
pub open spec fn particles_head_bytes(r: Particles, v: ParticlesVersion) -> Seq<u8> {
    let n = word(r.emitters@.len() as int);
    if is_p64(v) {
        word(particles_magic(v)) + zero_words(2) + n + zero_words(1) + word(head_size(v))
    } else {
        word(particles_magic(v)) + zero_words(1) + n + word(head_size(v))
    }
}

/// The uncompressed body written for `r`.
pub open spec fn particles_body(r: Particles, v: ParticlesVersion) -> Seq<u8> {
    particles_head_bytes(r, v) + concat_map(r.emitters@, emitter_head_fn(v))
        + concat_map(r.emitters@, emitter_body_fn(v))
}

/// A compressed file: the magic, the body size and the zlib stream.
pub open spec fn compiled_file(body: Seq<u8>, stream: Seq<u8>) -> Seq<u8> {
    word(compiled_magic()) + word(body.len() as int) + stream
}

// ─── What reads back ────────────────────────────────────────────────────────

/// Absent, or non-empty without a trailing NUL and short enough for its
/// length word: what the reader gives back as written.
pub open spec fn text_ok(s: Option<String>) -> bool {
    match s {
        None => true,
        Some(t) => t@.len() > 0 && name_ok(t@) && encode_utf8(t@).len() <= i32::MAX,
    }
}

/// A node whose optional parts read back: its values are not zero and its
/// curve and distribution not the default 1.
pub open spec fn node_ok(n: ParticlesTrackNode) -> bool {
    &&& (n.low_value matches Some(x) ==> x % 0x8000_0000 != 0)
    &&& (n.high_value matches Some(x) ==> x % 0x8000_0000 != 0)
    &&& n.curve_type != Some(1i32)
    &&& n.distribution != Some(1i32)
}

/// Absent, or a non-empty list of such nodes.
pub open spec fn nodes_ok(o: Option<Vec<ParticlesTrackNode>>) -> bool {
    match o {
        None => true,
        Some(ns) => 0 < ns@.len() <= i32::MAX && forall|j: int| 0 <= j < ns@.len() ==> node_ok(#[trigger] ns@[j]),
    }
}

pub open spec fn field_ok(f: ParticlesField) -> bool {
    f.field_type != Some(0i32) && nodes_ok(f.x) && nodes_ok(f.y)
}

/// Absent, or a non-empty list of such fields.
pub open spec fn fields_ok(o: Option<Vec<ParticlesField>>) -> bool {
    match o {
        None => true,
        Some(fs) => 0 < fs@.len() <= i32::MAX && forall|k: int| 0 <= k < fs@.len() ==> field_ok(#[trigger] fs@[k]),
    }
}

/// The image reads back: a string on PC; on phones an integer other than
/// -1 in its canonical decimal form, or absent.
pub open spec fn image_ok(i: Option<String>, v: ParticlesVersion) -> bool {
    if v == ParticlesVersion::PC {
        text_ok(i)
    } else {
        match i {
            None => true,
            Some(t) => match parsed_i32(t@) {
                Some(n) => n != -1 && signed_decimal(n as int) == t@,
                None => false,
            },
        }
    }
}

/// An emitter that reads back as itself.
pub open spec fn emitter_ok(e: ParticlesEmitter, v: ParticlesVersion) -> bool {
    &&& image_ok(e.image, v)
    &&& e.image_path is None
    &&& text_ok(e.name)
    &&& text_ok(e.on_duration)
    &&& e.image_col != Some(0i32) && e.image_row != Some(0i32) && e.animated != Some(0i32)
    &&& e.image_frames != Some(1i32) && e.emitter_type != Some(1i32)
    &&& nodes_ok(e.system_duration)
    &&& forall|j: int| 0 <= j < 21 ==> nodes_ok(#[trigger] system_tracks(e)[j])
    &&& forall|j: int| 0 <= j < 16 ==> nodes_ok(#[trigger] particle_tracks(e)[j])
    &&& fields_ok(e.field)
    &&& fields_ok(e.system_field)
}

/// A definition that reads back as itself.
pub open spec fn particles_ok(r: Particles, v: ParticlesVersion) -> bool {
    &&& r.emitters@.len() <= i32::MAX
    &&& forall|i: int| 0 <= i < r.emitters@.len() ==> emitter_ok(#[trigger] r.emitters@[i], v)
}

// ─── Compressed files and shared readers ────────────────────────────────────

/// What `popcap_decompress` gives: the zlib stream after the magic and size
/// read back.
pub open spec fn decompressed(d: Seq<u8>) -> Result<Seq<u8>, ParticlesError> {
    if d.len() < 8 {
        Err(ParticlesError::InvalidVariant)
    } else if le32(d, 0) != 0xDEADFED4 {
        Err(ParticlesError::InvalidVariant)
    } else {
        match zlib_inflate(d.skip(8)) {
            Some(x) => Ok(x),
            None => Err(ParticlesError::Io),
        }
    }
}

/// Reads a compressed file (`0xDEADFED4`, the size, the zlib stream).
pub fn popcap_decompress(data: &[u8]) -> (res: Result<Vec<u8>, ParticlesError>)
    ensures
        res is Ok <==> decompressed(data@) is Ok,
        res matches Err(e) ==> decompressed(data@) == Err::<Seq<u8>, ParticlesError>(e),
        res matches Ok(b) ==> decompressed(data@) == Ok::<Seq<u8>, ParticlesError>(b@),
{
    let len = data.len();
    if len < 8 {
        return Err(ParticlesError::InvalidVariant);
    }
    if read_le32(data, 0) != 0xDEADFED4 {
        return Err(ParticlesError::InvalidVariant);
    }
    let stream = vstd::slice::slice_subrange(data, 8, len);
    assert(stream@ == data@.skip(8));
    match inflate(stream) {
        Some(b) => Ok(b),
        None => Err(ParticlesError::Io),
    }
}

/// Frames a zlib stream of `body` as a compressed file.
pub fn compiled_frame(body: &[u8], stream: &[u8]) -> (out: Vec<u8>)
    ensures
        out@ == compiled_file(body@, stream@),
{
    crate::particles_write::frame_stream(body, stream)
}

/// Compresses `data` into a compressed file.
pub fn popcap_compress(data: &[u8]) -> (res: Result<Vec<u8>, ParticlesError>)
    ensures
        res matches Ok(out) && out@ == compiled_file(data@, zlib_deflate(data@))
            && zlib_inflate(zlib_deflate(data@)) == Some(data@),
{
    match deflate(data) {
        Some(stream) => Ok(compiled_frame(data, stream.as_slice())),
        None => Err(ParticlesError::Io),
    }
}

/// A position in a byte buffer being read.
pub struct ByteReader<'a> {
    pub data: &'a [u8],
    pub pos: usize,
}

/// Reads a length-prefixed string (trailing NULs removed).
pub fn read_string(reader: &mut ByteReader) -> (res: Result<String, ParticlesError>)
    ensures
        final(reader).data@ == old(reader).data@,
        res is Err <==> str_fault(old(reader).data@, old(reader).pos as int) is Some,
        res matches Err(e) ==> str_fault(old(reader).data@, old(reader).pos as int) == Some(e),
        res matches Ok(s) ==> s@ == str_chars(old(reader).data@, old(reader).pos as int)
            && final(reader).pos == str_end(old(reader).data@, old(reader).pos as int),
{
    match crate::particles_read::read_str(reader.data, reader.pos) {
        Err(e) => Err(e),
        Ok((s, q)) => {
            reader.pos = q;
            match s {
                Some(t) => Ok(t),
                None => Ok(String::new()),
            }
        },
    }
}

/// Reads a length-prefixed string, none when empty.
pub fn read_string_opt(reader: &mut ByteReader) -> (res: Result<Option<String>, ParticlesError>)
    ensures
        final(reader).data@ == old(reader).data@,
        res is Err <==> str_fault(old(reader).data@, old(reader).pos as int) is Some,
        res matches Err(e) ==> str_fault(old(reader).data@, old(reader).pos as int) == Some(e),
        res matches Ok(s) ==> opt_view(s) == str_value(old(reader).data@, old(reader).pos as int)
            && final(reader).pos == str_end(old(reader).data@, old(reader).pos as int),
{
    match crate::particles_read::read_str(reader.data, reader.pos) {
        Err(e) => Err(e),
        Ok((s, q)) => {
            reader.pos = q;
            Ok(s)
        },
    }
}

/// Reads a node list (its count, then the nodes); none for a count of zero.
pub fn read_track_nodes(reader: &mut ByteReader) -> (res: Result<Option<Vec<ParticlesTrackNode>>, ParticlesError>)
    requires
        nodes_fault(old(reader).data@, old(reader).pos as int) != Some::<Option<ParticlesError>>(None),
    ensures
        final(reader).data@ == old(reader).data@,
        res is Err <==> nodes_fault(old(reader).data@, old(reader).pos as int) is Some,
        res matches Err(e) ==> nodes_fault(old(reader).data@, old(reader).pos as int) == Some(Some(e)),
        res matches Ok(o) ==> nodes_read(o, old(reader).data@, old(reader).pos as int)
            && final(reader).pos == nodes_end(old(reader).data@, old(reader).pos as int),
{
    match crate::particles_read::read_nodes(reader.data, reader.pos) {
        Err(Some(e)) => Err(e),
        Err(None) => {
            assert(false);
            Err(ParticlesError::Io)
        },
        Ok((o, q)) => {
            reader.pos = q;
            Ok(o)
        },
    }
}

/// Appends a string after its byte length.
pub fn write_string(out: &mut Vec<u8>, s: &str)
    ensures
        final(out)@ == old(out)@ + str_field(s@),
{
    crate::reanim_write::push_str(out, s);
}

/// Appends a node list: its count, then its nodes; a count of zero when absent.
pub fn write_track_nodes(out: &mut Vec<u8>, nodes: &Option<Vec<ParticlesTrackNode>>)
    ensures
        final(out)@ == old(out)@ + nodes_bytes(*nodes),
{
    crate::particles_write::push_nodes(out, nodes);
}

/// What `write_string` appends, `read_string_opt` reads back from where it
/// starts, whatever bytes stand before and after it: no fault, the string
/// itself (none when empty), and the read stops just past it. This holds of
/// strings that do not end in a NUL character (the reader drops trailing
/// NULs) and whose UTF-8 length fits the `i32` length field.
pub proof fn lemma_string_write_read(pre: Seq<u8>, s: Seq<char>, post: Seq<u8>)
    requires
        name_ok(s),
        encode_utf8(s).len() <= i32::MAX,
    ensures
        str_fault(pre + str_field(s) + post, pre.len() as int) is None,
        str_value(pre + str_field(s) + post, pre.len() as int) == (if s.len() == 0 {
            None
        } else {
            Some(s)
        }),
        str_end(pre + str_field(s) + post, pre.len() as int) == pre.len() + str_field(s).len(),
{
    crate::particles_proof::lemma_holds_between(pre, str_field(s), post);
    crate::particles_proof::lemma_at_chars(pre + str_field(s) + post, pre.len() as int, s);
}

/// The nodes of a list, none when it is absent or empty.
pub open spec fn listed(o: Option<Vec<ParticlesTrackNode>>) -> Option<Seq<ParticlesTrackNode>> {
    match o {
        Some(ns) => if ns@.len() == 0 { None } else { Some(ns@) },
        None => None,
    }
}

/// What `write_track_nodes` appends, `read_track_nodes` reads back from
/// where it starts, whatever bytes stand before and after it: no fault, the
/// same nodes (none when the list is absent or empty), and the read stops
/// just past it. This holds of lists whose count fits the `i32` count field
/// and whose nodes read back (see `node_ok`: the reader takes a zero value
/// for an absent one, and a curve or distribution of 1 for the default).
pub proof fn lemma_nodes_write_read(pre: Seq<u8>, o: Option<Vec<ParticlesTrackNode>>, post: Seq<u8>)
    requires
        o matches Some(ns) ==> ns@.len() <= i32::MAX && forall|j: int|
            0 <= j < ns@.len() ==> node_ok(#[trigger] ns@[j]),
    ensures
        nodes_fault(pre + nodes_bytes(o) + post, pre.len() as int) is None,
        nodes_end(pre + nodes_bytes(o) + post, pre.len() as int) == pre.len() + nodes_bytes(o).len(),
        forall|r: Option<Vec<ParticlesTrackNode>>|
            #[trigger] nodes_read(r, pre + nodes_bytes(o) + post, pre.len() as int) ==> listed(r)
                == listed(o) && (r is None <==> listed(o) is None),
{
    let b = pre + nodes_bytes(o) + post;
    let p = pre.len() as int;
    crate::particles_proof::lemma_holds_between(pre, nodes_bytes(o), post);
    match o {
        Some(ns) => {
            if ns@.len() == 0 {
                assert(concat_map(ns@, node_fn()) =~= Seq::<u8>::empty());
                assert(nodes_bytes(o) =~= word(0));
                crate::reanim_proof::lemma_at_word(b, p, 0);
            } else {
                crate::particles_proof::lemma_at_nodes(b, p, o);
                assert forall|r: Option<Vec<ParticlesTrackNode>>| #[trigger] nodes_read(r, b, p) implies listed(r)
                    == listed(o) && (r is None <==> listed(o) is None) by {
                    let rs = r->Some_0;
                    assert forall|j: int| 0 <= j < ns@.len() implies rs@[j] == ns@[j] by {
                        crate::particles_proof::lemma_node_read_unique(rs@[j], ns@[j], b, p + 4 + 20 * j);
                    }
                    assert(rs@ =~= ns@);
                }
            }
        },
        None => {
            crate::particles_proof::lemma_at_nodes(b, p, o);
        },
    }
}

// ─── Writing ────────────────────────────────────────────────────────────────

/// Writes the body of `particles` for the variant.
pub fn encode_body(particles: &Particles, version: ParticlesVersion) -> (out: Vec<u8>)
    requires
        particles.emitters@.len() <= i32::MAX,
    ensures
        out@ == particles_body(*particles, version),
{
    crate::particles_write::write_body(particles, version)
}

/// Encodes `particles` as a compressed file of the variant.
pub fn encode(particles: &Particles, version: ParticlesVersion) -> (res: Result<Vec<u8>, ParticlesError>)
    requires
        particles.emitters@.len() <= i32::MAX,
    ensures
        res matches Ok(out) && out@ == compiled_file(particles_body(*particles, version),
            zlib_deflate(particles_body(*particles, version)))
            && zlib_inflate(zlib_deflate(particles_body(*particles, version))) == Some(particles_body(*particles, version)),
{
    let body = encode_body(particles, version);
    popcap_compress(body.as_slice())
}

/// Round trip: what `encode` writes for a definition the format can carry
/// is read back as that definition by the decoder of the same variant, and
/// `decode` reads a PC file as PC.
pub proof fn lemma_particles_roundtrip(r: Particles, v: ParticlesVersion)
    requires
        particles_ok(r, v),
        zlib_inflate(zlib_deflate(particles_body(r, v))) == Some(particles_body(r, v)),
    ensures
        variant_fault(compiled_file(particles_body(r, v), zlib_deflate(particles_body(r, v))), v) is None,
        decoded_as(r, compiled_file(particles_body(r, v), zlib_deflate(particles_body(r, v))), v),
        v == ParticlesVersion::PC ==> decode_admissible(compiled_file(particles_body(r, v), zlib_deflate(particles_body(r, v)))),
{
    crate::particles_proof::lemma_compiled_payload(particles_body(r, v));
    crate::particles_proof::lemma_particles_body(r, v);
}

/// Round trip through `decode` for 64-bit phone files: what `encode` writes
/// for a definition the format can carry is refused by the PC and 32-bit
/// phone readers (the word they take as the header size is the emitter
/// count, here not `0x164`) and read back as that definition by the 64-bit
/// reader, which `decode` then uses.
pub proof fn lemma_particles_decode_phone64(r: Particles)
    requires
        particles_ok(r, ParticlesVersion::Phone64),
        r.emitters@.len() != 0x164,
        zlib_inflate(zlib_deflate(particles_body(r, ParticlesVersion::Phone64)))
            == Some(particles_body(r, ParticlesVersion::Phone64)),
    ensures
        ({
            let d = compiled_file(particles_body(r, ParticlesVersion::Phone64),
                zlib_deflate(particles_body(r, ParticlesVersion::Phone64)));
            &&& decode_admissible(d)
            &&& variant_fault(d, ParticlesVersion::PC) is Some
            &&& variant_fault(d, ParticlesVersion::Phone32) is Some
            &&& variant_fault(d, ParticlesVersion::Phone64) is None
            &&& decoded_as(r, d, ParticlesVersion::Phone64)
        }),
{
    let b = particles_body(r, ParticlesVersion::Phone64);
    let d = compiled_file(b, zlib_deflate(b));
    lemma_particles_roundtrip(r, ParticlesVersion::Phone64);
    crate::particles_proof::lemma_compiled_payload(b);
    crate::particles_proof::lemma_phone64_not_short(r);
    lemma_third_variant(d, b);
}

/// Round trip through `decode` for 32-bit phone files whose emitters have no
/// image: the PC reader, which `decode` tries first, reads such a file just
/// as the 32-bit phone reader does (the image word -1 is an empty image
/// string to it), so `decode` gives back the definition written. (With an
/// image, the PC reader takes its id for a string length: an image "0"
/// comes back absent.)
pub proof fn lemma_particles_decode_phone32(r: Particles)
    requires
        particles_ok(r, ParticlesVersion::Phone32),
        forall|i: int| 0 <= i < r.emitters@.len() ==> (#[trigger] r.emitters@[i]).image is None,
        zlib_inflate(zlib_deflate(particles_body(r, ParticlesVersion::Phone32)))
            == Some(particles_body(r, ParticlesVersion::Phone32)),
    ensures
        ({
            let d = compiled_file(particles_body(r, ParticlesVersion::Phone32),
                zlib_deflate(particles_body(r, ParticlesVersion::Phone32)));
            &&& decode_admissible(d)
            &&& variant_fault(d, ParticlesVersion::PC) is None
            &&& decoded_as(r, d, ParticlesVersion::PC)
        }),
{
    let b = particles_body(r, ParticlesVersion::Phone32);
    lemma_particles_roundtrip(r, ParticlesVersion::Phone32);
    crate::particles_proof::lemma_compiled_payload(b);
    crate::particles_proof::lemma_written_blank_images(r);
    crate::particles_proof::lemma_short_readers_agree(b);
    assert(particles_read(r, b, ParticlesVersion::PC) == particles_read(r, b, ParticlesVersion::Phone32));
}

/// An emitter with its image dropped.
pub open spec fn without_image(e: ParticlesEmitter) -> ParticlesEmitter {
    ParticlesEmitter { image: None, ..e }
}

/// Round trip through `decode` for 32-bit phone files whose images are not
/// decimal ids: such an image is written as the id -1, like no image, so
/// `decode` reads the file with the PC reader as the definition written
/// without its images.
pub proof fn lemma_particles_decode_phone32_dropping(r: Particles, r2: Particles)
    requires
        r2.emitters@.len() == r.emitters@.len(),
        forall|i: int| 0 <= i < r.emitters@.len() ==> #[trigger] r2.emitters@[i] == without_image(r.emitters@[i]),
        forall|i: int| 0 <= i < r.emitters@.len() ==> image_id(#[trigger] r.emitters@[i].image) == -1,
        particles_ok(r2, ParticlesVersion::Phone32),
        zlib_inflate(zlib_deflate(particles_body(r, ParticlesVersion::Phone32)))
            == Some(particles_body(r, ParticlesVersion::Phone32)),
    ensures
        ({
            let d = compiled_file(particles_body(r, ParticlesVersion::Phone32),
                zlib_deflate(particles_body(r, ParticlesVersion::Phone32)));
            &&& decode_admissible(d)
            &&& variant_fault(d, ParticlesVersion::PC) is None
            &&& decoded_as(r2, d, ParticlesVersion::PC)
        }),
{
    let v = ParticlesVersion::Phone32;
    let xs = r2.emitters@;
    let ys = r.emitters@;
    assert forall|k: int| 0 <= k < xs.len() implies #[trigger] emitter_head_fn(v)(xs[k]) == emitter_head_fn(v)(ys[k])
        && emitter_body_fn(v)(xs[k]) == emitter_body_fn(v)(ys[k]) by {
        assert(xs[k] == without_image(ys[k]));
    }
    crate::reanim_proof::lemma_concat_map_congruent(xs, ys, emitter_head_fn(v));
    crate::reanim_proof::lemma_concat_map_congruent(xs, ys, emitter_body_fn(v));
    assert(particles_body(r2, v) == particles_body(r, v));
    lemma_particles_decode_phone32(r2);
}

/// A file whose body the first two readers refuse, without an abort, and the
/// third reads, is admissible to `decode`.
proof fn lemma_third_variant(d: Seq<u8>, b: Seq<u8>)
    requires
        payload(d) == Ok::<Seq<u8>, ParticlesError>(b),
        body_fault(b, ParticlesVersion::PC) == Some(Some(ParticlesError::UnsupportedFormat(0x164u32, 0u32))),
        body_fault(b, ParticlesVersion::Phone32) == Some(Some(ParticlesError::UnsupportedFormat(0x164u32, 0u32))),
        body_fault(b, ParticlesVersion::Phone64) is None,
    ensures
        decode_admissible(d),
        variant_fault(d, ParticlesVersion::PC) is Some,
        variant_fault(d, ParticlesVersion::Phone32) is Some,
{
}

/// Compiled formats sharing the compressed-file wrapper.
pub trait PopCapCodec: Sized {
    /// The inputs that decoding accepts without aborting.
    spec fn decodable(data: Seq<u8>) -> bool;

    /// The values that encoding can write.
    spec fn encodable(&self) -> bool;

    /// Decodes from compiled data.
    fn decode(data: &[u8]) -> (res: Result<Self, ParticlesError>)
        requires
            Self::decodable(data@),
    ;

    /// Encodes to compiled data.
    fn encode(&self) -> (res: Result<Vec<u8>, ParticlesError>)
        requires
            self.encodable(),
    ;
}

impl PopCapCodec for Particles {
    open spec fn decodable(data: Seq<u8>) -> bool {
        decode_admissible(data)
    }

    open spec fn encodable(&self) -> bool {
        self.emitters@.len() <= i32::MAX
    }

    fn decode(data: &[u8]) -> (res: Result<Self, ParticlesError>)
        ensures
            res matches Err(e) ==> e == ParticlesError::InvalidVariant,
            res matches Ok(r) ==> decoded_as(r, data@, ParticlesVersion::PC)
                || decoded_as(r, data@, ParticlesVersion::Phone32)
                || decoded_as(r, data@, ParticlesVersion::Phone64),
            res is Ok <==> variant_fault(data@, ParticlesVersion::PC) is None
                || variant_fault(data@, ParticlesVersion::Phone32) is None
                || variant_fault(data@, ParticlesVersion::Phone64) is None,
    {
        decode(data)
    }

    fn encode(&self) -> (res: Result<Vec<u8>, ParticlesError>)
        ensures
            res matches Ok(out) ==> out@ == compiled_file(particles_body(*self, ParticlesVersion::PC),
                zlib_deflate(particles_body(*self, ParticlesVersion::PC))),
            res matches Err(e) ==> e == ParticlesError::Io,
    {
        encode(self, ParticlesVersion::PC)
    }
}

} // verus!
