//! Reading back what the PAM writer wrote.
use vstd::prelude::*;
use vstd::utf8::{encode_utf8};
use crate::bytes::{le16, le32, lemma_le32_roundtrip, as_i32};
use crate::pam::{
    joined, lemma_joined_last,
    as_i16, b16, b32, b8, count_at, count_bytes, i16_at, i16v, i32_at, i32v, list_at, lossy_text,
    str_at, str_bytes, text_ok, u16_at, u8_at, low_bits6, high_bits5, high_bits6, RemovesInfo,
    removes_bytes, removes_ok, removes_at, AddsView, adds_bytes, adds_ok, adds_at, adds_num,
    adds_index_part, adds_resource_part, adds_preload_part, adds_name_part, adds_scale_part,
    add_index_at, add_resource_at, add_preload_at, add_name_at, add_scale_at, MovesInfo,
    MoveTransform, moves_bytes, moves_ok, moves_at, moves_num, moves_index_part,
    move_transform_bytes, moves_coords_part, moves_rect_part, moves_color_part, moves_frame_part,
    long_coords, move_index_at, move_transform_at, move_coords_at, move_rect_at, move_color_at,
    move_frame_at, div20, command_bytes, command_at, section_bytes, section_at, removes_bytes_fn,
    removes_fn, adds_bytes_fn, adds_fn, moves_bytes_fn, moves_fn, command_bytes_fn, command_fn,
    commands_at, FrameView, frame_ok, frame_bytes, frame_at, frame_flags, label_at, SpriteView,
    sprite_ok, sprite_bytes, sprite_at, sprite_head_at, sprite_span_at, or_empty, frame_bytes_fn,
    frame_fn, ImageView, ImageTransform, image_ok, image_bytes, image_at, image_size_at,
    image_transform_at, image_transform_bytes, PamView, PamError, pam_ok, pam_bytes, pam_read,
    pam_body_at, image_bytes_fn, image_fn, sprite_bytes_fn, sprite_fn, main_sprite_at, PAM_MAGIC,
};
use crate::reanim_proof::{holds_at, lemma_at_split};

verus! {

/// `s` stands in `d` at `p`.
#[verifier::opaque]
pub open spec fn placed(d: Seq<u8>, p: int, s: Seq<u8>) -> bool {
    holds_at(d, p, s)
}

pub proof fn lemma_placed_split(d: Seq<u8>, p: int, x: Seq<u8>, y: Seq<u8>)
    requires
        placed(d, p, x + y),
    ensures
        placed(d, p, x),
        placed(d, p + x.len(), y),
{
    reveal(placed);
    lemma_at_split(d, p, x, y);
}

pub proof fn lemma_placed_whole(d: Seq<u8>)
    ensures
        placed(d, 0, d),
{
    reveal(placed);
    assert(d.subrange(0, d.len() as int) =~= d);
}

pub proof fn lemma_at_byte(d: Seq<u8>, p: int, k: int, s: Seq<u8>)
    requires
        placed(d, p, s),
        0 <= k < s.len(),
    ensures
        d[p + k] == s[k],
{
    reveal(placed);
    assert(d.subrange(p, p + s.len())[k] == d[p + k]);
}

pub proof fn lemma_at_u8(d: Seq<u8>, p: int, b: u8)
    requires
        placed(d, p, seq![b]),
    ensures
        u8_at(d, p) == Some((b, p + 1)),
{
    reveal(placed);
    lemma_at_byte(d, p, 0, seq![b]);
}

pub proof fn lemma_at_b8(d: Seq<u8>, p: int, v: int)
    requires
        placed(d, p, b8(v)),
    ensures
        u8_at(d, p) == Some(((v % 0x100) as u8, p + 1)),
{
    lemma_at_u8(d, p, (v % 0x100) as u8);
}

pub proof fn lemma_at_b16(d: Seq<u8>, p: int, v: int)
    requires
        placed(d, p, b16(v)),
    ensures
        le16(d, p) == v % 0x1_0000,
        u16_at(d, p) == Some(((v % 0x1_0000) as u16, p + 2)),
        -0x8000 <= v < 0x8000 ==> i16_at(d, p) == Some((v as i16, p + 2)) && i16v(d, p) == v,
{
    reveal(placed);
    let s = b16(v);
    lemma_at_byte(d, p, 0, s);
    lemma_at_byte(d, p, 1, s);
    let x = v % 0x1_0000;
    assert(le16(d, p) == x);
    if -0x8000 <= v < 0x8000 {
        assert(as_i16(x) == v);
    }
}

pub proof fn lemma_at_b32(d: Seq<u8>, p: int, v: int)
    requires
        placed(d, p, b32(v)),
    ensures
        le32(d, p) == v % 0x1_0000_0000,
        i32::MIN <= v <= i32::MAX ==> i32_at(d, p) == Some((v as i32, p + 4)) && i32v(d, p) == v,
{
    reveal(placed);
    let s = b32(v);
    lemma_at_byte(d, p, 0, s);
    lemma_at_byte(d, p, 1, s);
    lemma_at_byte(d, p, 2, s);
    lemma_at_byte(d, p, 3, s);
    let x = v % 0x1_0000_0000;
    lemma_le32_roundtrip(x);
    assert(le32(s, 0) == x);
    assert(le32(d, p) == le32(s, 0));
    if i32::MIN <= v <= i32::MAX {
        assert(as_i32(x) == v);
    }
}

pub proof fn lemma_at_str(d: Seq<u8>, p: int, s: Seq<char>)
    requires
        placed(d, p, str_bytes(s)),
        text_ok(s),
    ensures
        str_at(d, p) == Some((s, p + str_bytes(s).len())),
{
    reveal(placed);
    let e = encode_utf8(s);
    lemma_placed_split(d, p, b16(e.len() as int), e);
    lemma_at_b16(d, p, e.len() as int);
    vstd::utf8::encode_utf8_valid_utf8(s);
    vstd::utf8::encode_utf8_decode_utf8(s);
    assert(d.subrange(p + 2, p + 2 + e.len()) == e);
    assert(lossy_text(e) == s);
}

pub proof fn lemma_at_count(d: Seq<u8>, p: int, n: nat)
    requires
        placed(d, p, count_bytes(n)),
        n <= 0xFFFF,
    ensures
        count_at(d, p) == Some((n, p + count_bytes(n).len())),
{
    if n >= 255 {
        lemma_placed_split(d, p, seq![255u8], b16(n as int));
        lemma_at_u8(d, p, 255u8);
        lemma_at_b16(d, p + 1, n as int);
    } else {
        lemma_at_u8(d, p, n as u8);
    }
}

/// Items written one after the other read back one after the other.
pub proof fn lemma_list_reads<A>(
    d: Seq<u8>,
    p: int,
    xs: Seq<A>,
    enc: spec_fn(A) -> Seq<u8>,
    item: spec_fn(Seq<u8>, int) -> Option<(A, int)>,
)
    requires
        placed(d, p, joined(xs, enc)),
        forall|q: int, i: int|
            0 <= i < xs.len() && #[trigger] placed(d, q, enc(xs[i])) ==> item(d, q) == Some((xs[i], q + enc(xs[i]).len())),
    ensures
        list_at(d, p, xs.len(), item) == Some((xs, p + joined(xs, enc).len())),
    decreases xs.len(),
{
    reveal(list_at);
    lemma_joined_last(xs, enc);
    if xs.len() > 0 {
        let ys = xs.drop_last();
        let x = xs.last();
        lemma_placed_split(d, p, joined(ys, enc), enc(x));
        assert forall|q: int, i: int|
            0 <= i < ys.len() && #[trigger] placed(d, q, enc(ys[i])) implies item(d, q) == Some((ys[i], q + enc(ys[i]).len())) by {
            assert(ys[i] == xs[i]);
        }
        lemma_list_reads(d, p, ys, enc, item);
        let q = p + joined(ys, enc).len();
        assert(xs[xs.len() - 1] == x);
        assert(placed(d, q, enc(xs[xs.len() - 1])));
        assert(ys.push(x) =~= xs);
    } else {
        assert(xs =~= Seq::<A>::empty());
    }
}


// ─── Flag bits ──────────────────────────────────────────────────────────────

pub proof fn lemma_frame_bits(b0: bool, b1: bool, b2: bool, b3: bool, b4: bool, b5: bool)
    by (bit_vector)
    ensures
        (low_bits6(b0, b1, b2, b3, b4, b5) & 1 != 0) == b0,
        (low_bits6(b0, b1, b2, b3, b4, b5) & 2 != 0) == b1,
        (low_bits6(b0, b1, b2, b3, b4, b5) & 4 != 0) == b2,
        (low_bits6(b0, b1, b2, b3, b4, b5) & 8 != 0) == b3,
        (low_bits6(b0, b1, b2, b3, b4, b5) & 16 != 0) == b4,
        (low_bits6(b0, b1, b2, b3, b4, b5) & 32 != 0) == b5,
{
}

pub proof fn lemma_add_word_bits(base: u16, b15: bool, b14: bool, b13: bool, b12: bool, b11: bool)
    by (bit_vector)
    requires
        base <= 2047,
    ensures
        (base | high_bits5(b15, b14, b13, b12, b11)) & 2047 == base,
        ((base | high_bits5(b15, b14, b13, b12, b11)) & 0x8000 != 0) == b15,
        ((base | high_bits5(b15, b14, b13, b12, b11)) & 0x4000 != 0) == b14,
        ((base | high_bits5(b15, b14, b13, b12, b11)) & 0x2000 != 0) == b13,
        ((base | high_bits5(b15, b14, b13, b12, b11)) & 0x1000 != 0) == b12,
        ((base | high_bits5(b15, b14, b13, b12, b11)) & 0x800 != 0) == b11,
{
}

pub proof fn lemma_move_word_bits(base: u16, b15: bool, b14: bool, b13: bool, b12: bool, b11: bool, b10: bool)
    by (bit_vector)
    requires
        base <= 1023,
    ensures
        (base | high_bits6(b15, b14, b13, b12, b11, b10)) & 1023 == base,
        ((base | high_bits6(b15, b14, b13, b12, b11, b10)) & 0x8000 != 0) == b15,
        ((base | high_bits6(b15, b14, b13, b12, b11, b10)) & 0x4000 != 0) == b14,
        ((base | high_bits6(b15, b14, b13, b12, b11, b10)) & 0x2000 != 0) == b13,
        ((base | high_bits6(b15, b14, b13, b12, b11, b10)) & 0x1000 != 0) == b12,
        ((base | high_bits6(b15, b14, b13, b12, b11, b10)) & 0x800 != 0) == b11,
        ((base | high_bits6(b15, b14, b13, b12, b11, b10)) & 0x400 != 0) == b10,
{
}

// ─── Items ──────────────────────────────────────────────────────────────────

pub proof fn lemma_removes_reads(d: Seq<u8>, q: int, r: RemovesInfo)
    requires
        placed(d, q, removes_bytes(r)),
        removes_ok(r),
    ensures
        removes_at(d, q) == Some((r, q + removes_bytes(r).len())),
{
    if r.index >= 2047 {
        lemma_placed_split(d, q, b16(2047), b32(r.index as int));
        lemma_at_b16(d, q, 2047);
        lemma_at_b32(d, q + 2, r.index as int);
    } else {
        lemma_at_b16(d, q, r.index as int);
    }
}

proof fn lemma_add_word(d: Seq<u8>, q: int, a: AddsView)
    requires
        placed(d, q, b16(adds_num(a) as int)),
        a.index >= 0,
    ensures
        u16_at(d, q) == Some((adds_num(a), q + 2)),
        adds_num(a) & 2047 == (if a.index >= 2047 { 2047 } else { a.index as int }),
        (adds_num(a) & 0x8000 != 0) == a.sprite,
        (adds_num(a) & 0x4000 != 0) == a.additive,
        (adds_num(a) & 0x2000 != 0) == (a.preload_frame > 0),
        (adds_num(a) & 0x1000 != 0) == (a.name is Some),
        (adds_num(a) & 0x800 != 0) == (a.time_scale is Some),
{
    let base: u16 = if a.index >= 2047 { 2047u16 } else { (a.index % 0x1_0000) as u16 };
    lemma_add_word_bits(base, a.sprite, a.additive, a.preload_frame > 0, a.name is Some, a.time_scale is Some);
    lemma_at_b16(d, q, adds_num(a) as int);
}

proof fn lemma_add_index(d: Seq<u8>, q: int, a: AddsView, num: u16)
    requires
        placed(d, q, adds_index_part(a)),
        a.index >= 0,
        num & 2047 == (if a.index >= 2047 { 2047 } else { a.index as int }),
    ensures
        add_index_at(d, num, q) == Some((a.index, q + adds_index_part(a).len())),
{
    if a.index >= 2047 {
        lemma_at_b32(d, q, a.index as int);
    }
}

proof fn lemma_add_resource(d: Seq<u8>, q: int, a: AddsView, version: i32)
    requires
        placed(d, q, adds_resource_part(a, version)),
        adds_ok(a, version),
    ensures
        add_resource_at(d, version, q) == Some((a.resource, q + adds_resource_part(a, version).len())),
{
    if version >= 6 && a.resource >= 255 {
        lemma_placed_split(d, q, seq![255u8], b16(a.resource as int));
        lemma_at_u8(d, q, 255u8);
        lemma_at_b16(d, q + 1, a.resource as int);
    } else {
        lemma_at_b8(d, q, a.resource as int);
    }
}

proof fn lemma_add_tail(d: Seq<u8>, q: int, a: AddsView, num: u16)
    requires
        placed(d, q, adds_preload_part(a)),
        placed(d, q + adds_preload_part(a).len(), adds_name_part(a)),
        placed(d, q + adds_preload_part(a).len() + adds_name_part(a).len(), adds_scale_part(a)),
        num == adds_num(a),
        0 <= a.preload_frame <= 0xFFFF,
        a.name matches Some(t) ==> text_ok(t),
        (num & 0x2000 != 0) == (a.preload_frame > 0),
        (num & 0x1000 != 0) == (a.name is Some),
        (num & 0x800 != 0) == (a.time_scale is Some),
    ensures
        add_preload_at(d, num, q) == Some((a.preload_frame, q + adds_preload_part(a).len())),
        add_name_at(d, num, q + adds_preload_part(a).len())
            == Some((a.name, q + adds_preload_part(a).len() + adds_name_part(a).len())),
        add_scale_at(d, num, q + adds_preload_part(a).len() + adds_name_part(a).len())
            == Some((a.time_scale, q + adds_preload_part(a).len() + adds_name_part(a).len() + adds_scale_part(a).len())),
{
    let p4 = adds_preload_part(a);
    let p5 = adds_name_part(a);
    if a.preload_frame > 0 {
        lemma_at_b16(d, q, a.preload_frame as int);
    }
    match a.name {
        Some(t) => lemma_at_str(d, q + p4.len(), t),
        None => {},
    }
    match a.time_scale {
        Some(t) => lemma_at_b32(d, q + p4.len() + p5.len(), t as int),
        None => {},
    }
}

#[verifier::spinoff_prover]
pub proof fn lemma_adds_reads(d: Seq<u8>, q: int, a: AddsView, version: i32)
    requires
        placed(d, q, adds_bytes(a, version)),
        adds_ok(a, version),
    ensures
        adds_at(d, q, version) == Some((a, q + adds_bytes(a, version).len())),
{
    let num = adds_num(a);
    let p1 = b16(num as int);
    let p2 = adds_index_part(a);
    let p3 = adds_resource_part(a, version);
    let p4 = adds_preload_part(a);
    let p5 = adds_name_part(a);
    let p6 = adds_scale_part(a);
    lemma_placed_split(d, q, p1 + p2 + p3 + p4 + p5, p6);
    lemma_placed_split(d, q, p1 + p2 + p3 + p4, p5);
    lemma_placed_split(d, q, p1 + p2 + p3, p4);
    lemma_placed_split(d, q, p1 + p2, p3);
    lemma_placed_split(d, q, p1, p2);
    let q1 = q + 2;
    let q2 = q1 + p2.len();
    let q3 = q2 + p3.len();
    lemma_add_word(d, q, a);
    lemma_add_index(d, q1, a, num);
    lemma_add_resource(d, q2, a, version);
    lemma_add_tail(d, q3, a, num);
}

proof fn lemma_move_word(d: Seq<u8>, q: int, m: MovesInfo)
    requires
        placed(d, q, b16(moves_num(m) as int)),
        m.index >= 0,
    ensures
        u16_at(d, q) == Some((moves_num(m), q + 2)),
        moves_num(m) & 1023 == (if m.index >= 1023 { 1023 } else { m.index as int }),
        (moves_num(m) & 0x8000 != 0) == (m.source_rectangle is Some),
        (moves_num(m) & 0x4000 != 0) == (m.transform is Rotate),
        (moves_num(m) & 0x2000 != 0) == (m.color is Some),
        (moves_num(m) & 0x1000 != 0) == (m.transform is Matrix),
        (moves_num(m) & 0x800 != 0) == long_coords(m),
        (moves_num(m) & 0x400 != 0) == (m.sprite_frame_number > 0),
{
    let base: u16 = if m.index >= 1023 { 1023u16 } else { (m.index % 0x1_0000) as u16 };
    lemma_move_word_bits(base, m.source_rectangle is Some, m.transform is Rotate, m.color is Some,
        m.transform is Matrix, long_coords(m), m.sprite_frame_number > 0);
    lemma_at_b16(d, q, moves_num(m) as int);
}

proof fn lemma_move_index(d: Seq<u8>, q: int, m: MovesInfo, num: u16)
    requires
        placed(d, q, moves_index_part(m)),
        m.index >= 0,
        num & 1023 == (if m.index >= 1023 { 1023 } else { m.index as int }),
    ensures
        move_index_at(d, num, q) == Some((m.index, q + moves_index_part(m).len())),
{
    if m.index >= 1023 {
        lemma_at_b32(d, q, m.index as int);
    }
}

proof fn lemma_move_transform(d: Seq<u8>, q: int, t: MoveTransform, num: u16)
    requires
        placed(d, q, move_transform_bytes(t)),
        (num & 0x4000 != 0) == (t is Rotate),
        (num & 0x1000 != 0) == (t is Matrix),
    ensures
        move_transform_at(d, num, q) == Some((t, q + move_transform_bytes(t).len())),
{
    match t {
        MoveTransform::Matrix(a, b, c, e) => {
            lemma_placed_split(d, q, b32(a as int) + b32(c as int) + b32(b as int), b32(e as int));
            lemma_placed_split(d, q, b32(a as int) + b32(c as int), b32(b as int));
            lemma_placed_split(d, q, b32(a as int), b32(c as int));
            lemma_at_b32(d, q, a as int);
            lemma_at_b32(d, q + 4, c as int);
            lemma_at_b32(d, q + 8, b as int);
            lemma_at_b32(d, q + 12, e as int);
        },
        MoveTransform::Rotate(r) => {
            lemma_at_b16(d, q, r as int);
        },
        MoveTransform::Translate => {},
    }
}

proof fn lemma_move_coords(d: Seq<u8>, q: int, m: MovesInfo, num: u16)
    requires
        placed(d, q, moves_coords_part(m)),
        (num & 0x800 != 0) == long_coords(m),
    ensures
        move_coords_at(d, num, q) == Some(((m.x, m.y), q + moves_coords_part(m).len())),
{
    if long_coords(m) {
        lemma_placed_split(d, q, b32(m.x as int), b32(m.y as int));
        lemma_at_b32(d, q, m.x as int);
        lemma_at_b32(d, q + 4, m.y as int);
    } else {
        lemma_placed_split(d, q, b16(m.x as int), b16(m.y as int));
        lemma_at_b16(d, q, m.x as int);
        lemma_at_b16(d, q + 2, m.y as int);
    }
}

proof fn lemma_move_rect(d: Seq<u8>, q: int, m: MovesInfo, num: u16)
    requires
        placed(d, q, moves_rect_part(m)),
        moves_ok(m),
        (num & 0x8000 != 0) == (m.source_rectangle is Some),
    ensures
        move_rect_at(d, num, q) == Some((m.source_rectangle, q + moves_rect_part(m).len())),
{
    match m.source_rectangle {
        Some((a, b, c, e)) => {
            lemma_placed_split(d, q, b16(a * 20) + b16(b * 20) + b16(c * 20), b16(e * 20));
            lemma_placed_split(d, q, b16(a * 20) + b16(b * 20), b16(c * 20));
            lemma_placed_split(d, q, b16(a * 20), b16(b * 20));
            lemma_at_b16(d, q, a * 20);
            lemma_at_b16(d, q + 2, b * 20);
            lemma_at_b16(d, q + 4, c * 20);
            lemma_at_b16(d, q + 6, e * 20);
            assert(div20(a * 20) == a);
            assert(div20(b * 20) == b);
            assert(div20(c * 20) == c);
            assert(div20(e * 20) == e);
        },
        None => {},
    }
}

proof fn lemma_move_color_frame(d: Seq<u8>, q: int, m: MovesInfo, num: u16)
    requires
        placed(d, q, moves_color_part(m)),
        placed(d, q + moves_color_part(m).len(), moves_frame_part(m)),
        moves_ok(m),
        (num & 0x2000 != 0) == (m.color is Some),
        (num & 0x400 != 0) == (m.sprite_frame_number > 0),
    ensures
        move_color_at(d, num, q) == Some((m.color, q + moves_color_part(m).len())),
        move_frame_at(d, num, q + moves_color_part(m).len())
            == Some((m.sprite_frame_number, q + moves_color_part(m).len() + moves_frame_part(m).len())),
{
    let p6 = moves_color_part(m);
    reveal(placed);
    match m.color {
        Some((r, g, b, a)) => {
            lemma_at_byte(d, q, 0, seq![r, g, b, a]);
            lemma_at_byte(d, q, 1, seq![r, g, b, a]);
            lemma_at_byte(d, q, 2, seq![r, g, b, a]);
            lemma_at_byte(d, q, 3, seq![r, g, b, a]);
        },
        None => {},
    }
    if m.sprite_frame_number > 0 {
        lemma_at_b16(d, q + p6.len(), m.sprite_frame_number as int);
    }
}

#[verifier::spinoff_prover]
pub proof fn lemma_moves_reads(d: Seq<u8>, q: int, m: MovesInfo)
    requires
        placed(d, q, moves_bytes(m)),
        moves_ok(m),
    ensures
        moves_at(d, q) == Some((m, q + moves_bytes(m).len())),
{
    let num = moves_num(m);
    let p1 = b16(num as int);
    let p2 = moves_index_part(m);
    let p3 = move_transform_bytes(m.transform);
    let p4 = moves_coords_part(m);
    let p5 = moves_rect_part(m);
    let p6 = moves_color_part(m);
    let p7 = moves_frame_part(m);
    lemma_placed_split(d, q, p1 + p2 + p3 + p4 + p5 + p6, p7);
    lemma_placed_split(d, q, p1 + p2 + p3 + p4 + p5, p6);
    lemma_placed_split(d, q, p1 + p2 + p3 + p4, p5);
    lemma_placed_split(d, q, p1 + p2 + p3, p4);
    lemma_placed_split(d, q, p1 + p2, p3);
    lemma_placed_split(d, q, p1, p2);
    let q1 = q + 2;
    let q2 = q1 + p2.len();
    let q3 = q2 + p3.len();
    let q4 = q3 + p4.len();
    let q5 = q4 + p5.len();
    lemma_move_word(d, q, m);
    lemma_move_index(d, q1, m, num);
    lemma_move_transform(d, q2, m.transform, num);
    lemma_move_coords(d, q3, m, num);
    lemma_move_rect(d, q4, m, num);
    lemma_move_color_frame(d, q5, m, num);
}

pub proof fn lemma_command_reads(d: Seq<u8>, q: int, c: (Seq<char>, Seq<char>))
    requires
        placed(d, q, command_bytes(c)),
        text_ok(c.0),
        text_ok(c.1),
    ensures
        command_at(d, q) == Some((c, q + command_bytes(c).len())),
{
    lemma_placed_split(d, q, str_bytes(c.0), str_bytes(c.1));
    lemma_at_str(d, q, c.0);
    lemma_at_str(d, q + str_bytes(c.0).len(), c.1);
}

/// A counted section reads back.
pub proof fn lemma_section_reads<A>(
    d: Seq<u8>,
    p: int,
    xs: Seq<A>,
    enc: spec_fn(A) -> Seq<u8>,
    item: spec_fn(Seq<u8>, int) -> Option<(A, int)>,
    present: bool,
)
    requires
        placed(d, p, section_bytes(xs, enc)),
        present == (xs.len() > 0),
        xs.len() <= 0xFFFF,
        forall|q: int, i: int|
            0 <= i < xs.len() && #[trigger] placed(d, q, enc(xs[i])) ==> item(d, q) == Some((xs[i], q + enc(xs[i]).len())),
    ensures
        section_at(d, p, present, item) == Some((xs, p + section_bytes(xs, enc).len())),
{
    if present {
        lemma_placed_split(d, p, count_bytes(xs.len()), joined(xs, enc));
        lemma_at_count(d, p, xs.len());
        lemma_list_reads(d, p + count_bytes(xs.len()).len(), xs, enc, item);
    } else {
        assert(xs =~= Seq::<A>::empty());
    }
}


// ─── Frames, sprites, images ────────────────────────────────────────────────

#[verifier::spinoff_prover]
proof fn lemma_frame_sections(d: Seq<u8>, q: int, f: FrameView, version: i32, fb: u8)
    requires
        placed(d, q, section_bytes(f.remove, removes_bytes_fn())),
        placed(d, q + section_bytes(f.remove, removes_bytes_fn()).len(), section_bytes(f.append, adds_bytes_fn(version))),
        placed(d, q + section_bytes(f.remove, removes_bytes_fn()).len() + section_bytes(f.append, adds_bytes_fn(version)).len(),
            section_bytes(f.change, moves_bytes_fn())),
        frame_ok(f, version),
        (fb & 1 != 0) == (f.remove.len() > 0),
        (fb & 2 != 0) == (f.append.len() > 0),
        (fb & 4 != 0) == (f.change.len() > 0),
    ensures
        section_at(d, q, fb & 1 != 0, removes_fn()) == Some((f.remove, q + section_bytes(f.remove, removes_bytes_fn()).len())),
        section_at(d, q + section_bytes(f.remove, removes_bytes_fn()).len(), fb & 2 != 0, adds_fn(version))
            == Some((f.append, q + section_bytes(f.remove, removes_bytes_fn()).len()
                + section_bytes(f.append, adds_bytes_fn(version)).len())),
        section_at(d, q + section_bytes(f.remove, removes_bytes_fn()).len() + section_bytes(f.append, adds_bytes_fn(version)).len(),
            fb & 4 != 0, moves_fn())
            == Some((f.change, q + section_bytes(f.remove, removes_bytes_fn()).len()
                + section_bytes(f.append, adds_bytes_fn(version)).len()
                + section_bytes(f.change, moves_bytes_fn()).len())),
{
    let s1 = section_bytes(f.remove, removes_bytes_fn());
    let s2 = section_bytes(f.append, adds_bytes_fn(version));
    assert forall|r: int, i: int|
        0 <= i < f.remove.len() && #[trigger] placed(d, r, removes_bytes_fn()(f.remove[i]))
        implies removes_fn()(d, r) == Some((f.remove[i], r + removes_bytes_fn()(f.remove[i]).len())) by {
        lemma_removes_reads(d, r, f.remove[i]);
    }
    lemma_section_reads(d, q, f.remove, removes_bytes_fn(), removes_fn(), fb & 1 != 0);
    assert forall|r: int, i: int|
        0 <= i < f.append.len() && #[trigger] placed(d, r, adds_bytes_fn(version)(f.append[i]))
        implies adds_fn(version)(d, r) == Some((f.append[i], r + adds_bytes_fn(version)(f.append[i]).len())) by {
        lemma_adds_reads(d, r, f.append[i], version);
    }
    lemma_section_reads(d, q + s1.len(), f.append, adds_bytes_fn(version), adds_fn(version), fb & 2 != 0);
    assert forall|r: int, i: int|
        0 <= i < f.change.len() && #[trigger] placed(d, r, moves_bytes_fn()(f.change[i]))
        implies moves_fn()(d, r) == Some((f.change[i], r + moves_bytes_fn()(f.change[i]).len())) by {
        lemma_moves_reads(d, r, f.change[i]);
    }
    lemma_section_reads(d, q + s1.len() + s2.len(), f.change, moves_bytes_fn(), moves_fn(), fb & 4 != 0);
}

#[verifier::spinoff_prover]
proof fn lemma_frame_commands(d: Seq<u8>, q: int, f: FrameView, version: i32, fb: u8)
    requires
        placed(d, q, if f.command.len() > 0 { b8(f.command.len() as int) + joined(f.command, command_bytes_fn()) } else { Seq::<u8>::empty() }),
        frame_ok(f, version),
        (fb & 32 != 0) == (f.command.len() > 0),
    ensures
        commands_at(d, fb & 32 != 0, q) == Some((f.command, q
            + (if f.command.len() > 0 { b8(f.command.len() as int) + joined(f.command, command_bytes_fn()) } else { Seq::<u8>::empty() }).len())),
{
    if f.command.len() > 0 {
        lemma_placed_split(d, q, b8(f.command.len() as int), joined(f.command, command_bytes_fn()));
        lemma_at_b8(d, q, f.command.len() as int);
        assert forall|r: int, i: int|
            0 <= i < f.command.len() && #[trigger] placed(d, r, command_bytes_fn()(f.command[i]))
            implies command_fn()(d, r) == Some((f.command[i], r + command_bytes_fn()(f.command[i]).len())) by {
            lemma_command_reads(d, r, f.command[i]);
        }
        lemma_list_reads(d, q + 1, f.command, command_bytes_fn(), command_fn());
    } else {
        assert(f.command =~= Seq::<(Seq<char>, Seq<char>)>::empty());
    }
}

proof fn lemma_frame_flag(d: Seq<u8>, q: int, f: FrameView)
    requires
        placed(d, q, seq![frame_flags(f)]),
    ensures
        u8_at(d, q) == Some((frame_flags(f), q + 1)),
        (frame_flags(f) & 1 != 0) == (f.remove.len() > 0),
        (frame_flags(f) & 2 != 0) == (f.append.len() > 0),
        (frame_flags(f) & 4 != 0) == (f.change.len() > 0),
        (frame_flags(f) & 8 != 0) == (f.label is Some),
        (frame_flags(f) & 16 != 0) == f.stop,
        (frame_flags(f) & 32 != 0) == (f.command.len() > 0),
{
    lemma_frame_bits(f.remove.len() > 0, f.append.len() > 0, f.change.len() > 0, f.label is Some, f.stop, f.command.len() > 0);
    lemma_at_u8(d, q, frame_flags(f));
}

proof fn lemma_frame_label(d: Seq<u8>, q: int, f: FrameView, version: i32, fb: u8)
    requires
        placed(d, q, match f.label {
            Some(t) => str_bytes(t),
            None => Seq::<u8>::empty(),
        }),
        frame_ok(f, version),
        (fb & 8 != 0) == (f.label is Some),
    ensures
        label_at(d, fb & 8 != 0, q) == Some((f.label, q + (match f.label {
            Some(t) => str_bytes(t),
            None => Seq::<u8>::empty(),
        }).len())),
{
    match f.label {
        Some(t) => lemma_at_str(d, q, t),
        None => {},
    }
}

#[verifier::spinoff_prover]
pub proof fn lemma_frame_reads(d: Seq<u8>, q: int, f: FrameView, version: i32)
    requires
        placed(d, q, frame_bytes(f, version)),
        frame_ok(f, version),
    ensures
        frame_at(d, q, version) == Some((f, q + frame_bytes(f, version).len())),
{
    let fb = frame_flags(f);
    let p1 = seq![fb];
    let s1 = section_bytes(f.remove, removes_bytes_fn());
    let s2 = section_bytes(f.append, adds_bytes_fn(version));
    let s3 = section_bytes(f.change, moves_bytes_fn());
    let p5 = match f.label {
        Some(t) => str_bytes(t),
        None => Seq::<u8>::empty(),
    };
    let p6 = if f.command.len() > 0 {
        b8(f.command.len() as int) + joined(f.command, command_bytes_fn())
    } else {
        Seq::<u8>::empty()
    };
    lemma_placed_split(d, q, p1 + s1 + s2 + s3 + p5, p6);
    lemma_placed_split(d, q, p1 + s1 + s2 + s3, p5);
    lemma_placed_split(d, q, p1 + s1 + s2, s3);
    lemma_placed_split(d, q, p1 + s1, s2);
    lemma_placed_split(d, q, p1, s1);
    lemma_frame_flag(d, q, f);
    lemma_frame_sections(d, q + 1, f, version, fb);
    let q4 = q + 1 + s1.len() + s2.len() + s3.len();
    lemma_frame_label(d, q4, f, version, fb);
    lemma_frame_commands(d, q4 + p5.len(), f, version, fb);
}

#[verifier::spinoff_prover]
proof fn lemma_sprite_head(d: Seq<u8>, q: int, s: SpriteView, version: i32, rate: u8)
    requires
        placed(d, q, if version >= 4 {
            str_bytes(or_empty(s.name)) + (if version >= 6 { str_bytes(or_empty(s.description)) } else { Seq::<u8>::empty() })
                + b32(s.frame_rate as int)
        } else {
            Seq::<u8>::empty()
        }),
        sprite_ok(s, version, rate as int),
    ensures
        sprite_head_at(d, q, version, rate) == Some(((s.name, s.description, s.frame_rate), q
            + (if version >= 4 {
                str_bytes(or_empty(s.name)) + (if version >= 6 { str_bytes(or_empty(s.description)) } else { Seq::<u8>::empty() })
                    + b32(s.frame_rate as int)
            } else {
                Seq::<u8>::empty()
            }).len())),
{
    if version >= 4 {
        let a = str_bytes(or_empty(s.name));
        let b = if version >= 6 { str_bytes(or_empty(s.description)) } else { Seq::<u8>::empty() };
        let c = b32(s.frame_rate as int);
        lemma_placed_split(d, q, a + b, c);
        lemma_placed_split(d, q, a, b);
        lemma_at_str(d, q, or_empty(s.name));
        if version >= 6 {
            lemma_at_str(d, q + a.len(), or_empty(s.description));
        }
        lemma_at_b32(d, q + a.len() + b.len(), s.frame_rate as int);
    }
}

#[verifier::spinoff_prover]
proof fn lemma_sprite_span(d: Seq<u8>, r0: int, s: SpriteView, version: i32, rate: u8)
    requires
        placed(d, r0, b16(s.frame.len() as int)),
        placed(d, r0 + 2, if version >= 5 { b16(s.work_area.0 as int) + b16(s.work_area.1 as int) } else { Seq::<u8>::empty() }),
        sprite_ok(s, version, rate as int),
    ensures
        sprite_span_at(d, r0, version) == Some(((s.frame.len() as u16, s.work_area.0), r0 + 2
            + (if version >= 5 { b16(s.work_area.0 as int) + b16(s.work_area.1 as int) } else { Seq::<u8>::empty() }).len())),
{
    lemma_at_b16(d, r0, s.frame.len() as int);
    if version >= 5 {
        lemma_placed_split(d, r0 + 2, b16(s.work_area.0 as int), b16(s.work_area.1 as int));
        lemma_at_b16(d, r0 + 2, s.work_area.0 as int);
        lemma_at_b16(d, r0 + 4, s.work_area.1 as int);
    }
}

#[verifier::spinoff_prover]
proof fn lemma_sprite_frames(d: Seq<u8>, r: int, s: SpriteView, version: i32, rate: u8)
    requires
        placed(d, r, joined(s.frame, frame_bytes_fn(version))),
        sprite_ok(s, version, rate as int),
    ensures
        list_at(d, r, s.frame.len(), frame_fn(version)) == Some((s.frame, r + joined(s.frame, frame_bytes_fn(version)).len())),
{
    assert forall|x: int, i: int|
        0 <= i < s.frame.len() && #[trigger] placed(d, x, frame_bytes_fn(version)(s.frame[i]))
        implies frame_fn(version)(d, x) == Some((s.frame[i], x + frame_bytes_fn(version)(s.frame[i]).len())) by {
        lemma_frame_reads(d, x, s.frame[i], version);
    }
    lemma_list_reads(d, r, s.frame, frame_bytes_fn(version), frame_fn(version));
}

#[verifier::spinoff_prover]
pub proof fn lemma_sprite_reads(d: Seq<u8>, q: int, s: SpriteView, version: i32, rate: u8)
    requires
        placed(d, q, sprite_bytes(s, version)),
        sprite_ok(s, version, rate as int),
    ensures
        sprite_at(d, q, version, rate) == Some((s, q + sprite_bytes(s, version).len())),
{
    let p1 = if version >= 4 {
        str_bytes(or_empty(s.name)) + (if version >= 6 { str_bytes(or_empty(s.description)) } else { Seq::<u8>::empty() })
            + b32(s.frame_rate as int)
    } else {
        Seq::<u8>::empty()
    };
    let p2 = b16(s.frame.len() as int);
    let p3 = if version >= 5 { b16(s.work_area.0 as int) + b16(s.work_area.1 as int) } else { Seq::<u8>::empty() };
    let p4 = joined(s.frame, frame_bytes_fn(version));
    lemma_placed_split(d, q, p1 + p2 + p3, p4);
    lemma_placed_split(d, q, p1 + p2, p3);
    lemma_placed_split(d, q, p1, p2);
    lemma_sprite_head(d, q, s, version, rate);
    let r0 = q + p1.len();
    lemma_sprite_span(d, r0, s, version, rate);
    lemma_sprite_frames(d, r0 + 2 + p3.len(), s, version, rate);
}

proof fn lemma_image_size(d: Seq<u8>, r: int, i: ImageView, version: i32)
    requires
        placed(d, r, if version >= 4 { b16(i.size.0 as int) + b16(i.size.1 as int) } else { Seq::<u8>::empty() }),
        image_ok(i, version),
    ensures
        image_size_at(d, r, version)
            == Some((i.size, r + (if version >= 4 { b16(i.size.0 as int) + b16(i.size.1 as int) } else { Seq::<u8>::empty() }).len())),
{
    if version >= 4 {
        lemma_placed_split(d, r, b16(i.size.0 as int), b16(i.size.1 as int));
        lemma_at_b16(d, r, i.size.0 as int);
        lemma_at_b16(d, r + 2, i.size.1 as int);
    }
}

proof fn lemma_image_transform(d: Seq<u8>, t: int, i: ImageView, version: i32)
    requires
        placed(d, t, image_transform_bytes(i.transform)),
        image_ok(i, version),
    ensures
        image_transform_at(d, t, version) == Some((i.transform, t + image_transform_bytes(i.transform).len())),
{
    match i.transform {
        ImageTransform::Rotation(a) => {
            lemma_at_b16(d, t, a as int);
        },
        ImageTransform::Matrix(a, b, c, e) => {
            lemma_placed_split(d, t, b32(a as int) + b32(c as int) + b32(b as int), b32(e as int));
            lemma_placed_split(d, t, b32(a as int) + b32(c as int), b32(b as int));
            lemma_placed_split(d, t, b32(a as int), b32(c as int));
            lemma_at_b32(d, t, a as int);
            lemma_at_b32(d, t + 4, c as int);
            lemma_at_b32(d, t + 8, b as int);
            lemma_at_b32(d, t + 12, e as int);
        },
    }
}

proof fn lemma_image_offset(d: Seq<u8>, u: int, x: i16, y: i16)
    requires
        placed(d, u, b16(x as int)),
        placed(d, u + 2, b16(y as int)),
    ensures
        0 <= u && u + 4 <= d.len(),
        i16v(d, u) == x,
        i16v(d, u + 2) == y,
{
    lemma_at_b16(d, u, x as int);
    lemma_at_b16(d, u + 2, y as int);
}

#[verifier::spinoff_prover]
pub proof fn lemma_image_reads(d: Seq<u8>, q: int, i: ImageView, version: i32)
    requires
        placed(d, q, image_bytes(i, version)),
        image_ok(i, version),
    ensures
        image_at(d, q, version) == Some((i, q + image_bytes(i, version).len())),
{
    let p1 = str_bytes(i.name);
    let p2 = if version >= 4 { b16(i.size.0 as int) + b16(i.size.1 as int) } else { Seq::<u8>::empty() };
    let p3 = image_transform_bytes(i.transform);
    let p4 = b16(i.x as int);
    let p5 = b16(i.y as int);
    lemma_placed_split(d, q, p1 + p2 + p3 + p4, p5);
    lemma_placed_split(d, q, p1 + p2 + p3, p4);
    lemma_placed_split(d, q, p1 + p2, p3);
    lemma_placed_split(d, q, p1, p2);
    lemma_at_str(d, q, i.name);
    let r = q + p1.len();
    lemma_image_size(d, r, i, version);
    let t = r + p2.len();
    lemma_image_transform(d, t, i, version);
    let u = t + p3.len();
    lemma_image_offset(d, u, i.x, i.y);
}


// ─── Whole files ────────────────────────────────────────────────────────────

#[verifier::spinoff_prover]
proof fn lemma_pam_images(d: Seq<u8>, q: int, p: PamView)
    requires
        placed(d, q, joined(p.image, image_bytes_fn(p.version))),
        pam_ok(p),
    ensures
        list_at(d, q, p.image.len(), image_fn(p.version))
            == Some((p.image, q + joined(p.image, image_bytes_fn(p.version)).len())),
{
    assert forall|x: int, i: int|
        0 <= i < p.image.len() && #[trigger] placed(d, x, image_bytes_fn(p.version)(p.image[i]))
        implies image_fn(p.version)(d, x) == Some((p.image[i], x + image_bytes_fn(p.version)(p.image[i]).len())) by {
        lemma_image_reads(d, x, p.image[i], p.version);
    }
    lemma_list_reads(d, q, p.image, image_bytes_fn(p.version), image_fn(p.version));
}

#[verifier::spinoff_prover]
proof fn lemma_pam_sprites(d: Seq<u8>, q: int, p: PamView, rate: u8)
    requires
        placed(d, q, joined(p.sprite, sprite_bytes_fn(p.version))),
        pam_ok(p),
        rate as int == p.frame_rate,
    ensures
        list_at(d, q, p.sprite.len(), sprite_fn(p.version, rate))
            == Some((p.sprite, q + joined(p.sprite, sprite_bytes_fn(p.version)).len())),
{
    assert forall|x: int, i: int|
        0 <= i < p.sprite.len() && #[trigger] placed(d, x, sprite_bytes_fn(p.version)(p.sprite[i]))
        implies sprite_fn(p.version, rate)(d, x) == Some((p.sprite[i], x + sprite_bytes_fn(p.version)(p.sprite[i]).len())) by {
        lemma_sprite_reads(d, x, p.sprite[i], p.version, rate);
    }
    lemma_list_reads(d, q, p.sprite, sprite_bytes_fn(p.version), sprite_fn(p.version, rate));
}

#[verifier::spinoff_prover]
proof fn lemma_pam_main(d: Seq<u8>, q: int, p: PamView, rate: u8)
    requires
        placed(d, q, if p.version > 3 { seq![1u8] } else { Seq::<u8>::empty() }),
        placed(d, q + (if p.version > 3 { seq![1u8] } else { Seq::<u8>::empty() }).len(), sprite_bytes(p.main_sprite, p.version)),
        pam_ok(p),
        rate as int == p.frame_rate,
    ensures
        main_sprite_at(d, q, p.version, rate) == Some(p.main_sprite),
{
    if p.version > 3 {
        lemma_at_u8(d, q, 1u8);
        lemma_sprite_reads(d, q + 1, p.main_sprite, p.version, rate);
    } else {
        lemma_sprite_reads(d, q, p.main_sprite, p.version, rate);
    }
}

proof fn lemma_pam_head_layout(d: Seq<u8>, p: PamView)
    requires
        placed(d, 0, b32(PAM_MAGIC as int) + b32(p.version as int) + b8(p.frame_rate as int)
            + b16(p.position.0 as int) + b16(p.position.1 as int) + b16(p.size.0 as int) + b16(p.size.1 as int)
            + b16(p.image.len() as int)),
    ensures
        placed(d, 0, b32(PAM_MAGIC as int)),
        placed(d, 4, b32(p.version as int)),
        placed(d, 8, b8(p.frame_rate as int)),
        placed(d, 9, b16(p.position.0 as int)),
        placed(d, 11, b16(p.position.1 as int)),
        placed(d, 13, b16(p.size.0 as int)),
        placed(d, 15, b16(p.size.1 as int)),
        placed(d, 17, b16(p.image.len() as int)),
{
    let h1 = b32(PAM_MAGIC as int);
    let h2 = b32(p.version as int);
    let h3 = b8(p.frame_rate as int);
    let h4 = b16(p.position.0 as int);
    let h5 = b16(p.position.1 as int);
    let h6 = b16(p.size.0 as int);
    let h7 = b16(p.size.1 as int);
    let h8 = b16(p.image.len() as int);
    lemma_placed_split(d, 0, h1 + h2 + h3 + h4 + h5 + h6 + h7, h8);
    lemma_placed_split(d, 0, h1 + h2 + h3 + h4 + h5 + h6, h7);
    lemma_placed_split(d, 0, h1 + h2 + h3 + h4 + h5, h6);
    lemma_placed_split(d, 0, h1 + h2 + h3 + h4, h5);
    lemma_placed_split(d, 0, h1 + h2 + h3, h4);
    lemma_placed_split(d, 0, h1 + h2, h3);
    lemma_placed_split(d, 0, h1, h2);
}

#[verifier::spinoff_prover]
proof fn lemma_pam_head(d: Seq<u8>, p: PamView)
    requires
        placed(d, 0, b32(PAM_MAGIC as int) + b32(p.version as int) + b8(p.frame_rate as int)
            + b16(p.position.0 as int) + b16(p.position.1 as int) + b16(p.size.0 as int) + b16(p.size.1 as int)
            + b16(p.image.len() as int)),
        pam_ok(p),
    ensures
        d.len() >= 19,
        le32(d, 0) == PAM_MAGIC as int,
        i32v(d, 4) == p.version,
        d[8] as int == p.frame_rate,
        le16(d, 9) == p.position.0,
        le16(d, 11) == p.position.1,
        le16(d, 13) == p.size.0,
        le16(d, 15) == p.size.1,
        le16(d, 17) == p.image.len(),
{
    lemma_pam_head_layout(d, p);
    lemma_at_b32(d, 0, PAM_MAGIC as int);
    lemma_at_b32(d, 4, p.version as int);
    lemma_at_b8(d, 8, p.frame_rate as int);
    lemma_at_b16(d, 9, p.position.0 as int);
    lemma_at_b16(d, 11, p.position.1 as int);
    lemma_at_b16(d, 13, p.size.0 as int);
    lemma_at_b16(d, 15, p.size.1 as int);
    lemma_at_b16(d, 17, p.image.len() as int);
}

/// Where each part of a written file stands.
#[verifier::spinoff_prover]
proof fn lemma_pam_layout(p: PamView)
    ensures ({
        let d = pam_bytes(p);
        let v = p.version;
        let head = b32(PAM_MAGIC as int) + b32(v as int) + b8(p.frame_rate as int)
            + b16(p.position.0 as int) + b16(p.position.1 as int) + b16(p.size.0 as int) + b16(p.size.1 as int)
            + b16(p.image.len() as int);
        let t9 = joined(p.image, image_bytes_fn(v));
        let t11 = joined(p.sprite, sprite_bytes_fn(v));
        let t12 = if v > 3 { seq![1u8] } else { Seq::<u8>::empty() };
        let q: int = 19 + t9.len() as int;
        let r: int = q + 2 + t11.len() as int;
        &&& head.len() == 19
        &&& placed(d, 0, head)
        &&& placed(d, 19, t9)
        &&& placed(d, q, b16(p.sprite.len() as int))
        &&& placed(d, q + 2, t11)
        &&& placed(d, r, t12)
        &&& placed(d, r + t12.len(), sprite_bytes(p.main_sprite, v))
    }),
{
    let d = pam_bytes(p);
    let v = p.version;
    let head = b32(PAM_MAGIC as int) + b32(v as int) + b8(p.frame_rate as int)
        + b16(p.position.0 as int) + b16(p.position.1 as int) + b16(p.size.0 as int) + b16(p.size.1 as int)
        + b16(p.image.len() as int);
    let t9 = joined(p.image, image_bytes_fn(v));
    let t10 = b16(p.sprite.len() as int);
    let t11 = joined(p.sprite, sprite_bytes_fn(v));
    let t12 = if v > 3 { seq![1u8] } else { Seq::<u8>::empty() };
    let t13 = sprite_bytes(p.main_sprite, v);
    lemma_placed_whole(d);
    assert(d == head + t9 + t10 + t11 + t12 + t13);
    lemma_placed_split(d, 0, head + t9 + t10 + t11 + t12, t13);
    lemma_placed_split(d, 0, head + t9 + t10 + t11, t12);
    lemma_placed_split(d, 0, head + t9 + t10, t11);
    lemma_placed_split(d, 0, head + t9, t10);
    lemma_placed_split(d, 0, head, t9);
}

/// The reading of the images, the sprites and the main sprite of a written
/// file.
#[verifier::spinoff_prover]
proof fn lemma_pam_lists(d: Seq<u8>, p: PamView, q: int, r: int, rate: u8)
    requires
        pam_ok(p),
        rate as int == p.frame_rate,
        q == 19 + joined(p.image, image_bytes_fn(p.version)).len(),
        r == q + 2 + joined(p.sprite, sprite_bytes_fn(p.version)).len(),
        placed(d, 19, joined(p.image, image_bytes_fn(p.version))),
        placed(d, q, b16(p.sprite.len() as int)),
        placed(d, q + 2, joined(p.sprite, sprite_bytes_fn(p.version))),
        placed(d, r, if p.version > 3 { seq![1u8] } else { Seq::<u8>::empty() }),
        placed(d, r + (if p.version > 3 { seq![1u8] } else { Seq::<u8>::empty() }).len(), sprite_bytes(p.main_sprite, p.version)),
    ensures
        list_at(d, 19, p.image.len(), image_fn(p.version)) == Some((p.image, q)),
        u16_at(d, q) == Some((p.sprite.len() as u16, q + 2)),
        list_at(d, q + 2, p.sprite.len(), sprite_fn(p.version, rate)) == Some((p.sprite, r)),
        main_sprite_at(d, r, p.version, rate) == Some(p.main_sprite),
{
    lemma_pam_images(d, 19, p);
    lemma_at_b16(d, q, p.sprite.len() as int);
    lemma_pam_sprites(d, q + 2, p, rate);
    lemma_pam_main(d, r, p, rate);
}

#[verifier::spinoff_prover]
pub proof fn lemma_pam_reads(p: PamView)
    requires
        pam_ok(p),
    ensures
        pam_read(pam_bytes(p)) == Ok::<PamView, PamError>(p),
{
    let d = pam_bytes(p);
    let v = p.version;
    lemma_pam_layout(p);
    lemma_pam_head(d, p);
    let q: int = 19 + joined(p.image, image_bytes_fn(v)).len() as int;
    let r: int = q + 2 + joined(p.sprite, sprite_bytes_fn(v)).len() as int;
    lemma_pam_lists(d, p, q, r, d[8]);
    assert(pam_body_at(d, v) == Some(p));
}

} // verus!
