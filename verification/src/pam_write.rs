//! Writing PAM files.
use vstd::prelude::*;
use vstd::utf8::encode_utf8;
use crate::bytes::{push_le16, push_le32};
use crate::pam::{
    joined, lemma_joined_step, lemma_joined_last, adds_bytes, adds_bytes_fn, adds_flags, adds_num,
    adds_index_part, adds_resource_part, adds_preload_part, adds_name_part, adds_scale_part,
    moves_index_part, moves_coords_part, moves_rect_part, moves_color_part, moves_frame_part,
    adds_view, adds_views, b16, b32, b8, command_bytes, command_bytes_fn, command_view,
    command_views, count_bytes, frame_bytes, frame_bytes_fn, frame_flags, frame_view, frame_views,
    frame_writable, image_bytes, image_bytes_fn, image_transform_bytes, image_view, image_views,
    move_transform_bytes, moves_bytes, moves_bytes_fn, moves_flags, moves_num, moves_writable,
    or_empty, opt_str, removes_bytes, removes_bytes_fn, section_bytes, sprite_bytes,
    sprite_bytes_fn, sprite_view, sprite_views, sprite_writable, str_bytes, AddsInfo, FrameInfo,
    ImageInfo, ImageTransform, MoveTransform, MovesInfo, RemovesInfo, SpriteInfo, PamInfo,
    PAM_MAGIC, pam_bytes, pam_writable,
};
use crate::particles_write::lemma_app;

verus! {

/// Appending parts one by one appends their concatenation.
proof fn lemma_app6(o: Seq<u8>, p1: Seq<u8>, p2: Seq<u8>, p3: Seq<u8>, p4: Seq<u8>, p5: Seq<u8>, p6: Seq<u8>)
    ensures
        o + p1 + p2 + p3 + p4 + p5 + p6 == o + (p1 + p2 + p3 + p4 + p5 + p6),
{
    lemma_app(o, p1, p2);
    lemma_app(o, p1 + p2, p3);
    lemma_app(o, p1 + p2 + p3, p4);
    lemma_app(o, p1 + p2 + p3 + p4, p5);
    lemma_app(o, p1 + p2 + p3 + p4 + p5, p6);
}

/// Appending parts one by one appends their concatenation.
proof fn lemma_app7(o: Seq<u8>, p1: Seq<u8>, p2: Seq<u8>, p3: Seq<u8>, p4: Seq<u8>, p5: Seq<u8>, p6: Seq<u8>, p7: Seq<u8>)
    ensures
        o + p1 + p2 + p3 + p4 + p5 + p6 + p7 == o + (p1 + p2 + p3 + p4 + p5 + p6 + p7),
{
    lemma_app6(o, p1, p2, p3, p4, p5, p6);
    lemma_app(o, p1 + p2 + p3 + p4 + p5 + p6, p7);
}

/// The low 32 bits of `v`.
fn low32(v: i32) -> (w: u32)
    ensures
        w as int == (v as int) % 0x1_0000_0000,
{
    if v >= 0 { v as u32 } else { (v as i64 + 0x1_0000_0000i64) as u32 }
}

pub(crate) fn push_b8(out: &mut Vec<u8>, v: i32)
    ensures
        final(out)@ == old(out)@ + b8(v as int),
{
    let w = low32(v);
    proof {
        vstd::arithmetic::div_mod::lemma_mod_mod(v as int, 0x100, 0x100_0000);
    }
    out.push((w % 0x100) as u8);
    assert(final(out)@ =~= old(out)@ + b8(v as int));
}

pub(crate) fn push_b16(out: &mut Vec<u8>, v: i32)
    ensures
        final(out)@ == old(out)@ + b16(v as int),
{
    let w = low32(v);
    proof {
        vstd::arithmetic::div_mod::lemma_mod_mod(v as int, 0x1_0000, 0x1_0000);
    }
    push_le16(out, (w % 0x1_0000) as u16);
}

pub(crate) fn push_b32(out: &mut Vec<u8>, v: i32)
    ensures
        final(out)@ == old(out)@ + b32(v as int),
{
    push_le32(out, low32(v));
}

/// Appends a string after its 16-bit byte length.
pub(crate) fn write_string_by_u16(out: &mut Vec<u8>, s: &str)
    ensures
        final(out)@ == old(out)@ + str_bytes(s@),
{
    let b = s.as_bytes();
    assert(b@ == encode_utf8(s@));
    let n = b.len();
    push_le16(out, (n % 0x1_0000) as u16);
    let ghost mid = out@;
    out.extend_from_slice(b);
    assert(out@ =~= mid + b@);
}

/// Appends an optional string, empty when absent.
fn write_opt_string_by_u16(out: &mut Vec<u8>, s: &Option<String>)
    ensures
        final(out)@ == old(out)@ + str_bytes(or_empty(opt_str(*s))),
{
    match s {
        Some(t) => write_string_by_u16(out, t.as_str()),
        None => {
            proof {
                reveal_strlit("");
            }
            assert(""@ =~= Seq::<char>::empty());
            write_string_by_u16(out, "");
        },
    }
}

fn push_count(out: &mut Vec<u8>, n: usize)
    ensures
        final(out)@ == old(out)@ + count_bytes(n as nat),
{
    if n >= 255 {
        out.push(255u8);
        let ghost mid = out@;
        push_le16(out, (n % 0x1_0000) as u16);
        assert(final(out)@ =~= old(out)@ + (seq![255u8] + b16(n as int)));
    } else {
        out.push(n as u8);
        assert(final(out)@ =~= old(out)@ + seq![n as u8]);
    }
}

fn write_removes(out: &mut Vec<u8>, r: &RemovesInfo)
    ensures
        final(out)@ == old(out)@ + removes_bytes(*r),
{
    if r.index >= 2047 {
        push_b16(out, 2047);
        push_b32(out, r.index);
        assert(final(out)@ =~= old(out)@ + (b16(2047) + b32(r.index as int)));
    } else {
        push_b16(out, r.index);
    }
}

fn adds_word(a: &AddsInfo) -> (num: u16)
    ensures
        num == adds_num(a@),
{
    let base: u16 = if a.index >= 2047 {
        2047
    } else {
        let w = low32(a.index);
        proof {
            vstd::arithmetic::div_mod::lemma_mod_mod(a.index as int, 0x1_0000, 0x1_0000);
        }
        (w % 0x1_0000) as u16
    };
    let flags: u16 = (if a.sprite { 0x8000u16 } else { 0u16 }) | (if a.additive { 0x4000u16 } else { 0u16 })
        | (if a.preload_frame > 0 { 0x2000u16 } else { 0u16 }) | (if a.name.is_some() { 0x1000u16 } else { 0u16 })
        | (if a.time_scale.is_some() { 0x800u16 } else { 0u16 });
    assert(flags == adds_flags(a@));
    base | flags
}

fn write_adds_resource(out: &mut Vec<u8>, a: &AddsInfo, version: i32)
    ensures
        final(out)@ == old(out)@ + adds_resource_part(a@, version),
{
    if version >= 6 && a.resource >= 255 {
        out.push(255u8);
        push_b16(out, a.resource);
        assert(final(out)@ =~= old(out)@ + (seq![255u8] + b16(a.resource as int)));
    } else {
        push_b8(out, a.resource);
    }
}

fn write_adds_tail(out: &mut Vec<u8>, a: &AddsInfo, num: u16)
    requires
        num == adds_num(a@),
    ensures
        final(out)@ == old(out)@ + adds_preload_part(a@) + adds_name_part(a@) + adds_scale_part(a@),
{
    if num & 0x2000 != 0 {
        push_b16(out, a.preload_frame);
    }
    assert(out@ =~= old(out)@ + adds_preload_part(a@));
    let ghost s4 = out@;
    match &a.name {
        Some(t) => write_string_by_u16(out, t.as_str()),
        None => {},
    }
    assert(out@ =~= s4 + adds_name_part(a@));
    let ghost s5 = out@;
    if num & 0x800 != 0 {
        let t: i32 = match a.time_scale {
            Some(t) => t,
            None => 0x1_0000,
        };
        push_b32(out, t);
    }
    assert(out@ =~= s5 + adds_scale_part(a@));
}

#[verifier::spinoff_prover]
fn write_adds(out: &mut Vec<u8>, a: &AddsInfo, version: i32)
    ensures
        final(out)@ == old(out)@ + adds_bytes(a@, version),
{
    let num = adds_word(a);
    let ghost o = old(out)@;
    let ghost p1 = b16(num as int);
    let ghost p2 = adds_index_part(a@);
    let ghost p3 = adds_resource_part(a@, version);
    let ghost p4 = adds_preload_part(a@);
    let ghost p5 = adds_name_part(a@);
    let ghost p6 = adds_scale_part(a@);
    push_le16(out, num);
    let ghost s1 = out@;
    if a.index >= 2047 {
        push_b32(out, a.index);
    }
    assert(out@ =~= s1 + p2);
    write_adds_resource(out, a, version);
    write_adds_tail(out, a, num);
    proof {
        lemma_app6(o, p1, p2, p3, p4, p5, p6);
    }
}

fn write_move_transform(out: &mut Vec<u8>, t: MoveTransform)
    ensures
        final(out)@ == old(out)@ + move_transform_bytes(t),
{
    match t {
        MoveTransform::Matrix(a, b, c, e) => {
            push_b32(out, a);
            push_b32(out, c);
            push_b32(out, b);
            push_b32(out, e);
            assert(final(out)@ =~= old(out)@ + (b32(a as int) + b32(c as int) + b32(b as int) + b32(e as int)));
        },
        MoveTransform::Rotate(r) => push_b16(out, r as i32),
        MoveTransform::Translate => {
            assert(final(out)@ =~= old(out)@ + Seq::<u8>::empty());
        },
    }
}

fn move_word(m: &MovesInfo) -> (num: u16)
    ensures
        num == moves_num(*m),
{
    let base: u16 = if m.index >= 1023 {
        1023
    } else {
        let w = low32(m.index);
        proof {
            vstd::arithmetic::div_mod::lemma_mod_mod(m.index as int, 0x1_0000, 0x1_0000);
        }
        (w % 0x1_0000) as u16
    };
    let long = !(-32767 <= m.x && m.x <= 32767 && -32767 <= m.y && m.y <= 32767);
    let is_matrix = match m.transform {
        MoveTransform::Matrix(..) => true,
        _ => false,
    };
    let is_rotate = match m.transform {
        MoveTransform::Rotate(..) => true,
        _ => false,
    };
    let flags: u16 = (if m.source_rectangle.is_some() { 0x8000u16 } else { 0u16 }) | (if is_rotate { 0x4000u16 } else { 0u16 })
        | (if m.color.is_some() { 0x2000u16 } else { 0u16 }) | (if is_matrix { 0x1000u16 } else { 0u16 })
        | (if long { 0x800u16 } else { 0u16 }) | (if m.sprite_frame_number > 0 { 0x400u16 } else { 0u16 });
    assert(flags == moves_flags(*m));
    base | flags
}

fn write_move_coords(out: &mut Vec<u8>, m: &MovesInfo)
    ensures
        final(out)@ == old(out)@ + moves_coords_part(*m),
{
    if !(-32767 <= m.x && m.x <= 32767 && -32767 <= m.y && m.y <= 32767) {
        push_b32(out, m.x);
        push_b32(out, m.y);
        assert(final(out)@ =~= old(out)@ + (b32(m.x as int) + b32(m.y as int)));
    } else {
        push_b16(out, m.x);
        push_b16(out, m.y);
        assert(final(out)@ =~= old(out)@ + (b16(m.x as int) + b16(m.y as int)));
    }
}

fn write_move_rect(out: &mut Vec<u8>, m: &MovesInfo)
    requires
        moves_writable(*m),
    ensures
        final(out)@ == old(out)@ + moves_rect_part(*m),
{
    match m.source_rectangle {
        Some((a, b, c, e)) => {
            push_b16(out, a * 20);
            push_b16(out, b * 20);
            push_b16(out, c * 20);
            push_b16(out, e * 20);
            assert(final(out)@ =~= old(out)@ + (b16(a * 20) + b16(b * 20) + b16(c * 20) + b16(e * 20)));
        },
        None => {
            assert(final(out)@ =~= old(out)@ + Seq::<u8>::empty());
        },
    }
}

fn write_move_color(out: &mut Vec<u8>, m: &MovesInfo)
    ensures
        final(out)@ == old(out)@ + moves_color_part(*m),
{
    match m.color {
        Some((r, g, b, a)) => {
            out.push(r);
            out.push(g);
            out.push(b);
            out.push(a);
            assert(final(out)@ =~= old(out)@ + seq![r, g, b, a]);
        },
        None => {
            assert(final(out)@ =~= old(out)@ + Seq::<u8>::empty());
        },
    }
}

#[verifier::spinoff_prover]
fn write_moves(out: &mut Vec<u8>, m: &MovesInfo)
    requires
        moves_writable(*m),
    ensures
        final(out)@ == old(out)@ + moves_bytes(*m),
{
    let num = move_word(m);
    let ghost o = old(out)@;
    let ghost p1 = b16(num as int);
    let ghost p2 = moves_index_part(*m);
    let ghost p3 = move_transform_bytes(m.transform);
    let ghost p4 = moves_coords_part(*m);
    let ghost p5 = moves_rect_part(*m);
    let ghost p6 = moves_color_part(*m);
    let ghost p7 = moves_frame_part(*m);
    push_le16(out, num);
    let ghost s1 = out@;
    if m.index >= 1023 {
        push_b32(out, m.index);
    }
    assert(out@ =~= s1 + p2);
    write_move_transform(out, m.transform);
    write_move_coords(out, m);
    write_move_rect(out, m);
    write_move_color(out, m);
    let ghost s6 = out@;
    if m.sprite_frame_number > 0 {
        push_b16(out, m.sprite_frame_number);
    }
    assert(out@ =~= s6 + p7);
    proof {
        lemma_app7(o, p1, p2, p3, p4, p5, p6, p7);
    }
}

fn write_command(out: &mut Vec<u8>, c: &(String, String))
    ensures
        final(out)@ == old(out)@ + command_bytes(command_view(*c)),
{
    write_string_by_u16(out, c.0.as_str());
    write_string_by_u16(out, c.1.as_str());
    assert(final(out)@ =~= old(out)@ + (str_bytes(c.0@) + str_bytes(c.1@)));
}


fn write_removes_section(out: &mut Vec<u8>, xs: &Vec<RemovesInfo>)
    ensures
        final(out)@ == old(out)@ + section_bytes(xs@, removes_bytes_fn()),
{
    if xs.len() > 0 {
        push_count(out, xs.len());
        let ghost c = out@;
        let ghost o = out@;
        proof {
            lemma_joined_last(xs@.take(0), removes_bytes_fn());
        }
        let mut k: usize = 0;
        while k < xs.len()
            invariant
                k <= xs@.len(),
                out@ == o + joined(xs@.take(k as int), removes_bytes_fn()),
            decreases xs@.len() - k,
        {
            let ghost before = out@;
            proof {
                assert(xs@[k as int] == xs@[k as int]);
            }
            write_removes(out, &xs[k]);
            proof {
                lemma_joined_step(xs@, k as int, removes_bytes_fn());
                lemma_app(o, joined(xs@.take(k as int), removes_bytes_fn()), removes_bytes_fn()(xs@[k as int]));
            }
            k = k + 1;
        }
        assert(xs@.take(xs@.len() as int) =~= xs@);
        proof {
            lemma_app(old(out)@, count_bytes(xs@.len()), joined(xs@, removes_bytes_fn()));
        }
    } else {
        assert(final(out)@ =~= old(out)@ + Seq::<u8>::empty());
    }
}

fn write_adds_section(out: &mut Vec<u8>, xs: &Vec<AddsInfo>, version: i32)
    ensures
        final(out)@ == old(out)@ + section_bytes(adds_views(xs@), adds_bytes_fn(version)),
{
    if xs.len() > 0 {
        push_count(out, xs.len());
        let ghost c = out@;
        let ghost o = out@;
        proof {
            lemma_joined_last(adds_views(xs@).take(0), adds_bytes_fn(version));
        }
        let mut k: usize = 0;
        while k < xs.len()
            invariant
                k <= xs@.len(),
                out@ == o + joined(adds_views(xs@).take(k as int), adds_bytes_fn(version)),
            decreases xs@.len() - k,
        {
            let ghost before = out@;
            proof {
                assert(adds_views(xs@)[k as int] == adds_view(xs@[k as int]));
            }
            write_adds(out, &xs[k], version);
            proof {
                lemma_joined_step(adds_views(xs@), k as int, adds_bytes_fn(version));
                lemma_app(o, joined(adds_views(xs@).take(k as int), adds_bytes_fn(version)), adds_bytes_fn(version)(adds_views(xs@)[k as int]));
            }
            k = k + 1;
        }
        assert(adds_views(xs@).take(xs@.len() as int) =~= adds_views(xs@));
        proof {
            lemma_app(old(out)@, count_bytes(xs@.len()), joined(adds_views(xs@), adds_bytes_fn(version)));
        }
    } else {
        assert(final(out)@ =~= old(out)@ + Seq::<u8>::empty());
    }
}

fn write_moves_section(out: &mut Vec<u8>, xs: &Vec<MovesInfo>)
    requires
        forall|i: int| 0 <= i < xs@.len() ==> moves_writable(#[trigger] xs@[i]),
    ensures
        final(out)@ == old(out)@ + section_bytes(xs@, moves_bytes_fn()),
{
    if xs.len() > 0 {
        push_count(out, xs.len());
        let ghost c = out@;
        let ghost o = out@;
        proof {
            lemma_joined_last(xs@.take(0), moves_bytes_fn());
        }
        let mut k: usize = 0;
        while k < xs.len()
            invariant
                k <= xs@.len(),
                out@ == o + joined(xs@.take(k as int), moves_bytes_fn()),
                forall|i: int| 0 <= i < xs@.len() ==> moves_writable(#[trigger] xs@[i]),
            decreases xs@.len() - k,
        {
            let ghost before = out@;
            proof {
                assert(xs@[k as int] == xs@[k as int]);
            }
            write_moves(out, &xs[k]);
            proof {
                lemma_joined_step(xs@, k as int, moves_bytes_fn());
                lemma_app(o, joined(xs@.take(k as int), moves_bytes_fn()), moves_bytes_fn()(xs@[k as int]));
            }
            k = k + 1;
        }
        assert(xs@.take(xs@.len() as int) =~= xs@);
        proof {
            lemma_app(old(out)@, count_bytes(xs@.len()), joined(xs@, moves_bytes_fn()));
        }
    } else {
        assert(final(out)@ =~= old(out)@ + Seq::<u8>::empty());
    }
}

fn write_command_list(out: &mut Vec<u8>, xs: &Vec<(String, String)>)
    ensures
        final(out)@ == old(out)@ + joined(command_views(xs@), command_bytes_fn()),
{
    let ghost o = out@;
    proof {
        lemma_joined_last(command_views(xs@).take(0), command_bytes_fn());
    }
    let mut k: usize = 0;
    while k < xs.len()
        invariant
            k <= xs@.len(),
            out@ == o + joined(command_views(xs@).take(k as int), command_bytes_fn()),
        decreases xs@.len() - k,
    {
        let ghost before = out@;
        proof {
            assert(command_views(xs@)[k as int] == command_view(xs@[k as int]));
        }
        write_command(out, &xs[k]);
        proof {
            lemma_joined_step(command_views(xs@), k as int, command_bytes_fn());
            lemma_app(o, joined(command_views(xs@).take(k as int), command_bytes_fn()), command_bytes_fn()(command_views(xs@)[k as int]));
        }
        k = k + 1;
    }
    assert(command_views(xs@).take(xs@.len() as int) =~= command_views(xs@));
    proof {
        assert(o == old(out)@);
    }
}

fn write_frame_list(out: &mut Vec<u8>, xs: &Vec<FrameInfo>, version: i32)
    requires
        forall|i: int| 0 <= i < xs@.len() ==> frame_writable(#[trigger] frame_views(xs@)[i]),
    ensures
        final(out)@ == old(out)@ + joined(frame_views(xs@), frame_bytes_fn(version)),
{
    let ghost o = out@;
    proof {
        lemma_joined_last(frame_views(xs@).take(0), frame_bytes_fn(version));
    }
    let mut k: usize = 0;
    while k < xs.len()
        invariant
            k <= xs@.len(),
            out@ == o + joined(frame_views(xs@).take(k as int), frame_bytes_fn(version)),
            forall|i: int| 0 <= i < xs@.len() ==> frame_writable(#[trigger] frame_views(xs@)[i]),
        decreases xs@.len() - k,
    {
        let ghost before = out@;
        proof {
            assert(frame_views(xs@)[k as int] == frame_view(xs@[k as int]));
        }
        write_frame(out, &xs[k], version);
        proof {
            lemma_joined_step(frame_views(xs@), k as int, frame_bytes_fn(version));
            lemma_app(o, joined(frame_views(xs@).take(k as int), frame_bytes_fn(version)), frame_bytes_fn(version)(frame_views(xs@)[k as int]));
        }
        k = k + 1;
    }
    assert(frame_views(xs@).take(xs@.len() as int) =~= frame_views(xs@));
    proof {
        assert(o == old(out)@);
    }
}

fn write_image_list(out: &mut Vec<u8>, xs: &Vec<ImageInfo>, version: i32)
    ensures
        final(out)@ == old(out)@ + joined(image_views(xs@), image_bytes_fn(version)),
{
    let ghost o = out@;
    proof {
        lemma_joined_last(image_views(xs@).take(0), image_bytes_fn(version));
    }
    let mut k: usize = 0;
    while k < xs.len()
        invariant
            k <= xs@.len(),
            out@ == o + joined(image_views(xs@).take(k as int), image_bytes_fn(version)),
        decreases xs@.len() - k,
    {
        let ghost before = out@;
        proof {
            assert(image_views(xs@)[k as int] == image_view(xs@[k as int]));
        }
        write_image(out, &xs[k], version);
        proof {
            lemma_joined_step(image_views(xs@), k as int, image_bytes_fn(version));
            lemma_app(o, joined(image_views(xs@).take(k as int), image_bytes_fn(version)), image_bytes_fn(version)(image_views(xs@)[k as int]));
        }
        k = k + 1;
    }
    assert(image_views(xs@).take(xs@.len() as int) =~= image_views(xs@));
    proof {
        assert(o == old(out)@);
    }
}

fn write_sprite_list(out: &mut Vec<u8>, xs: &Vec<SpriteInfo>, version: i32)
    requires
        forall|i: int| 0 <= i < xs@.len() ==> sprite_writable(#[trigger] sprite_views(xs@)[i]),
    ensures
        final(out)@ == old(out)@ + joined(sprite_views(xs@), sprite_bytes_fn(version)),
{
    let ghost o = out@;
    proof {
        lemma_joined_last(sprite_views(xs@).take(0), sprite_bytes_fn(version));
    }
    let mut k: usize = 0;
    while k < xs.len()
        invariant
            k <= xs@.len(),
            out@ == o + joined(sprite_views(xs@).take(k as int), sprite_bytes_fn(version)),
            forall|i: int| 0 <= i < xs@.len() ==> sprite_writable(#[trigger] sprite_views(xs@)[i]),
        decreases xs@.len() - k,
    {
        let ghost before = out@;
        proof {
            assert(sprite_views(xs@)[k as int] == sprite_view(xs@[k as int]));
        }
        write_sprite(out, &xs[k], version);
        proof {
            lemma_joined_step(sprite_views(xs@), k as int, sprite_bytes_fn(version));
            lemma_app(o, joined(sprite_views(xs@).take(k as int), sprite_bytes_fn(version)), sprite_bytes_fn(version)(sprite_views(xs@)[k as int]));
        }
        k = k + 1;
    }
    assert(sprite_views(xs@).take(xs@.len() as int) =~= sprite_views(xs@));
    proof {
        assert(o == old(out)@);
    }
}


#[verifier::spinoff_prover]
fn write_frame(out: &mut Vec<u8>, f: &FrameInfo, version: i32)
    requires
        frame_writable(f@),
    ensures
        final(out)@ == old(out)@ + frame_bytes(f@, version),
{
    let flags: u8 = (if f.remove.len() > 0 { 1u8 } else { 0u8 }) | (if f.append.len() > 0 { 2u8 } else { 0u8 })
        | (if f.change.len() > 0 { 4u8 } else { 0u8 }) | (if f.label.is_some() { 8u8 } else { 0u8 })
        | (if f.stop { 16u8 } else { 0u8 }) | (if f.command.len() > 0 { 32u8 } else { 0u8 });
    assert(flags == frame_flags(f@));
    let ghost o = old(out)@;
    let ghost p1 = seq![flags];
    let ghost p2 = section_bytes(f@.remove, removes_bytes_fn());
    let ghost p3 = section_bytes(f@.append, adds_bytes_fn(version));
    let ghost p4 = section_bytes(f@.change, moves_bytes_fn());
    let ghost p5 = match f@.label {
        Some(t) => str_bytes(t),
        None => Seq::<u8>::empty(),
    };
    let ghost p6 = if f@.command.len() > 0 {
        b8(f@.command.len() as int) + joined(f@.command, command_bytes_fn())
    } else {
        Seq::<u8>::empty()
    };
    out.push(flags);
    assert(out@ =~= o + p1);
    write_removes_section(out, &f.remove);
    write_adds_section(out, &f.append, version);
    write_moves_section(out, &f.change);
    let ghost s4 = out@;
    match &f.label {
        Some(t) => write_string_by_u16(out, t.as_str()),
        None => {},
    }
    assert(out@ =~= s4 + p5);
    let ghost s5 = out@;
    if f.command.len() > 0 {
        let n = f.command.len();
        out.push((n % 0x100) as u8);
        assert(out@ =~= s5 + b8(n as int));
        let ghost s51 = out@;
        write_command_list(out, &f.command);
        proof {
            lemma_app(s5, b8(n as int), joined(f@.command, command_bytes_fn()));
        }
    }
    assert(out@ =~= s5 + p6);
    proof {
        lemma_app6(o, p1, p2, p3, p4, p5, p6);
    }
}

fn write_sprite_head(out: &mut Vec<u8>, s: &SpriteInfo, version: i32)
    ensures
        final(out)@ == old(out)@ + (if version >= 4 {
            str_bytes(or_empty(s@.name)) + (if version >= 6 { str_bytes(or_empty(s@.description)) } else { Seq::<u8>::empty() })
                + b32(s@.frame_rate as int)
        } else {
            Seq::<u8>::empty()
        }),
{
    if version >= 4 {
        write_opt_string_by_u16(out, &s.name);
        let ghost a = out@;
        if version >= 6 {
            write_opt_string_by_u16(out, &s.description);
        }
        let ghost d = if version >= 6 { str_bytes(or_empty(s@.description)) } else { Seq::<u8>::empty() };
        assert(out@ =~= a + d);
        push_b32(out, s.frame_rate);
        proof {
            lemma_app(old(out)@, str_bytes(or_empty(s@.name)), d);
            lemma_app(old(out)@, str_bytes(or_empty(s@.name)) + d, b32(s@.frame_rate as int));
        }
    } else {
        assert(out@ =~= old(out)@ + Seq::<u8>::empty());
    }
}

#[verifier::spinoff_prover]
fn write_sprite(out: &mut Vec<u8>, s: &SpriteInfo, version: i32)
    requires
        sprite_writable(s@),
    ensures
        final(out)@ == old(out)@ + sprite_bytes(s@, version),
{
    let ghost o = old(out)@;
    let ghost p1 = if version >= 4 {
        str_bytes(or_empty(s@.name)) + (if version >= 6 { str_bytes(or_empty(s@.description)) } else { Seq::<u8>::empty() })
            + b32(s@.frame_rate as int)
    } else {
        Seq::<u8>::empty()
    };
    let ghost p2 = b16(s@.frame.len() as int);
    let ghost p3 = if version >= 5 { b16(s@.work_area.0 as int) + b16(s@.work_area.1 as int) } else { Seq::<u8>::empty() };
    let ghost p4 = joined(s@.frame, frame_bytes_fn(version));
    write_sprite_head(out, s, version);
    let ghost s1 = out@;
    let n = s.frame.len();
    push_le16(out, (n % 0x1_0000) as u16);
    assert(out@ =~= s1 + p2);
    let ghost s2 = out@;
    if version >= 5 {
        push_b16(out, s.work_area.0);
        push_b16(out, s.work_area.1);
    }
    assert(out@ =~= s2 + p3);
    write_frame_list(out, &s.frame, version);
    proof {
        lemma_app(o, p1, p2);
        lemma_app(o, p1 + p2, p3);
        lemma_app(o, p1 + p2 + p3, p4);
    }
}

#[verifier::spinoff_prover]
fn write_image(out: &mut Vec<u8>, i: &ImageInfo, version: i32)
    ensures
        final(out)@ == old(out)@ + image_bytes(i@, version),
{
    let ghost o = old(out)@;
    let ghost p1 = str_bytes(i@.name);
    let ghost p2 = if version >= 4 { b16(i@.size.0 as int) + b16(i@.size.1 as int) } else { Seq::<u8>::empty() };
    let ghost p3 = image_transform_bytes(i@.transform);
    let ghost p4 = b16(i@.x as int);
    let ghost p5 = b16(i@.y as int);
    write_string_by_u16(out, i.name.as_str());
    let ghost s1 = out@;
    if version >= 4 {
        push_b16(out, i.size.0);
        push_b16(out, i.size.1);
    }
    assert(out@ =~= s1 + p2);
    let ghost s2 = out@;
    match i.transform {
        ImageTransform::Rotation(a) => push_le16(out, a),
        ImageTransform::Matrix(a, b, c, e) => {
            push_b32(out, a);
            push_b32(out, c);
            push_b32(out, b);
            push_b32(out, e);
        },
    }
    assert(out@ =~= s2 + p3);
    push_b16(out, i.x as i32);
    push_b16(out, i.y as i32);
    proof {
        lemma_app(o, p1, p2);
        lemma_app(o, p1 + p2, p3);
        lemma_app(o, p1 + p2 + p3, p4);
        lemma_app(o, p1 + p2 + p3 + p4, p5);
    }
}


/// The fixed header: magic, version, rate, position, size and image count.
fn pam_head(p: &PamInfo) -> (out: Vec<u8>)
    ensures
        out@ == b32(PAM_MAGIC as int) + b32(p.version as int) + b8(p.frame_rate as int) + b16(p.position.0 as int)
            + b16(p.position.1 as int) + b16(p.size.0 as int) + b16(p.size.1 as int) + b16(p@.image.len() as int),
{
    let mut out: Vec<u8> = Vec::new();
    push_le32(&mut out, PAM_MAGIC);
    assert(out@ =~= b32(PAM_MAGIC as int));
    push_b32(&mut out, p.version);
    push_b8(&mut out, p.frame_rate);
    push_b16(&mut out, p.position.0 as i32);
    push_b16(&mut out, p.position.1 as i32);
    push_b16(&mut out, p.size.0 as i32);
    push_b16(&mut out, p.size.1 as i32);
    let ni = p.image.len();
    push_le16(&mut out, (ni % 0x1_0000) as u16);
    out
}

/// The sprites, the main-sprite flag from version 4 on, and the main sprite.
fn write_pam_sprites(out: &mut Vec<u8>, p: &PamInfo)
    requires
        pam_writable(p@),
    ensures
        final(out)@ == old(out)@ + b16(p@.sprite.len() as int) + joined(p@.sprite, sprite_bytes_fn(p.version))
            + (if p.version > 3 { seq![1u8] } else { Seq::<u8>::empty() }) + sprite_bytes(p@.main_sprite, p.version),
{
    let v = p.version;
    let ns = p.sprite.len();
    push_le16(out, (ns % 0x1_0000) as u16);
    assert(out@ == old(out)@ + b16(p@.sprite.len() as int));
    write_sprite_list(out, &p.sprite, v);
    let ghost s11 = out@;
    if v > 3 {
        out.push(1u8);
    }
    assert(out@ =~= s11 + (if v > 3 { seq![1u8] } else { Seq::<u8>::empty() }));
    write_sprite(out, &p.main_sprite, v);
}

/// Writes a whole animation.
#[verifier::spinoff_prover]
pub(crate) fn write_pam(p: &PamInfo) -> (out: Vec<u8>)
    requires
        pam_writable(p@),
    ensures
        out@ == pam_bytes(p@),
{
    let v = p.version;
    let mut out = pam_head(p);
    write_image_list(&mut out, &p.image, v);
    let ghost h = out@;
    write_pam_sprites(&mut out, p);
    let ghost a = b16(p@.sprite.len() as int);
    let ghost b = joined(p@.sprite, sprite_bytes_fn(p.version));
    let ghost c = if p.version > 3 { seq![1u8] } else { Seq::<u8>::empty() };
    let ghost d = sprite_bytes(p@.main_sprite, p.version);
    assert(out@ == h + a + b + c + d);
    out
}

} // verus!
