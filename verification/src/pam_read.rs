//! Reading PAM files.
use vstd::prelude::*;
use crate::bytes::{read_le16, read_le_i32};
use crate::pam::{
    adds_at, count_at, div20, i16_at, i32_at, list_at, moves_at, removes_at, str_at, u16_at, u8_at,
    move_color_at, move_coords_at, move_frame_at, move_index_at, move_rect_at, move_transform_at,
    AddsInfo, MoveTransform, MovesInfo, RemovesInfo, AddsView, FrameView, FrameInfo, SpriteInfo,
    ImageInfo, ImageTransform, PamInfo, adds_fn, adds_view, adds_views, command_at, command_fn,
    command_view, command_views, commands_at, empty_sprite, frame_at, frame_fn, frame_view,
    frame_views, image_at, image_fn, image_size_at, image_transform_at, image_view, image_views,
    label_at, main_sprite_at, moves_fn, opt_str, pam_body_at, removes_fn, section_at, sprite_at,
    sprite_fn, sprite_head_at, sprite_span_at, sprite_view, sprite_views,
};
use crate::text::string_from_utf8_lossy;

verus! {

/// A result read with its end position, the position as an integer.
pub open spec fn at<T>(r: Option<(T, usize)>) -> Option<(T, int)> {
    match r {
        Some((v, q)) => Some((v, q as int)),
        None => None,
    }
}

/// A result read with its end position, the value by its view.
pub open spec fn seen<T: View>(r: Option<(T, usize)>) -> Option<(T::V, int)> {
    match r {
        Some((v, q)) => Some((v@, q as int)),
        None => None,
    }
}

/// A list that cannot be read cannot be read longer either.
pub proof fn lemma_list_none<A>(d: Seq<u8>, p: int, n: nat, m: nat, f: spec_fn(Seq<u8>, int) -> Option<(A, int)>)
    requires
        list_at(d, p, n, f) is None,
        n <= m,
    ensures
        list_at(d, p, m, f) is None,
    decreases m - n,
{
    reveal(list_at);
    if n < m {
        lemma_list_none(d, p, n, (m - 1) as nat, f);
    }
}

pub(crate) fn rd_u8(d: &[u8], p: usize) -> (r: Option<(u8, usize)>)
    ensures
        at(r) == u8_at(d@, p as int),
{
    if p < d.len() { Some((d[p], p + 1)) } else { None }
}

pub(crate) fn rd_u16(d: &[u8], p: usize) -> (r: Option<(u16, usize)>)
    ensures
        at(r) == u16_at(d@, p as int),
{
    if p <= d.len() && d.len() - p >= 2 { Some((read_le16(d, p), p + 2)) } else { None }
}

pub(crate) fn rd_i16(d: &[u8], p: usize) -> (r: Option<(i16, usize)>)
    ensures
        at(r) == i16_at(d@, p as int),
{
    if p <= d.len() && d.len() - p >= 2 {
        let u = read_le16(d, p);
        let v: i16 = if u < 0x8000 { u as i16 } else { (u as i32 - 0x1_0000) as i16 };
        Some((v, p + 2))
    } else {
        None
    }
}

pub(crate) fn rd_i32(d: &[u8], p: usize) -> (r: Option<(i32, usize)>)
    ensures
        at(r) == i32_at(d@, p as int),
{
    if p <= d.len() && d.len() - p >= 4 { Some((read_le_i32(d, p), p + 4)) } else { None }
}

/// A flag byte: whether it is not zero.
pub(crate) fn read_bool(d: &[u8], p: usize) -> (r: Option<(bool, usize)>)
    ensures
        match r {
            Some((b, q)) => u8_at(d@, p as int) matches Some((f, e)) && b == (f != 0) && q == e,
            None => u8_at(d@, p as int) is None,
        },
{
    match rd_u8(d, p) {
        Some((f, q)) => Some((f != 0, q)),
        None => None,
    }
}

pub(crate) fn read_string_by_u16(d: &[u8], p: usize) -> (r: Option<(String, usize)>)
    ensures
        match r {
            Some((s, q)) => str_at(d@, p as int) == Some((s@, q as int)),
            None => str_at(d@, p as int) is None,
        },
{
    match rd_u16(d, p) {
        Some((n, q)) => {
            if d.len() - q >= n as usize {
                let e = q + n as usize;
                let s = string_from_utf8_lossy(vstd::slice::slice_subrange(d, q, e));
                Some((s, e))
            } else {
                None
            }
        },
        None => None,
    }
}

pub(crate) fn rd_count(d: &[u8], p: usize) -> (r: Option<(usize, usize)>)
    ensures
        match r {
            Some((n, q)) => count_at(d@, p as int) == Some((n as nat, q as int)),
            None => count_at(d@, p as int) is None,
        },
{
    match rd_u8(d, p) {
        Some((c, q)) => {
            if c == 255 {
                match rd_u16(d, q) {
                    Some((n, r)) => Some((n as usize, r)),
                    None => None,
                }
            } else {
                Some((c as usize, q))
            }
        },
        None => None,
    }
}

pub(crate) fn read_removes(d: &[u8], p: usize) -> (r: Option<(RemovesInfo, usize)>)
    ensures
        at(r) == removes_at(d@, p as int),
{
    match rd_u16(d, p) {
        Some((v, q)) => {
            if v >= 2047 {
                match rd_i32(d, q) {
                    Some((w, r)) => Some((RemovesInfo { index: w }, r)),
                    None => None,
                }
            } else {
                Some((RemovesInfo { index: v as i32 }, q))
            }
        },
        None => None,
    }
}

pub(crate) fn read_adds(d: &[u8], p: usize, version: i32) -> (r: Option<(AddsInfo, usize)>)
    ensures
        seen(r) == adds_at(d@, p as int, version),
{
    let (num, q0) = match rd_u16(d, p) {
        Some(x) => x,
        None => return None,
    };
    let (index, q1) = if num & 2047 == 2047 {
        match rd_i32(d, q0) {
            Some(x) => x,
            None => return None,
        }
    } else {
        ((num & 2047) as i32, q0)
    };
    let (r0, q2a) = match rd_u8(d, q1) {
        Some(x) => x,
        None => return None,
    };
    let (resource, q2) = if version >= 6 && r0 == 255 {
        match rd_u16(d, q2a) {
            Some((w, t)) => (w as i32, t),
            None => return None,
        }
    } else {
        (r0 as i32, q2a)
    };
    let (preload_frame, q3) = if num & 8192 != 0 {
        match rd_u16(d, q2) {
            Some((w, t)) => (w as i32, t),
            None => return None,
        }
    } else {
        (0i32, q2)
    };
    let (name, q4) = if num & 4096 != 0 {
        match read_string_by_u16(d, q3) {
            Some((s, t)) => (Some(s), t),
            None => return None,
        }
    } else {
        (None, q3)
    };
    let (time_scale, q5) = if num & 2048 != 0 {
        match rd_i32(d, q4) {
            Some((w, t)) => (Some(w), t),
            None => return None,
        }
    } else {
        (None, q4)
    };
    let a = AddsInfo {
        index,
        name,
        resource,
        sprite: num & 32768 != 0,
        additive: num & 16384 != 0,
        preload_frame,
        time_scale,
    };
    Some((a, q5))
}

/// `v / 20`, rounded toward zero.
fn div20_exec(v: i16) -> (r: i32)
    ensures
        r == div20(v as int),
{
    let w = v as i32;
    if w >= 0 {
        w / 20
    } else {
        let m: i32 = -w;
        -(m / 20)
    }
}

fn read_move_transform(d: &[u8], num: u16, q1: usize) -> (r: Option<(MoveTransform, usize)>)
    ensures
        at(r) == move_transform_at(d@, num, q1 as int),
{
    if num & 4096 != 0 {
        if q1 <= d.len() && d.len() - q1 >= 16 {
            let a = read_le_i32(d, q1);
            let c = read_le_i32(d, q1 + 4);
            let b = read_le_i32(d, q1 + 8);
            let e = read_le_i32(d, q1 + 12);
            Some((MoveTransform::Matrix(a, b, c, e), q1 + 16))
        } else {
            None
        }
    } else if num & 16384 != 0 {
        match rd_i16(d, q1) {
            Some((a, t)) => Some((MoveTransform::Rotate(a), t)),
            None => None,
        }
    } else {
        Some((MoveTransform::Translate, q1))
    }
}

fn read_move_coords(d: &[u8], num: u16, q2: usize) -> (r: Option<((i32, i32), usize)>)
    ensures
        at(r) == move_coords_at(d@, num, q2 as int),
{
    if num & 2048 != 0 {
        if q2 <= d.len() && d.len() - q2 >= 8 {
            Some(((read_le_i32(d, q2), read_le_i32(d, q2 + 4)), q2 + 8))
        } else {
            None
        }
    } else {
        match rd_i16(d, q2) {
            Some((x, t)) => match rd_i16(d, t) {
                Some((y, u)) => Some(((x as i32, y as i32), u)),
                None => None,
            },
            None => None,
        }
    }
}

fn read_move_rect(d: &[u8], num: u16, q3: usize) -> (r: Option<(Option<(i32, i32, i32, i32)>, usize)>)
    ensures
        at(r) == move_rect_at(d@, num, q3 as int),
{
    if num & 32768 != 0 {
        if q3 <= d.len() && d.len() - q3 >= 8 {
            let a = match rd_i16(d, q3) { Some((v, _)) => v, None => return None };
            let b = match rd_i16(d, q3 + 2) { Some((v, _)) => v, None => return None };
            let c = match rd_i16(d, q3 + 4) { Some((v, _)) => v, None => return None };
            let e = match rd_i16(d, q3 + 6) { Some((v, _)) => v, None => return None };
            Some((Some((div20_exec(a), div20_exec(b), div20_exec(c), div20_exec(e))), q3 + 8))
        } else {
            None
        }
    } else {
        Some((None, q3))
    }
}

fn read_move_color(d: &[u8], num: u16, q4: usize) -> (r: Option<(Option<(u8, u8, u8, u8)>, usize)>)
    ensures
        at(r) == move_color_at(d@, num, q4 as int),
{
    if num & 8192 != 0 {
        if q4 <= d.len() && d.len() - q4 >= 4 {
            Some((Some((d[q4], d[q4 + 1], d[q4 + 2], d[q4 + 3])), q4 + 4))
        } else {
            None
        }
    } else {
        Some((None, q4))
    }
}

pub(crate) fn read_moves(d: &[u8], p: usize) -> (r: Option<(MovesInfo, usize)>)
    ensures
        at(r) == moves_at(d@, p as int),
{
    let (num, q0) = match rd_u16(d, p) {
        Some(x) => x,
        None => return None,
    };
    let (index, q1) = if num & 1023 == 1023 {
        match rd_i32(d, q0) {
            Some(x) => x,
            None => return None,
        }
    } else {
        ((num & 1023) as i32, q0)
    };
    assert(move_index_at(d@, num, q0 as int) == Some((index, q1 as int)));
    let (transform, q2) = match read_move_transform(d, num, q1) {
        Some(x) => x,
        None => return None,
    };
    let (xy, q3) = match read_move_coords(d, num, q2) {
        Some(x) => x,
        None => return None,
    };
    let (source_rectangle, q4) = match read_move_rect(d, num, q3) {
        Some(x) => x,
        None => return None,
    };
    let (color, q5) = match read_move_color(d, num, q4) {
        Some(x) => x,
        None => return None,
    };
    let (sprite_frame_number, q6) = if num & 1024 != 0 {
        match rd_u16(d, q5) {
            Some((w, t)) => (w as i32, t),
            None => return None,
        }
    } else {
        (0i32, q5)
    };
    assert(move_frame_at(d@, num, q5 as int) == Some((sprite_frame_number, q6 as int)));
    Some((MovesInfo { index, transform, x: xy.0, y: xy.1, color, source_rectangle, sprite_frame_number }, q6))
}


pub(crate) fn read_removes_list(d: &[u8], p: usize, n: usize) -> (r: Option<(Vec<RemovesInfo>, usize)>)
    ensures
        match r {
            Some((v, q)) => list_at(d@, p as int, n as nat, removes_fn()) == Some((v@, q as int)),
            None => list_at(d@, p as int, n as nat, removes_fn()) is None,
        },
{
    proof {
        reveal(list_at);
    }
    let mut out: Vec<RemovesInfo> = Vec::new();
    let mut pos = p;
    let mut k: usize = 0;
    while k < n
        invariant
            k <= n,
            list_at(d@, p as int, k as nat, removes_fn()) == Some((out@, pos as int)),
        decreases n - k,
    {
        match read_removes(d, pos) {
            Some((x, q)) => {
                let ghost before = out@;
            proof {
                reveal(list_at);
            }
                out.push(x);
                proof {
                    assert(out@ =~= before.push(x));
                }
                pos = q;
                k = k + 1;
            },
            None => {
                proof {
                    reveal(list_at);
                    lemma_list_none(d@, p as int, (k + 1) as nat, n as nat, removes_fn());
                }
                return None;
            },
        }
    }
    Some((out, pos))
}

pub(crate) fn read_adds_list(d: &[u8], p: usize, n: usize, version: i32) -> (r: Option<(Vec<AddsInfo>, usize)>)
    ensures
        match r {
            Some((v, q)) => list_at(d@, p as int, n as nat, adds_fn(version)) == Some((adds_views(v@), q as int)),
            None => list_at(d@, p as int, n as nat, adds_fn(version)) is None,
        },
{
    proof {
        reveal(list_at);
    }
    let mut out: Vec<AddsInfo> = Vec::new();
    let mut pos = p;
    let mut k: usize = 0;
    while k < n
        invariant
            k <= n,
            list_at(d@, p as int, k as nat, adds_fn(version)) == Some((adds_views(out@), pos as int)),
        decreases n - k,
    {
        match read_adds(d, pos, version) {
            Some((x, q)) => {
                let ghost before = out@;
            proof {
                reveal(list_at);
            }
                out.push(x);
                proof {
                    assert(adds_views(out@) =~= adds_views(before).push(adds_view(x)));
                }
                pos = q;
                k = k + 1;
            },
            None => {
                proof {
                    reveal(list_at);
                    lemma_list_none(d@, p as int, (k + 1) as nat, n as nat, adds_fn(version));
                }
                return None;
            },
        }
    }
    Some((out, pos))
}

pub(crate) fn read_moves_list(d: &[u8], p: usize, n: usize) -> (r: Option<(Vec<MovesInfo>, usize)>)
    ensures
        match r {
            Some((v, q)) => list_at(d@, p as int, n as nat, moves_fn()) == Some((v@, q as int)),
            None => list_at(d@, p as int, n as nat, moves_fn()) is None,
        },
{
    proof {
        reveal(list_at);
    }
    let mut out: Vec<MovesInfo> = Vec::new();
    let mut pos = p;
    let mut k: usize = 0;
    while k < n
        invariant
            k <= n,
            list_at(d@, p as int, k as nat, moves_fn()) == Some((out@, pos as int)),
        decreases n - k,
    {
        match read_moves(d, pos) {
            Some((x, q)) => {
                let ghost before = out@;
            proof {
                reveal(list_at);
            }
                out.push(x);
                proof {
                    assert(out@ =~= before.push(x));
                }
                pos = q;
                k = k + 1;
            },
            None => {
                proof {
                    reveal(list_at);
                    lemma_list_none(d@, p as int, (k + 1) as nat, n as nat, moves_fn());
                }
                return None;
            },
        }
    }
    Some((out, pos))
}

pub(crate) fn read_command_list(d: &[u8], p: usize, n: usize) -> (r: Option<(Vec<(String, String)>, usize)>)
    ensures
        match r {
            Some((v, q)) => list_at(d@, p as int, n as nat, command_fn()) == Some((command_views(v@), q as int)),
            None => list_at(d@, p as int, n as nat, command_fn()) is None,
        },
{
    proof {
        reveal(list_at);
    }
    let mut out: Vec<(String, String)> = Vec::new();
    let mut pos = p;
    let mut k: usize = 0;
    while k < n
        invariant
            k <= n,
            list_at(d@, p as int, k as nat, command_fn()) == Some((command_views(out@), pos as int)),
        decreases n - k,
    {
        match read_command(d, pos) {
            Some((x, q)) => {
                let ghost before = out@;
            proof {
                reveal(list_at);
            }
                out.push(x);
                proof {
                    assert(command_views(out@) =~= command_views(before).push(command_view(x)));
                }
                pos = q;
                k = k + 1;
            },
            None => {
                proof {
                    reveal(list_at);
                    lemma_list_none(d@, p as int, (k + 1) as nat, n as nat, command_fn());
                }
                return None;
            },
        }
    }
    Some((out, pos))
}

pub(crate) fn read_frame_list(d: &[u8], p: usize, n: usize, version: i32) -> (r: Option<(Vec<FrameInfo>, usize)>)
    ensures
        match r {
            Some((v, q)) => list_at(d@, p as int, n as nat, frame_fn(version)) == Some((frame_views(v@), q as int)),
            None => list_at(d@, p as int, n as nat, frame_fn(version)) is None,
        },
{
    proof {
        reveal(list_at);
    }
    let mut out: Vec<FrameInfo> = Vec::new();
    let mut pos = p;
    let mut k: usize = 0;
    while k < n
        invariant
            k <= n,
            list_at(d@, p as int, k as nat, frame_fn(version)) == Some((frame_views(out@), pos as int)),
        decreases n - k,
    {
        match read_frame(d, pos, version) {
            Some((x, q)) => {
                let ghost before = out@;
            proof {
                reveal(list_at);
            }
                out.push(x);
                proof {
                    assert(frame_views(out@) =~= frame_views(before).push(frame_view(x)));
                }
                pos = q;
                k = k + 1;
            },
            None => {
                proof {
                    reveal(list_at);
                    lemma_list_none(d@, p as int, (k + 1) as nat, n as nat, frame_fn(version));
                }
                return None;
            },
        }
    }
    Some((out, pos))
}

pub(crate) fn read_image_list(d: &[u8], p: usize, n: usize, version: i32) -> (r: Option<(Vec<ImageInfo>, usize)>)
    ensures
        match r {
            Some((v, q)) => list_at(d@, p as int, n as nat, image_fn(version)) == Some((image_views(v@), q as int)),
            None => list_at(d@, p as int, n as nat, image_fn(version)) is None,
        },
{
    proof {
        reveal(list_at);
    }
    let mut out: Vec<ImageInfo> = Vec::new();
    let mut pos = p;
    let mut k: usize = 0;
    while k < n
        invariant
            k <= n,
            list_at(d@, p as int, k as nat, image_fn(version)) == Some((image_views(out@), pos as int)),
        decreases n - k,
    {
        match read_image(d, pos, version) {
            Some((x, q)) => {
                let ghost before = out@;
            proof {
                reveal(list_at);
            }
                out.push(x);
                proof {
                    assert(image_views(out@) =~= image_views(before).push(image_view(x)));
                }
                pos = q;
                k = k + 1;
            },
            None => {
                proof {
                    reveal(list_at);
                    lemma_list_none(d@, p as int, (k + 1) as nat, n as nat, image_fn(version));
                }
                return None;
            },
        }
    }
    Some((out, pos))
}

pub(crate) fn read_sprite_list(d: &[u8], p: usize, n: usize, version: i32, rate: u8) -> (r: Option<(Vec<SpriteInfo>, usize)>)
    ensures
        match r {
            Some((v, q)) => list_at(d@, p as int, n as nat, sprite_fn(version, rate)) == Some((sprite_views(v@), q as int)),
            None => list_at(d@, p as int, n as nat, sprite_fn(version, rate)) is None,
        },
{
    proof {
        reveal(list_at);
    }
    let mut out: Vec<SpriteInfo> = Vec::new();
    let mut pos = p;
    let mut k: usize = 0;
    while k < n
        invariant
            k <= n,
            list_at(d@, p as int, k as nat, sprite_fn(version, rate)) == Some((sprite_views(out@), pos as int)),
        decreases n - k,
    {
        match read_sprite(d, pos, version, rate) {
            Some((x, q)) => {
                let ghost before = out@;
            proof {
                reveal(list_at);
            }
                out.push(x);
                proof {
                    assert(sprite_views(out@) =~= sprite_views(before).push(sprite_view(x)));
                }
                pos = q;
                k = k + 1;
            },
            None => {
                proof {
                    reveal(list_at);
                    lemma_list_none(d@, p as int, (k + 1) as nat, n as nat, sprite_fn(version, rate));
                }
                return None;
            },
        }
    }
    Some((out, pos))
}


pub(crate) fn read_command(d: &[u8], p: usize) -> (r: Option<((String, String), usize)>)
    ensures
        match r {
            Some((c, q)) => command_at(d@, p as int) == Some((command_view(c), q as int)),
            None => command_at(d@, p as int) is None,
        },
{
    match read_string_by_u16(d, p) {
        Some((a, q)) => match read_string_by_u16(d, q) {
            Some((b, r)) => Some(((a, b), r)),
            None => None,
        },
        None => None,
    }
}

pub(crate) fn read_frame(d: &[u8], p: usize, version: i32) -> (r: Option<(FrameInfo, usize)>)
    ensures
        seen(r) == frame_at(d@, p as int, version),
{
    let (f, q0) = match rd_u8(d, p) {
        Some(x) => x,
        None => return None,
    };
    let (remove, q1) = if f & 1 != 0 {
        match rd_count(d, q0) {
            Some((n, t)) => match read_removes_list(d, t, n) {
                Some(x) => x,
                None => return None,
            },
            None => return None,
        }
    } else {
        (Vec::new(), q0)
    };
    assert(section_at(d@, q0 as int, f & 1 != 0, removes_fn()) == Some((remove@, q1 as int)));
    let (append, q2) = if f & 2 != 0 {
        match rd_count(d, q1) {
            Some((n, t)) => match read_adds_list(d, t, n, version) {
                Some(x) => x,
                None => return None,
            },
            None => return None,
        }
    } else {
        let v: Vec<AddsInfo> = Vec::new();
        assert(adds_views(v@) =~= Seq::<AddsView>::empty());
        (v, q1)
    };
    assert(section_at(d@, q1 as int, f & 2 != 0, adds_fn(version)) == Some((adds_views(append@), q2 as int)));
    let (change, q3) = if f & 4 != 0 {
        match rd_count(d, q2) {
            Some((n, t)) => match read_moves_list(d, t, n) {
                Some(x) => x,
                None => return None,
            },
            None => return None,
        }
    } else {
        (Vec::new(), q2)
    };
    assert(section_at(d@, q2 as int, f & 4 != 0, moves_fn()) == Some((change@, q3 as int)));
    let (label, q4) = if f & 8 != 0 {
        match read_string_by_u16(d, q3) {
            Some((s, t)) => (Some(s), t),
            None => return None,
        }
    } else {
        (None, q3)
    };
    assert(label_at(d@, f & 8 != 0, q3 as int) == Some((opt_str(label), q4 as int)));
    let (command, q5) = if f & 32 != 0 {
        match rd_u8(d, q4) {
            Some((n, t)) => match read_command_list(d, t, n as usize) {
                Some(x) => x,
                None => return None,
            },
            None => return None,
        }
    } else {
        let v: Vec<(String, String)> = Vec::new();
        assert(command_views(v@) =~= Seq::<(Seq<char>, Seq<char>)>::empty());
        (v, q4)
    };
    assert(commands_at(d@, f & 32 != 0, q4 as int) == Some((command_views(command@), q5 as int)));
    Some((FrameInfo { label, stop: f & 16 != 0, command, remove, append, change }, q5))
}

pub(crate) fn read_sprite(d: &[u8], p: usize, version: i32, rate: u8) -> (r: Option<(SpriteInfo, usize)>)
    ensures
        seen(r) == sprite_at(d@, p as int, version, rate),
{
    let (name, description, frame_rate, q) = if version >= 4 {
        let (nm, q1) = match read_string_by_u16(d, p) {
            Some(x) => x,
            None => return None,
        };
        if version >= 6 {
            let (ds, q2) = match read_string_by_u16(d, q1) {
                Some(x) => x,
                None => return None,
            };
            let (fr, q3) = match rd_i32(d, q2) {
                Some(x) => x,
                None => return None,
            };
            (Some(nm), Some(ds), fr, q3)
        } else {
            let (fr, q3) = match rd_i32(d, q1) {
                Some(x) => x,
                None => return None,
            };
            (Some(nm), None, fr, q3)
        }
    } else {
        (None, None, (rate as i32) * 0x1_0000, p)
    };
    assert(sprite_head_at(d@, p as int, version, rate) == Some(((opt_str(name), opt_str(description), frame_rate), q as int)));
    let (n, r0) = match rd_u16(d, q) {
        Some(x) => x,
        None => return None,
    };
    let (w0, r) = if version >= 5 {
        if d.len() - r0 >= 4 {
            (read_le16(d, r0) as i32, r0 + 4)
        } else {
            return None;
        }
    } else {
        (0i32, r0)
    };
    assert(sprite_span_at(d@, q as int, version) == Some(((n, w0), r as int)));
    let (frame, s) = match read_frame_list(d, r, n as usize, version) {
        Some(x) => x,
        None => return None,
    };
    Some((SpriteInfo { name, description, frame_rate, work_area: (w0, n as i32), frame }, s))
}

pub(crate) fn read_image(d: &[u8], p: usize, version: i32) -> (r: Option<(ImageInfo, usize)>)
    ensures
        seen(r) == image_at(d@, p as int, version),
{
    let (name, q) = match read_string_by_u16(d, p) {
        Some(x) => x,
        None => return None,
    };
    let (size, r) = if version >= 4 {
        if d.len() - q >= 4 {
            ((read_le16(d, q) as i32, read_le16(d, q + 2) as i32), q + 4)
        } else {
            return None;
        }
    } else {
        ((-1i32, -1i32), q)
    };
    assert(image_size_at(d@, q as int, version) == Some((size, r as int)));
    let (transform, s) = if version == 1 {
        match rd_u16(d, r) {
            Some((a, t)) => (ImageTransform::Rotation(a), t),
            None => return None,
        }
    } else {
        if d.len() - r >= 16 {
            let a = read_le_i32(d, r);
            let c = read_le_i32(d, r + 4);
            let b = read_le_i32(d, r + 8);
            let e = read_le_i32(d, r + 12);
            (ImageTransform::Matrix(a, b, c, e), r + 16)
        } else {
            return None;
        }
    };
    assert(image_transform_at(d@, r as int, version) == Some((transform, s as int)));
    let (x, t) = match rd_i16(d, s) {
        Some(v) => v,
        None => return None,
    };
    let (y, u) = match rd_i16(d, t) {
        Some(v) => v,
        None => return None,
    };
    Some((ImageInfo { name, size, transform, x, y }, u))
}

/// What follows the version.
pub(crate) fn read_body(d: &[u8], version: i32) -> (r: Option<PamInfo>)
    ensures
        match r {
            Some(v) => pam_body_at(d@, version) == Some(v@),
            None => pam_body_at(d@, version) is None,
        },
{
    if d.len() < 19 {
        return None;
    }
    let rate = d[8];
    let position = (read_le16(d, 9), read_le16(d, 11));
    let size = (read_le16(d, 13), read_le16(d, 15));
    let n_images = read_le16(d, 17);
    let (image, q) = match read_image_list(d, 19, n_images as usize, version) {
        Some(x) => x,
        None => return None,
    };
    let (n_sprites, r) = match rd_u16(d, q) {
        Some(x) => x,
        None => return None,
    };
    let (sprite, s) = match read_sprite_list(d, r, n_sprites as usize, version, rate) {
        Some(x) => x,
        None => return None,
    };
    let main_sprite = if version <= 3 {
        match read_sprite(d, s, version, rate) {
            Some((m, _)) => m,
            None => return None,
        }
    } else {
        match read_bool(d, s) {
            Some((f, t)) => {
                if f {
                    match read_sprite(d, t, version, rate) {
                        Some((m, _)) => m,
                        None => return None,
                    }
                } else {
                    let m = SpriteInfo { name: None, description: None, frame_rate: 0, work_area: (0, 0), frame: Vec::new() };
                    assert(frame_views(m.frame@) =~= Seq::<FrameView>::empty());
                    assert(m@ == empty_sprite());
                    m
                }
            },
            None => return None,
        }
    };
    assert(main_sprite_at(d@, s as int, version, rate) == Some(main_sprite@));
    Some(PamInfo { version, frame_rate: rate as i32, position, size, image, sprite, main_sprite })
}

} // verus!
