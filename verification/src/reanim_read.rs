//! Reading compiled Reanim files.
use vstd::prelude::*;
use vstd::utf8::decode_utf8;
use crate::bytes::{read_le32, read_le_i32};
use crate::reanim::{
    Reanim, ReanimError, ReanimTrack, ReanimTransform, ReanimVersion, body_fault, decoded_as, entries_at,
    entries_fault, entries_len, entry_count, entry_count_at, field_end, field_fault, field_value, font_at,
    frame_read, frame_strings_end, frame_strings_fault, frames_at, frames_len, head_magic, head_magic_at,
    image_end, image_fault, image_value, int_at, name_bytes, name_fault, opt_view, payload, reanim_read,
    strings_fault, strings_pos, text_at, track_count, track_end, track_fault, track_magic_at, track_pos,
    track_read, track_strings_at, tracks_fault, trim_nul, value_at, values_read, variant_fault,
};
use crate::text::{push_signed_decimal, signed_decimal, string_from_utf8};
use crate::zlib::{inflate};

verus! {

/// The length-prefixed string at `p`.
fn read_string_by_int32(b: &[u8], p: usize) -> (res: Result<(Option<String>, usize), ReanimError>)
    ensures
        res is Err <==> field_fault(b@, p as int) is Some,
        res matches Err(e) ==> field_fault(b@, p as int) == Some(e),
        res matches Ok((o, e)) ==> opt_view(o) == field_value(b@, p as int) && e == field_end(b@, p as int)
            && e <= b@.len(),
{
    let len = b.len();
    if p > len || len - p < 4 {
        return Err(ReanimError::Io);
    }
    let l = read_le_i32(b, p);
    if l <= 0 {
        return Ok((None, p + 4));
    }
    if len - (p + 4) < l as usize {
        return Err(ReanimError::Io);
    }
    let end = p + 4 + l as usize;
    let bytes = vstd::slice::slice_to_vec(vstd::slice::slice_subrange(b, p + 4, end));
    match string_from_utf8(bytes) {
        Some(s) => Ok((Some(s), end)),
        None => Err(ReanimError::StringDecodeError),
    }
}

/// A frame's image field at `p`.
fn read_image(b: &[u8], v: ReanimVersion, p: usize) -> (res: Result<(Option<String>, usize), ReanimError>)
    ensures
        res is Err <==> image_fault(b@, v, p as int) is Some,
        res matches Err(e) ==> image_fault(b@, v, p as int) == Some(e),
        res matches Ok((o, e)) ==> opt_view(o) == image_value(b@, v, p as int) && e == image_end(b@, v, p as int)
            && e <= b@.len(),
{
    if v == ReanimVersion::PC {
        return read_string_by_int32(b, p);
    }
    let len = b.len();
    if p > len || len - p < 4 {
        return Err(ReanimError::Io);
    }
    let x = read_le_i32(b, p);
    if x == -1 {
        Ok((None, p + 4))
    } else {
        let mut s = String::new();
        push_signed_decimal(&mut s, x as i64);
        proof {
            assert(s@ =~= signed_decimal(x as int));
        }
        Ok((Some(s), p + 4))
    }
}

/// The image, font and text strings of a frame at `p`.
fn read_frame_strings(b: &[u8], v: ReanimVersion, p: usize)
    -> (res: Result<(Option<String>, Option<String>, Option<String>, usize), ReanimError>)
    ensures
        res is Err <==> frame_strings_fault(b@, v, p as int) is Some,
        res matches Err(e) ==> frame_strings_fault(b@, v, p as int) == Some(e),
        res matches Ok((i, font, text, e)) ==> {
            &&& opt_view(i) == image_value(b@, v, p as int)
            &&& opt_view(font) == field_value(b@, font_at(b@, v, p as int))
            &&& opt_view(text) == field_value(b@, text_at(b@, v, p as int))
            &&& e == frame_strings_end(b@, v, p as int)
            &&& e <= b@.len()
        },
{
    let (i, p1) = match read_image(b, v, p) {
        Ok(x) => x,
        Err(e) => {
            return Err(e);
        },
    };
    let (font, p2) = match read_string_by_int32(b, p1) {
        Ok(x) => x,
        Err(e) => {
            return Err(e);
        },
    };
    let (text, p3) = match read_string_by_int32(b, p2) {
        Ok(x) => x,
        Err(e) => {
            return Err(e);
        },
    };
    Ok((i, font, text, p3))
}

/// The name of the track at `q`, without trailing NULs.
/// `Err(None)` for a negative length, where decoding aborts.
fn read_exact_string(b: &[u8], q: usize) -> (res: Result<(String, usize), Option<ReanimError>>)
    ensures
        res is Err <==> name_fault(b@, q as int) is Some,
        res matches Err(e) ==> name_fault(b@, q as int) == Some(e),
        res matches Ok((s, e)) ==> s@ == decode_utf8(trim_nul(name_bytes(b@, q as int)))
            && e == track_magic_at(b@, q as int) && e <= b@.len(),
{
    let len = b.len();
    if q > len || len - q < 4 {
        return Err(Some(ReanimError::Io));
    }
    let l = read_le_i32(b, q);
    if l < 0 {
        return Err(None);
    }
    if len - (q + 4) < l as usize {
        return Err(Some(ReanimError::Io));
    }
    let start = q + 4;
    let bytes = vstd::slice::slice_subrange(b, start, start + l as usize);
    let mut end: usize = bytes.len();
    assert(bytes@.subrange(0, end as int) =~= bytes@);
    while end > 0 && bytes[end - 1] == 0
        invariant
            end <= bytes@.len(),
            trim_nul(bytes@) == trim_nul(bytes@.subrange(0, end as int)),
        decreases end,
    {
        proof {
            assert(bytes@.subrange(0, end as int).drop_last() =~= bytes@.subrange(0, end - 1));
        }
        end = end - 1;
    }
    proof {
        assert(bytes@.subrange(0, end as int) == trim_nul(bytes@.subrange(0, end as int)));
        assert(bytes@ == name_bytes(b@, q as int));
    }
    let trimmed = vstd::slice::slice_to_vec(vstd::slice::slice_subrange(bytes, 0, end));
    match string_from_utf8(trimmed) {
        Some(s) => Ok((s, start + l as usize)),
        None => Err(Some(ReanimError::StringDecodeError)),
    }
}

/// A transform value at `p`.
fn read_value(b: &[u8], p: usize) -> (o: Option<u32>)
    requires
        p + 4 <= b@.len(),
    ensures
        o == value_at(b@, p as int),
{
    let bits = read_le32(b, p);
    if bits == 0xC61C4000 { None } else { Some(bits) }
}

/// The eight values of a frame at `p`, with no strings yet.
fn read_frame_values(b: &[u8], p: usize) -> (t: ReanimTransform)
    requires
        p + 32 <= b@.len(),
    ensures
        values_read(t, b@, p as int),
{
    let _len = b.len();
    let x = read_value(b, p);
    let y = read_value(b, p + 4);
    let kx = read_value(b, p + 8);
    let ky = read_value(b, p + 12);
    let sx = read_value(b, p + 16);
    let sy = read_value(b, p + 20);
    let f = read_value(b, p + 24);
    let a = read_value(b, p + 28);
    ReanimTransform { x, y, kx, ky, sx, sy, f, a, i: None, resource: None, i2: None, resource2: None, font: None, text: None }
}

proof fn lemma_frames_len(v: ReanimVersion, fs: int, c: int)
    requires
        fs == (if v == ReanimVersion::Phone64 { 56int } else { 44int }),
    ensures
        frames_len(v, c) == fs * c,
{
    if v == ReanimVersion::Phone64 {
        assert(fs * c == 56 * c) by (nonlinear_arith) requires fs == 56;
    } else {
        assert(fs * c == 44 * c) by (nonlinear_arith) requires fs == 44;
    }
}

proof fn lemma_entries_len(v: ReanimVersion, es: int, k: int)
    requires
        es == entries_len(v, 1),
    ensures
        entries_len(v, k) == es * k,
{
    if v == ReanimVersion::PC {
        assert(es * k == 12 * k) by (nonlinear_arith) requires es == 12;
    } else if v == ReanimVersion::Phone32 {
        assert(es * k == 16 * k) by (nonlinear_arith) requires es == 16;
    } else {
        assert(es * k == 32 * k) by (nonlinear_arith) requires es == 32;
    }
}

/// Size of one frame's values.
fn frame_size(v: ReanimVersion) -> (n: usize)
    ensures
        n == frames_len(v, 1),
        n == (if v == ReanimVersion::Phone64 { 56int } else { 44int }),
{
    if v == ReanimVersion::Phone64 { 56 } else { 44 }
}

/// The track at `q` with `c` frames, and where it ends.
fn read_track(b: &[u8], v: ReanimVersion, q: usize, c: usize) -> (res: Result<(ReanimTrack, usize), ReanimError>)
    requires
        c <= 0x7FFF_FFFF,
        track_fault(b@, v, q as int, c as int) != Some::<Option<ReanimError>>(None),
    ensures
        res is Err <==> track_fault(b@, v, q as int, c as int) is Some,
        res matches Err(e) ==> track_fault(b@, v, q as int, c as int) == Some(Some(e)),
        res matches Ok((t, e)) ==> track_read(t, b@, v, q as int, c as int)
            && e == track_end(b@, v, q as int, c as int) && e <= b@.len(),
{
    let len = b.len();
    let (name, m) = match read_exact_string(b, q) {
        Ok(x) => x,
        Err(Some(e)) => {
            return Err(e);
        },
        Err(None) => {
            assert(false);
            return Err(ReanimError::Io);
        },
    };
    if len - m < 4 {
        return Err(ReanimError::Io);
    }
    let tm: i32 = if v == ReanimVersion::Phone64 { 0x38 } else { 0x2C };
    if read_le_i32(b, m) != tm {
        return Err(ReanimError::InvalidTrack);
    }
    let fs = frame_size(v);
    let start = m + 4;
    proof {
        assert((c as u64) * (fs as u64) <= 56 * 0x7FFF_FFFF) by (nonlinear_arith)
            requires c <= 0x7FFF_FFFF, fs <= 56;
    }
    if ((len - start) as u64) < (c as u64) * (fs as u64) {
        return Err(ReanimError::Io);
    }
    proof {
        lemma_frames_len(v, fs as int, c as int);
    }
    let mut values: Vec<ReanimTransform> = Vec::new();
    let mut j: usize = 0;
    while j < c
        invariant
            j <= c,
            len == b@.len(),
            start == frames_at(b@, q as int),
            fs == frames_len(v, 1),
            fs == (if v == ReanimVersion::Phone64 { 56int } else { 44int }),
            start + fs * c <= len,
            values@.len() == j,
            forall|k: int| 0 <= k < j ==> #[trigger] values_read(values@[k], b@, start + frames_len(v, k)),
        decreases c - j,
    {
        proof {
            assert(fs * j + fs <= fs * c) by (nonlinear_arith) requires j < c;
            lemma_frames_len(v, fs as int, j as int);
        }
        let t = read_frame_values(b, start + fs * j);
        values.push(t);
        j = j + 1;
    }
    let s0 = start + fs * c;
    let mut transforms: Vec<ReanimTransform> = Vec::new();
    let mut pos = s0;
    let mut k: usize = 0;
    while k < c
        invariant
            k <= c,
            c == values@.len(),
            len == b@.len(),
            start == frames_at(b@, q as int),
            s0 == track_strings_at(b@, v, q as int, c as int),
            pos == strings_pos(b@, v, s0 as int, k as int),
            pos <= len,
            strings_fault(b@, v, s0 as int, 0, c as int) == strings_fault(b@, v, s0 as int, k as int, c as int),
            track_fault(b@, v, q as int, c as int) == (match strings_fault(b@, v, s0 as int, 0, c as int) {
                Some(e) => Some(Some(e)),
                None => None,
            }),
            forall|i: int| 0 <= i < c ==> #[trigger] values_read(values@[i], b@, start + frames_len(v, i)),
            transforms@.len() == k,
            forall|i: int| 0 <= i < k ==> #[trigger] frame_read(transforms@[i], b@, v,
                start + frames_len(v, i), strings_pos(b@, v, s0 as int, i)),
        decreases c - k,
    {
        let (i, font, text, next) = match read_frame_strings(b, v, pos) {
            Ok(x) => x,
            Err(e) => {
                return Err(e);
            },
        };
        let t = &values[k];
        assert(values_read(values@[k as int], b@, start + frames_len(v, k as int)));
        transforms.push(ReanimTransform {
            x: t.x,
            y: t.y,
            kx: t.kx,
            ky: t.ky,
            sx: t.sx,
            sy: t.sy,
            f: t.f,
            a: t.a,
            i,
            resource: None,
            i2: None,
            resource2: None,
            font,
            text,
        });
        pos = next;
        k = k + 1;
    }
    let track = ReanimTrack { name, transforms };
    Ok((track, pos))
}

/// Decodes a body as variant `v`.
fn parse_body_checked(b: &[u8], v: ReanimVersion) -> (res: Result<Reanim, Option<ReanimError>>)
    ensures
        res is Err <==> body_fault(b@, v) is Some,
        res matches Err(e) ==> body_fault(b@, v) == Some(e),
        res matches Ok(r) ==> reanim_read(r, b@, v),
{
    let len = b.len();
    let ea: usize = if v == ReanimVersion::Phone64 { 32 } else { 24 };
    if len < ea {
        return Err(Some(ReanimError::Io));
    }
    let hs: usize = if v == ReanimVersion::Phone64 { 12 } else { 8 };
    let magic: u32 = match v {
        ReanimVersion::PC => 0x0C,
        ReanimVersion::Phone32 => 0x10,
        ReanimVersion::Phone64 => 0x20,
    };
    if read_le_i32(b, ea - 4) as i64 != magic as i64 {
        return Err(Some(ReanimError::InvalidMagic(magic, 0)));
    }
    let n = read_le_i32(b, hs);
    let fps = read_le32(b, hs + 4);
    if n < 0 {
        match read_exact_string(b, ea) {
            Ok(_) => {
                return Err(None);
            },
            Err(e) => {
                return Err(e);
            },
        }
    }
    let es: usize = match v {
        ReanimVersion::PC => 12,
        ReanimVersion::Phone32 => 16,
        ReanimVersion::Phone64 => 32,
    };
    let ca: usize = match v {
        ReanimVersion::PC => 8,
        ReanimVersion::Phone32 => 12,
        ReanimVersion::Phone64 => 24,
    };
    let nn = n as usize;
    let mut counts: Vec<usize> = Vec::new();
    let mut k: usize = 0;
    while k < nn
        invariant
            k <= nn,
            nn == track_count(b@, v),
            len == b@.len(),
            ea == entries_at(v),
            es == entries_len(v, 1),
            ca == entry_count_at(v),
            len >= ea,
            int_at(b@, head_magic_at(v)) == head_magic(v),
            body_fault(b@, v) == (if entries_fault(b@, v, 0, nn as int) is Some {
                entries_fault(b@, v, 0, nn as int)
            } else {
                tracks_fault(b@, v, 0, nn as int)
            }),
            entries_fault(b@, v, 0, nn as int) == entries_fault(b@, v, k as int, nn as int),
            ea + es * k <= len,
            counts@.len() == k,
            forall|i: int| 0 <= i < k ==> #[trigger] counts@[i] == entry_count(b@, v, i),
            forall|i: int| 0 <= i < k ==> #[trigger] counts@[i] <= 0x7FFF_FFFF,
        decreases nn - k,
    {
        proof {
            lemma_entries_len(v, es as int, k + 1);
            lemma_entries_len(v, es as int, k as int);
            assert(es * (k + 1) == es * k + es) by (nonlinear_arith);
        }
        if len - (ea + es * k) < es {
            return Err(Some(ReanimError::Io));
        }
        let c = read_le_i32(b, ea + es * k + ca);
        if c < 0 {
            return Err(None);
        }
        counts.push(c as usize);
        k = k + 1;
    }
    let mut tracks: Vec<ReanimTrack> = Vec::new();
    let mut pos: usize = ea + es * nn;
    proof {
        lemma_entries_len(v, es as int, nn as int);
    }
    let mut k: usize = 0;
    while k < nn
        invariant
            k <= nn,
            nn == track_count(b@, v),
            len == b@.len(),
            counts@.len() == nn,
            forall|i: int| 0 <= i < nn ==> #[trigger] counts@[i] == entry_count(b@, v, i),
            forall|i: int| 0 <= i < nn ==> #[trigger] counts@[i] <= 0x7FFF_FFFF,
            entries_fault(b@, v, 0, nn as int) is None,
            body_fault(b@, v) == tracks_fault(b@, v, 0, nn as int),
            tracks_fault(b@, v, 0, nn as int) == tracks_fault(b@, v, k as int, nn as int),
            pos == track_pos(b@, v, k as int),
            pos <= len,
            tracks@.len() == k,
            forall|i: int| 0 <= i < k ==> #[trigger] track_read(tracks@[i], b@, v, track_pos(b@, v, i), entry_count(b@, v, i)),
        decreases nn - k,
    {
        if let Err(None) = read_exact_string(b, pos) {
            return Err(None);
        }
        let (t, next) = match read_track(b, v, pos, counts[k]) {
            Ok(x) => x,
            Err(e) => {
                return Err(Some(e));
            },
        };
        tracks.push(t);
        pos = next;
        k = k + 1;
    }
    Ok(Reanim { do_scale: None, fps, tracks })
}

/// The body of a file as variant `v`.
fn parse_body(b: &[u8], v: ReanimVersion) -> (res: Result<Reanim, ReanimError>)
    requires
        body_fault(b@, v) != Some::<Option<ReanimError>>(None),
    ensures
        res is Err <==> body_fault(b@, v) is Some,
        res matches Err(e) ==> body_fault(b@, v) == Some(Some(e)),
        res matches Ok(r) ==> reanim_read(r, b@, v),
{
    match parse_body_checked(b, v) {
        Ok(r) => Ok(r),
        Err(Some(e)) => Err(e),
        Err(None) => {
            assert(false);
            Err(ReanimError::Io)
        },
    }
}

fn read_payload(d: &[u8], v: ReanimVersion) -> (res: Result<Vec<u8>, ReanimError>)
    ensures
        res is Err <==> payload(d@, v) is Err,
        res matches Err(e) ==> payload(d@, v) == Err::<Seq<u8>, ReanimError>(e),
        res matches Ok(b) ==> payload(d@, v) == Ok::<Seq<u8>, ReanimError>(b@),
{
    let len = d.len();
    if len < 4 {
        return Err(ReanimError::Io);
    }
    if read_le_i32(d, 0) != -559022380 {
        return Ok(vstd::slice::slice_to_vec(d));
    }
    let start: usize = if v == ReanimVersion::Phone64 { 16 } else { 8 };
    if len < start {
        return Err(ReanimError::Io);
    }
    let stream = vstd::slice::slice_subrange(d, start, len);
    assert(stream@ == d@.skip(start as int));
    match inflate(stream) {
        Some(b) => Ok(b),
        None => Err(ReanimError::Io),
    }
}

/// Decodes a file as variant `v`.
pub(crate) fn decode_variant(data: &[u8], v: ReanimVersion) -> (res: Result<Reanim, ReanimError>)
    requires
        variant_fault(data@, v) != Some::<Option<ReanimError>>(None),
    ensures
        res is Err <==> variant_fault(data@, v) is Some,
        res matches Err(e) ==> variant_fault(data@, v) == Some(Some(e)),
        res matches Ok(r) ==> decoded_as(r, data@, v),
{
    match read_payload(data, v) {
        Err(e) => Err(e),
        Ok(b) => parse_body(b.as_slice(), v),
    }
}

/// Decodes a file as variant `v`; `Err(None)` where decoding aborts.
pub(crate) fn decode_variant_checked(data: &[u8], v: ReanimVersion) -> (res: Result<Reanim, Option<ReanimError>>)
    ensures
        res is Err <==> variant_fault(data@, v) is Some,
        res matches Err(e) ==> variant_fault(data@, v) == Some(e),
        res matches Ok(r) ==> decoded_as(r, data@, v),
{
    match read_payload(data, v) {
        Err(e) => Err(Some(e)),
        Ok(b) => parse_body_checked(b.as_slice(), v),
    }
}

} // verus!
