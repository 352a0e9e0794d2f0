//! Reading back what the Reanim writer wrote.
use vstd::prelude::*;
use vstd::utf8::{encode_scalar, encode_utf8};
use crate::bytes::{le32, lemma_le32_roundtrip};
use crate::reanim::{
    absent_bits, concat_map, field_end, field_fault, field_value, font_at, frame_pad,
    frame_strings_bytes, frame_strings_end, frame_strings_fault, frame_values_bytes, image_bytes,
    image_id, image_value, int_at, opt_chars, opt_view, str_field, text_at, value_at, value_bits,
    values_read, word, zero_words, ReanimTransform, ReanimVersion, all_strings, all_values,
    strings_fn, values_fn, strings_pos, strings_fault, trim_nul, track_bytes, track_magic,
    track_fault, track_end, track_read, name_bytes, name_fault, track_magic_at, frames_at,
    frames_len, track_strings_at, frame_read, ReanimTrack, Reanim, entries_fn, tracks_fn,
    all_entries, all_tracks, entries_at, entry_size, entry_count, entries_len, entry_count_at,
    entries_fault, track_pos, tracks_at, tracks_fault, reanim_body, body_fault, reanim_read,
    head_bytes, body_magic, head_magic, head_skip, head_magic_at, track_count, str_ok, values_ok,
    frame_ok, name_ok, track_ok, reanim_ok, reanim_file, payload, variant_fault, decoded_as,
    compressed_magic, entry_bytes,
};
use crate::text::parsed_i32;
use crate::zlib::{zlib_deflate, zlib_inflate};
use crate::reanim_write::lemma_concat_map_step;

verus! {

/// `s` stands in `b` at `p`.
pub open spec fn holds_at(b: Seq<u8>, p: int, s: Seq<u8>) -> bool {
    0 <= p && p + s.len() <= b.len() && b.subrange(p, p + s.len()) == s
}

pub proof fn lemma_at_split(b: Seq<u8>, p: int, x: Seq<u8>, y: Seq<u8>)
    requires
        holds_at(b, p, x + y),
    ensures
        holds_at(b, p, x),
        holds_at(b, p + x.len(), y),
{
    let whole = b.subrange(p, p + x.len() + y.len());
    assert(whole == x + y);
    assert forall|i: int| 0 <= i < x.len() implies #[trigger] b.subrange(p, p + x.len())[i] == x[i] by {
        assert(whole[i] == b[p + i]);
        assert((x + y)[i] == x[i]);
    }
    assert(b.subrange(p, p + x.len()) =~= x);
    assert forall|i: int| 0 <= i < y.len() implies #[trigger] b.subrange(p + x.len(), p + x.len() + y.len())[i] == y[i] by {
        assert(whole[x.len() + i] == b[p + x.len() + i]);
        assert((x + y)[x.len() + i] == y[i]);
    }
    assert(b.subrange(p + x.len(), p + x.len() + y.len()) =~= y);
}

pub proof fn lemma_word_value(x: int)
    ensures
        le32(word(x), 0) == x % 0x1_0000_0000,
        i32::MIN <= x <= i32::MAX ==> as_i32_of(x % 0x1_0000_0000) == x,
{
    lemma_le32_roundtrip(x % 0x1_0000_0000);
}

pub open spec fn as_i32_of(u: int) -> int {
    crate::bytes::as_i32(u)
}

pub proof fn lemma_at_word(b: Seq<u8>, p: int, x: int)
    requires
        holds_at(b, p, word(x)),
    ensures
        le32(b, p) == x % 0x1_0000_0000,
        i32::MIN <= x <= i32::MAX ==> int_at(b, p) == x,
{
    let w = word(x);
    assert(b[p] == w[0] && b[p + 1] == w[1] && b[p + 2] == w[2] && b[p + 3] == w[3]) by {
        assert(b.subrange(p, p + 4)[0] == b[p]);
        assert(b.subrange(p, p + 4)[1] == b[p + 1]);
        assert(b.subrange(p, p + 4)[2] == b[p + 2]);
        assert(b.subrange(p, p + 4)[3] == b[p + 3]);
    }
    lemma_word_value(x);
}

/// The concatenation over two runs is the concatenation of each.
pub proof fn lemma_concat_map_append<A>(a: Seq<A>, c: Seq<A>, f: spec_fn(A) -> Seq<u8>)
    ensures
        concat_map(a + c, f) == concat_map(a, f) + concat_map(c, f),
    decreases c.len(),
{
    if c.len() == 0 {
        assert(a + c =~= a);
        assert(concat_map(a, f) + concat_map(c, f) =~= concat_map(a, f));
    } else {
        lemma_concat_map_append(a, c.drop_last(), f);
        assert((a + c).drop_last() =~= a + c.drop_last());
        assert((a + c).last() == c.last());
        assert(concat_map(a + c, f) =~= concat_map(a, f) + concat_map(c, f));
    }
}

/// Item `k` stands after the items before it.
pub proof fn lemma_concat_map_at<A>(b: Seq<u8>, p: int, ts: Seq<A>, f: spec_fn(A) -> Seq<u8>, k: int)
    requires
        holds_at(b, p, concat_map(ts, f)),
        0 <= k < ts.len(),
    ensures
        holds_at(b, p + concat_map(ts.take(k), f).len(), f(ts[k])),
{
    assert(ts =~= ts.take(k + 1) + ts.skip(k + 1));
    lemma_concat_map_append(ts.take(k + 1), ts.skip(k + 1), f);
    lemma_concat_map_step(ts, k, f);
    lemma_at_split(b, p, concat_map(ts.take(k + 1), f), concat_map(ts.skip(k + 1), f));
    lemma_at_split(b, p, concat_map(ts.take(k), f), f(ts[k]));
}

/// Items of one size `w` give `w` bytes each.
pub proof fn lemma_concat_map_uniform<A>(ts: Seq<A>, f: spec_fn(A) -> Seq<u8>, w: nat, k: int)
    requires
        forall|t: A| #[trigger] f(t).len() == w,
        0 <= k <= ts.len(),
    ensures
        concat_map(ts.take(k), f).len() == w * k,
    decreases k,
{
    if k == 0 {
        assert(ts.take(0) =~= Seq::<A>::empty());
    } else {
        lemma_concat_map_uniform(ts, f, w, k - 1);
        lemma_concat_map_step(ts, k - 1, f);
        assert(w * (k - 1) + w == w * k) by (nonlinear_arith);
    }
}

// ─── Strings and values ─────────────────────────────────────────────────────

/// A non-empty string encodes to at least one byte, its last byte being
/// the last byte of its last character.
pub proof fn lemma_encode_last(s: Seq<char>)
    requires
        s.len() > 0,
    ensures
        encode_utf8(s).len() > 0,
        encode_utf8(s).last() == encode_scalar(s.last() as u32).last(),
        encode_scalar(s.last() as u32).len() > 0,
    decreases s.len(),
{
    let e = encode_scalar(s[0] as u32);
    assert(e.len() > 0);
    assert(encode_utf8(s) == e + encode_utf8(s.drop_first()));
    if s.len() == 1 {
        assert(s.drop_first().len() == 0);
        assert(encode_utf8(s.drop_first()) =~= Seq::<u8>::empty());
        assert(encode_utf8(s) =~= e);
        assert(s.last() == s[0]);
    } else {
        lemma_encode_last(s.drop_first());
        assert(s.drop_first().last() == s.last());
    }
}

/// The encoding of an empty string is empty, and only of it.
pub proof fn lemma_encode_empty(s: Seq<char>)
    ensures
        (s.len() == 0) == (encode_utf8(s).len() == 0),
{
    if s.len() > 0 {
        lemma_encode_last(s);
    }
}

/// A length-prefixed string reads back as itself.
pub proof fn lemma_at_str(b: Seq<u8>, p: int, s: Seq<char>)
    requires
        holds_at(b, p, str_field(s)),
        encode_utf8(s).len() <= i32::MAX,
    ensures
        int_at(b, p) == encode_utf8(s).len(),
        field_fault(b, p) is None,
        field_end(b, p) == p + str_field(s).len(),
        field_value(b, p) == (if s.len() == 0 { None } else { Some(s) }),
        b.subrange(p + 4, p + 4 + encode_utf8(s).len()) == encode_utf8(s),
{
    let e = encode_utf8(s);
    lemma_at_split(b, p, word(e.len() as int), e);
    lemma_at_word(b, p, e.len() as int);
    lemma_encode_empty(s);
    vstd::utf8::encode_utf8_valid_utf8(s);
    vstd::utf8::encode_utf8_decode_utf8(s);
}

/// An optional string reads back as itself.
pub proof fn lemma_at_opt_str(b: Seq<u8>, p: int, s: Option<String>)
    requires
        holds_at(b, p, str_field(opt_chars(s))),
        str_ok(s),
    ensures
        field_fault(b, p) is None,
        field_end(b, p) == p + str_field(opt_chars(s)).len(),
        field_value(b, p) == opt_view(s),
{
    lemma_encode_empty(opt_chars(s));
    lemma_at_str(b, p, opt_chars(s));
}

pub proof fn lemma_at_value(b: Seq<u8>, p: int, o: Option<u32>)
    requires
        holds_at(b, p, word(value_bits(o) as int)),
        o != Some(absent_bits()),
    ensures
        value_at(b, p) == o,
{
    lemma_at_word(b, p, value_bits(o) as int);
    assert((value_bits(o) as int) % 0x1_0000_0000 == value_bits(o) as int);
}

/// The eight values of a frame read back.
#[verifier::spinoff_prover]
#[verifier::rlimit(40)]
pub proof fn lemma_frame_values(b: Seq<u8>, p: int, t: ReanimTransform, v: ReanimVersion)
    requires
        holds_at(b, p, frame_values_bytes(t, v)),
        values_ok(t),
    ensures
        values_read(t, b, p),
{
    let w1 = word(value_bits(t.x) as int);
    let w2 = word(value_bits(t.y) as int);
    let w3 = word(value_bits(t.kx) as int);
    let w4 = word(value_bits(t.ky) as int);
    let w5 = word(value_bits(t.sx) as int);
    let w6 = word(value_bits(t.sy) as int);
    let w7 = word(value_bits(t.f) as int);
    let w8 = word(value_bits(t.a) as int);
    lemma_at_split(b, p, w1 + w2 + w3 + w4 + w5 + w6 + w7 + w8, zero_words(frame_pad(v)));
    lemma_at_split(b, p, w1 + w2 + w3 + w4 + w5 + w6 + w7, w8);
    lemma_at_split(b, p, w1 + w2 + w3 + w4 + w5 + w6, w7);
    lemma_at_split(b, p, w1 + w2 + w3 + w4 + w5, w6);
    lemma_at_split(b, p, w1 + w2 + w3 + w4, w5);
    lemma_at_split(b, p, w1 + w2 + w3, w4);
    lemma_at_split(b, p, w1 + w2, w3);
    lemma_at_split(b, p, w1, w2);
    lemma_at_value(b, p, t.x);
    lemma_at_value(b, p + 4, t.y);
    lemma_at_value(b, p + 8, t.kx);
    lemma_at_value(b, p + 12, t.ky);
    lemma_at_value(b, p + 16, t.sx);
    lemma_at_value(b, p + 20, t.sy);
    lemma_at_value(b, p + 24, t.f);
    lemma_at_value(b, p + 28, t.a);
}

/// The strings of a frame read back.
pub proof fn lemma_frame_strings(b: Seq<u8>, p: int, t: ReanimTransform, v: ReanimVersion)
    requires
        holds_at(b, p, frame_strings_bytes(t, v)),
        frame_ok(t, v),
    ensures
        frame_strings_fault(b, v, p) is None,
        frame_strings_end(b, v, p) == p + frame_strings_bytes(t, v).len(),
        opt_view(t.i) == image_value(b, v, p),
        opt_view(t.font) == field_value(b, font_at(b, v, p)),
        opt_view(t.text) == field_value(b, text_at(b, v, p)),
{
    let im = image_bytes(t, v);
    let fo = str_field(opt_chars(t.font));
    let tx = str_field(opt_chars(t.text));
    lemma_at_split(b, p, im + fo, tx);
    lemma_at_split(b, p, im, fo);
    if v == ReanimVersion::PC {
        lemma_at_opt_str(b, p, t.i);
    } else {
        lemma_at_word(b, p, image_id(t.i));
        match t.i {
            Some(s) => {
                assert(parsed_i32(s@) is Some);
            },
            None => {},
        }
    }
    assert(font_at(b, v, p) == p + im.len());
    lemma_at_opt_str(b, p + im.len(), t.font);
    assert(text_at(b, v, p) == p + im.len() + fo.len());
    lemma_at_opt_str(b, p + im.len() + fo.len(), t.text);
}

// ─── Tracks ─────────────────────────────────────────────────────────────────

/// Where the strings of frame `j` start, read back.
pub proof fn lemma_strings_pos(b: Seq<u8>, v: ReanimVersion, s0: int, ts: Seq<ReanimTransform>, j: int)
    requires
        holds_at(b, s0, all_strings(ts, v)),
        forall|k: int| 0 <= k < ts.len() ==> frame_ok(#[trigger] ts[k], v),
        0 <= j <= ts.len(),
    ensures
        strings_pos(b, v, s0, j) == s0 + all_strings(ts.take(j), v).len(),
    decreases j,
{
    if j == 0 {
        assert(ts.take(0) =~= Seq::<ReanimTransform>::empty());
    } else {
        lemma_strings_pos(b, v, s0, ts, j - 1);
        lemma_concat_map_at(b, s0, ts, strings_fn(v), j - 1);
        lemma_concat_map_step(ts, j - 1, strings_fn(v));
        assert(frame_ok(ts[j - 1], v));
        lemma_frame_strings(b, strings_pos(b, v, s0, j - 1), ts[j - 1], v);
    }
}

/// The strings of frames `j` on read back without fault.
pub proof fn lemma_strings_fault(b: Seq<u8>, v: ReanimVersion, s0: int, ts: Seq<ReanimTransform>, j: int)
    requires
        holds_at(b, s0, all_strings(ts, v)),
        forall|k: int| 0 <= k < ts.len() ==> frame_ok(#[trigger] ts[k], v),
        0 <= j <= ts.len(),
    ensures
        strings_fault(b, v, s0, j, ts.len() as int) is None,
    decreases ts.len() - j,
{
    if j < ts.len() {
        lemma_strings_fault(b, v, s0, ts, j + 1);
        lemma_strings_pos(b, v, s0, ts, j);
        lemma_concat_map_at(b, s0, ts, strings_fn(v), j);
        assert(frame_ok(ts[j], v));
        lemma_frame_strings(b, strings_pos(b, v, s0, j), ts[j], v);
    }
}

pub(crate) proof fn lemma_trim_name(s: Seq<char>)
    requires
        name_ok(s),
    ensures
        trim_nul(encode_utf8(s)) == encode_utf8(s),
{
    if s.len() > 0 {
        lemma_encode_last(s);
        crate::popfx::lemma_scalar_nonzero(s.last() as u32);
        let e = encode_scalar(s.last() as u32);
        assert(e[e.len() - 1] != 0);
    } else {
        lemma_encode_empty(s);
    }
}

pub proof fn lemma_values_len(t: ReanimTransform, v: ReanimVersion)
    ensures
        values_fn(v)(t).len() == (if v == ReanimVersion::Phone64 { 56nat } else { 44nat }),
{
}

/// A track reads back as itself.
pub proof fn lemma_track(b: Seq<u8>, v: ReanimVersion, q: int, t: ReanimTrack)
    requires
        holds_at(b, q, track_bytes(t, v)),
        track_ok(t, v),
    ensures
        track_fault(b, v, q, t.transforms@.len() as int) is None,
        track_end(b, v, q, t.transforms@.len() as int) == q + track_bytes(t, v).len(),
        track_read(t, b, v, q, t.transforms@.len() as int),
{
    let c = t.transforms@.len() as int;
    let ts = t.transforms@;
    let nm = str_field(t.name@);
    let mg = word(track_magic(v));
    let vals = all_values(ts, v);
    let strs = all_strings(ts, v);
    lemma_at_split(b, q, nm + mg + vals, strs);
    lemma_at_split(b, q, nm + mg, vals);
    lemma_at_split(b, q, nm, mg);
    let e = encode_utf8(t.name@);
    lemma_at_split(b, q, word(e.len() as int), e);
    lemma_at_word(b, q, e.len() as int);
    assert(name_bytes(b, q) == e);
    lemma_trim_name(t.name@);
    vstd::utf8::encode_utf8_valid_utf8(t.name@);
    vstd::utf8::encode_utf8_decode_utf8(t.name@);
    assert(name_fault(b, q) is None);
    assert(track_magic_at(b, q) == q + nm.len());
    lemma_at_word(b, q + nm.len(), track_magic(v));
    let w: nat = if v == ReanimVersion::Phone64 { 56 } else { 44 };
    assert forall|x: ReanimTransform| #[trigger] values_fn(v)(x).len() == w by {
        lemma_values_len(x, v);
    }
    lemma_concat_map_uniform(ts, values_fn(v), w, c);
    assert(ts.take(c) =~= ts);
    assert(vals.len() == frames_len(v, c));
    let s0 = track_strings_at(b, v, q, c);
    assert(s0 == q + nm.len() + mg.len() + vals.len());
    lemma_strings_fault(b, v, s0, ts, 0);
    lemma_strings_pos(b, v, s0, ts, c);
    assert forall|j: int| 0 <= j < c implies #[trigger] frame_read(ts[j], b, v,
        frames_at(b, q) + frames_len(v, j), strings_pos(b, v, s0, j)) by {
        assert(frame_ok(ts[j], v));
        lemma_concat_map_at(b, q + nm.len() + mg.len(), ts, values_fn(v), j);
        lemma_concat_map_uniform(ts, values_fn(v), w, j);
        lemma_frame_values(b, frames_at(b, q) + frames_len(v, j), ts[j], v);
        lemma_strings_pos(b, v, s0, ts, j);
        lemma_concat_map_at(b, s0, ts, strings_fn(v), j);
        lemma_frame_strings(b, strings_pos(b, v, s0, j), ts[j], v);
    }
}

// ─── Bodies ─────────────────────────────────────────────────────────────────

pub proof fn lemma_entry_len(t: ReanimTrack, v: ReanimVersion)
    ensures
        entries_fn(v)(t).len() == entry_size(v),
{
}

/// The frame count of entry `k` reads back.
pub proof fn lemma_entry(b: Seq<u8>, v: ReanimVersion, ts: Seq<ReanimTrack>, k: int)
    requires
        holds_at(b, entries_at(v), all_entries(ts, v)),
        forall|i: int| 0 <= i < ts.len() ==> track_ok(#[trigger] ts[i], v),
        0 <= k < ts.len(),
    ensures
        entry_count(b, v, k) == ts[k].transforms@.len(),
        entries_at(v) + entries_len(v, k + 1) <= b.len(),
{
    let w = entry_size(v) as nat;
    assert forall|x: ReanimTrack| #[trigger] entries_fn(v)(x).len() == w by {
        lemma_entry_len(x, v);
    }
    lemma_concat_map_uniform(ts, entries_fn(v), w, k);
    lemma_concat_map_uniform(ts, entries_fn(v), w, k + 1);
    lemma_concat_map_at(b, entries_at(v), ts, entries_fn(v), k);
    lemma_concat_map_at(b, entries_at(v), ts, entries_fn(v), k);
    let p = entries_at(v) + entries_len(v, k);
    let t = ts[k];
    assert(track_ok(t, v));
    let c = word(t.transforms@.len() as int);
    match v {
        ReanimVersion::PC => {
            lemma_at_split(b, p, zero_words(2), c);
        },
        ReanimVersion::Phone32 => {
            lemma_at_split(b, p, zero_words(3), c);
        },
        ReanimVersion::Phone64 => {
            lemma_at_split(b, p, zero_words(6) + c, zero_words(1));
            lemma_at_split(b, p, zero_words(6), c);
        },
    }
    lemma_at_word(b, p + entry_count_at(v), t.transforms@.len() as int);
}

pub proof fn lemma_entries_fault(b: Seq<u8>, v: ReanimVersion, ts: Seq<ReanimTrack>, k: int)
    requires
        holds_at(b, entries_at(v), all_entries(ts, v)),
        forall|i: int| 0 <= i < ts.len() ==> track_ok(#[trigger] ts[i], v),
        0 <= k <= ts.len(),
    ensures
        entries_fault(b, v, k, ts.len() as int) is None,
    decreases ts.len() - k,
{
    if k < ts.len() {
        lemma_entry(b, v, ts, k);
        lemma_entries_fault(b, v, ts, k + 1);
    }
}

/// Where track `k` starts, read back.
pub proof fn lemma_track_pos(b: Seq<u8>, v: ReanimVersion, ts: Seq<ReanimTrack>, k: int)
    requires
        holds_at(b, entries_at(v), all_entries(ts, v)),
        holds_at(b, tracks_at(b, v), all_tracks(ts, v)),
        forall|i: int| 0 <= i < ts.len() ==> track_ok(#[trigger] ts[i], v),
        0 <= k <= ts.len(),
    ensures
        track_pos(b, v, k) == tracks_at(b, v) + all_tracks(ts.take(k), v).len(),
    decreases k,
{
    if k == 0 {
        assert(ts.take(0) =~= Seq::<ReanimTrack>::empty());
    } else {
        lemma_track_pos(b, v, ts, k - 1);
        lemma_entry(b, v, ts, k - 1);
        lemma_concat_map_at(b, tracks_at(b, v), ts, tracks_fn(v), k - 1);
        lemma_concat_map_step(ts, k - 1, tracks_fn(v));
        assert(track_ok(ts[k - 1], v));
        lemma_track(b, v, track_pos(b, v, k - 1), ts[k - 1]);
    }
}

pub proof fn lemma_tracks_fault(b: Seq<u8>, v: ReanimVersion, ts: Seq<ReanimTrack>, k: int)
    requires
        holds_at(b, entries_at(v), all_entries(ts, v)),
        holds_at(b, tracks_at(b, v), all_tracks(ts, v)),
        forall|i: int| 0 <= i < ts.len() ==> track_ok(#[trigger] ts[i], v),
        0 <= k <= ts.len(),
    ensures
        tracks_fault(b, v, k, ts.len() as int) is None,
    decreases ts.len() - k,
{
    if k < ts.len() {
        lemma_tracks_fault(b, v, ts, k + 1);
        lemma_track_pos(b, v, ts, k);
        lemma_entry(b, v, ts, k);
        lemma_concat_map_at(b, tracks_at(b, v), ts, tracks_fn(v), k);
        assert(track_ok(ts[k], v));
        lemma_track(b, v, track_pos(b, v, k), ts[k]);
    }
}

/// The header reads back.
#[verifier::spinoff_prover]
pub proof fn lemma_head(b: Seq<u8>, r: Reanim, v: ReanimVersion)
    requires
        holds_at(b, 0, head_bytes(r, v)),
        r.tracks@.len() <= i32::MAX,
    ensures
        b.len() >= entries_at(v),
        head_bytes(r, v).len() == entries_at(v),
        track_count(b, v) == r.tracks@.len(),
        le32(b, head_skip(v) + 4) == r.fps,
        int_at(b, head_magic_at(v)) == head_magic(v),
{
    let n = r.tracks@.len() as int;
    let gap: nat = if v == ReanimVersion::Phone64 { 2 } else { 1 };
    let w0 = word(body_magic(v));
    let wn = word(n);
    let wf = word(r.fps as int);
    let wh = word(head_magic(v));
    lemma_at_split(b, 0, w0 + zero_words(gap) + wn + wf + zero_words(gap), wh);
    lemma_at_split(b, 0, w0 + zero_words(gap) + wn + wf, zero_words(gap));
    lemma_at_split(b, 0, w0 + zero_words(gap) + wn, wf);
    lemma_at_split(b, 0, w0 + zero_words(gap), wn);
    lemma_at_word(b, head_skip(v), n);
    lemma_at_word(b, head_skip(v) + 4, r.fps as int);
    lemma_at_word(b, head_magic_at(v), head_magic(v));
    assert((r.fps as int) % 0x1_0000_0000 == r.fps as int);
}

/// A written body reads back, without fault, as the animation written.
#[verifier::spinoff_prover]
pub proof fn lemma_body(r: Reanim, v: ReanimVersion)
    requires
        reanim_ok(r, v),
    ensures
        body_fault(reanim_body(r, v), v) is None,
        reanim_read(r, reanim_body(r, v), v),
{
    let b = reanim_body(r, v);
    let ts = r.tracks@;
    let n = ts.len() as int;
    let h = head_bytes(r, v);
    let e = all_entries(ts, v);
    let t = all_tracks(ts, v);
    assert(b.subrange(0, b.len() as int) =~= b);
    assert(holds_at(b, 0, h + e + t));
    lemma_at_split(b, 0, h + e, t);
    lemma_at_split(b, 0, h, e);
    lemma_head(b, r, v);
    assert(track_count(b, v) == n);
    let w = entry_size(v) as nat;
    assert forall|x: ReanimTrack| #[trigger] entries_fn(v)(x).len() == w by {
        lemma_entry_len(x, v);
    }
    lemma_concat_map_uniform(ts, entries_fn(v), w, n);
    assert(ts.take(n) =~= ts);
    assert(tracks_at(b, v) == h.len() + e.len());
    lemma_entries_fault(b, v, ts, 0);
    lemma_tracks_fault(b, v, ts, 0);
    assert forall|k: int| 0 <= k < n implies #[trigger] track_read(r.tracks@[k], b, v,
        track_pos(b, v, k), entry_count(b, v, k)) by {
        lemma_track_pos(b, v, ts, k);
        lemma_entry(b, v, ts, k);
        lemma_concat_map_at(b, tracks_at(b, v), ts, tracks_fn(v), k);
        assert(track_ok(ts[k], v));
        lemma_track(b, v, track_pos(b, v, k), ts[k]);
    }
}

/// The body inside a written file is the body written.
#[verifier::spinoff_prover]
pub proof fn lemma_payload(b: Seq<u8>, v: ReanimVersion)
    requires
        zlib_inflate(zlib_deflate(b)) == Some(b),
    ensures
        payload(reanim_file(b, zlib_deflate(b), v), v) == Ok::<Seq<u8>, crate::reanim::ReanimError>(b),
{
    let z = zlib_deflate(b);
    let d = reanim_file(b, z, v);
    let zw: nat = if v == ReanimVersion::Phone64 { 1 } else { 0 };
    let pre = word(compressed_magic()) + zero_words(zw) + word(b.len() as int) + zero_words(zw);
    assert(d == pre + z);
    assert(d.subrange(0, d.len() as int) =~= d);
    lemma_at_split(d, 0, pre, z);
    lemma_at_split(d, 0, word(compressed_magic()) + zero_words(zw) + word(b.len() as int), zero_words(zw));
    lemma_at_split(d, 0, word(compressed_magic()) + zero_words(zw), word(b.len() as int));
    lemma_at_split(d, 0, word(compressed_magic()), zero_words(zw));
    lemma_at_word(d, 0, compressed_magic());
    assert(d.skip(pre.len() as int) =~= z);
}

/// A written file is read back, through its zlib stream, as the animation.
#[verifier::spinoff_prover]
pub proof fn lemma_file(r: Reanim, v: ReanimVersion)
    requires
        reanim_ok(r, v),
        zlib_inflate(zlib_deflate(reanim_body(r, v))) == Some(reanim_body(r, v)),
    ensures
        variant_fault(reanim_file(reanim_body(r, v), zlib_deflate(reanim_body(r, v)), v), v) is None,
        decoded_as(r, reanim_file(reanim_body(r, v), zlib_deflate(reanim_body(r, v)), v), v),
{
    lemma_payload(reanim_body(r, v), v);
    lemma_body(r, v);
}

/// A 32-bit phone body is no PC body: its header magic differs.
pub proof fn lemma_phone32_not_pc(r: Reanim)
    requires
        reanim_ok(r, ReanimVersion::Phone32),
    ensures
        body_fault(reanim_body(r, ReanimVersion::Phone32), ReanimVersion::PC) == Some(Some(
            crate::reanim::ReanimError::InvalidMagic(0x0C, 0))),
{
    let v = ReanimVersion::Phone32;
    let b = reanim_body(r, v);
    assert(b.subrange(0, b.len() as int) =~= b);
    let h = head_bytes(r, v);
    assert(holds_at(b, 0, h + all_entries(r.tracks@, v) + all_tracks(r.tracks@, v)));
    lemma_at_split(b, 0, h + all_entries(r.tracks@, v), all_tracks(r.tracks@, v));
    lemma_at_split(b, 0, h, all_entries(r.tracks@, v));
    lemma_head(b, r, v);
}

/// Concatenations over two runs agree where the pieces agree item by item.
pub proof fn lemma_concat_map_congruent<A>(xs: Seq<A>, ys: Seq<A>, f: spec_fn(A) -> Seq<u8>)
    requires
        xs.len() == ys.len(),
        forall|i: int| 0 <= i < xs.len() ==> f(#[trigger] xs[i]) == f(ys[i]),
    ensures
        concat_map(xs, f) == concat_map(ys, f),
    decreases xs.len(),
{
    if xs.len() > 0 {
        lemma_concat_map_congruent(xs.drop_last(), ys.drop_last(), f);
        assert(f(xs[xs.len() - 1]) == f(ys[ys.len() - 1]));
    }
}

/// A track and its copy without the fields the format does not hold are
/// written alike.
proof fn lemma_track_bytes_same(t: ReanimTrack, t2: ReanimTrack, v: ReanimVersion)
    requires
        crate::reanim::track_same_but_dropped(t2, t),
    ensures
        track_bytes(t2, v) == track_bytes(t, v),
        entry_bytes(t2, v) == entry_bytes(t, v),
{
    let xs = t2.transforms@;
    let ys = t.transforms@;
    assert forall|j: int| 0 <= j < xs.len() implies #[trigger] values_fn(v)(xs[j]) == values_fn(v)(ys[j]) by {
        assert(crate::reanim::frame_same_but_dropped(xs[j], ys[j]));
    }
    assert forall|j: int| 0 <= j < xs.len() implies #[trigger] strings_fn(v)(xs[j]) == strings_fn(v)(ys[j]) by {
        assert(crate::reanim::frame_same_but_dropped(xs[j], ys[j]));
    }
    lemma_concat_map_congruent(xs, ys, values_fn(v));
    lemma_concat_map_congruent(xs, ys, strings_fn(v));
}

/// An animation and its copy without the fields the format does not hold
/// are written alike.
pub proof fn lemma_body_same(r: Reanim, r2: Reanim, v: ReanimVersion)
    requires
        crate::reanim::same_but_dropped(r2, r),
    ensures
        reanim_body(r2, v) == reanim_body(r, v),
{
    let xs = r2.tracks@;
    let ys = r.tracks@;
    assert forall|k: int| 0 <= k < xs.len() implies #[trigger] tracks_fn(v)(xs[k]) == tracks_fn(v)(ys[k])
        && entries_fn(v)(xs[k]) == entries_fn(v)(ys[k]) by {
        lemma_track_bytes_same(ys[k], xs[k], v);
    }
    lemma_concat_map_congruent(xs, ys, tracks_fn(v));
    lemma_concat_map_congruent(xs, ys, entries_fn(v));
}

} // verus!
