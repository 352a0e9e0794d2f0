//! Writing Reanim bodies and compressed files.
use vstd::prelude::*;
use vstd::utf8::encode_utf8;
use crate::bytes::push_le32;
use crate::reanim::{
    all_entries, all_strings, all_tracks, all_values, concat_map, entries_fn, entry_bytes, frame_pad, frame_strings_bytes, frame_values_bytes, head_bytes,
    image_bytes, image_id, opt_chars, reanim_body, reanim_file, str_field, strings_fn, track_bytes,
    track_magic, tracks_fn, value_bits, values_fn, word, zero_words, Reanim, ReanimTrack, ReanimTransform,
    ReanimVersion,
};
use crate::text::parse_i32;

verus! {

/// Appends `word(v)`.
pub(crate) fn push_word(out: &mut Vec<u8>, v: u32)
    ensures
        final(out)@ == old(out)@ + word(v as int),
{
    push_le32(out, v);
    assert((v as int) % 0x1_0000_0000 == v as int);
}

/// Appends `word(v)` for a signed value.
pub(crate) fn push_int(out: &mut Vec<u8>, v: i32)
    ensures
        final(out)@ == old(out)@ + word(v as int),
{
    let u: u32 = if v < 0 { (v as i64 + 0x1_0000_0000i64) as u32 } else { v as u32 };
    assert(u as int == (v as int) % 0x1_0000_0000);
    push_le32(out, u);
}

/// Appends `k` zero words.
pub(crate) fn push_zeros(out: &mut Vec<u8>, k: usize)
    requires
        k <= 0x1000,
    ensures
        final(out)@ == old(out)@ + zero_words(k as nat),
{
    let mut i: usize = 0;
    while i < 4 * k
        invariant
            k <= 0x1000,
            i <= 4 * k,
            out@ == old(out)@ + Seq::new(i as nat, |j: int| 0u8),
        decreases 4 * k - i,
    {
        out.push(0u8);
        i = i + 1;
        assert(out@ =~= old(out)@ + Seq::new(i as nat, |j: int| 0u8));
    }
    assert(zero_words(k as nat) =~= Seq::new(i as nat, |j: int| 0u8));
}

/// Appends a string after its byte length.
pub(crate) fn push_str(out: &mut Vec<u8>, s: &str)
    ensures
        final(out)@ == old(out)@ + str_field(s@),
{
    let b = s.as_bytes();
    assert(b@ == encode_utf8(s@));
    let n = b.len();
    let len32: u32 = (n as u64 % 0x1_0000_0000) as u32;
    push_word(out, len32);
    let ghost mid = out@;
    out.extend_from_slice(b);
    assert(out@ =~= mid + b@);
    assert(str_field(s@) == word(n as int) + encode_utf8(s@));
    assert((len32 as int) % 0x1_0000_0000 == (n as int) % 0x1_0000_0000);
}

/// Appends an optional string, written empty when absent.
pub(crate) fn push_opt_str(out: &mut Vec<u8>, s: &Option<String>)
    ensures
        final(out)@ == old(out)@ + str_field(opt_chars(*s)),
{
    match s {
        Some(t) => push_str(out, t.as_str()),
        None => {
            proof {
                reveal_strlit("");
            }
            push_str(out, "");
        },
    }
}

/// Appends an optional value, `-10000.0` when absent.
fn push_value(out: &mut Vec<u8>, o: Option<u32>)
    ensures
        final(out)@ == old(out)@ + word(value_bits(o) as int),
{
    match o {
        Some(b) => push_word(out, b),
        None => push_word(out, 0xC61C4000),
    }
}

/// Appends the eight values of a frame and their padding.
fn push_frame_values(out: &mut Vec<u8>, t: &ReanimTransform, v: ReanimVersion)
    ensures
        final(out)@ == old(out)@ + frame_values_bytes(*t, v),
{
    push_value(out, t.x);
    push_value(out, t.y);
    push_value(out, t.kx);
    push_value(out, t.ky);
    push_value(out, t.sx);
    push_value(out, t.sy);
    push_value(out, t.f);
    push_value(out, t.a);
    let pad: usize = if v == ReanimVersion::Phone64 { 6 } else { 3 };
    push_zeros(out, pad);
    proof {
        lemma_concat9(old(out)@, word(value_bits(t.x) as int), word(value_bits(t.y) as int),
            word(value_bits(t.kx) as int), word(value_bits(t.ky) as int), word(value_bits(t.sx) as int),
            word(value_bits(t.sy) as int), word(value_bits(t.f) as int), word(value_bits(t.a) as int),
            zero_words(frame_pad(v)));
    }
}

proof fn lemma_concat9(o: Seq<u8>, a: Seq<u8>, b: Seq<u8>, c: Seq<u8>, d: Seq<u8>, e: Seq<u8>,
    f: Seq<u8>, g: Seq<u8>, h: Seq<u8>, i: Seq<u8>)
    ensures
        o + a + b + c + d + e + f + g + h + i == o + (a + b + c + d + e + f + g + h + i),
{
    assert(o + a + b + c + d + e + f + g + h + i =~= o + (a + b + c + d + e + f + g + h + i));
}

/// The image id written on phones.
pub(crate) fn image_value(i: &Option<String>) -> (n: i32)
    ensures
        n as int == image_id(*i),
{
    match i {
        Some(t) => match parse_i32(t.as_str()) {
            Some(n) => n,
            None => -1,
        },
        None => -1,
    }
}

/// Appends the strings of a frame.
fn push_frame_strings(out: &mut Vec<u8>, t: &ReanimTransform, v: ReanimVersion)
    ensures
        final(out)@ == old(out)@ + frame_strings_bytes(*t, v),
{
    if v == ReanimVersion::PC {
        push_opt_str(out, &t.i);
    } else {
        push_int(out, image_value(&t.i));
    }
    let ghost after_image = out@;
    assert(after_image == old(out)@ + image_bytes(*t, v));
    push_opt_str(out, &t.font);
    push_opt_str(out, &t.text);
    assert(out@ =~= old(out)@ + frame_strings_bytes(*t, v));
}

/// One more item extends the concatenation by its bytes.
pub(crate) proof fn lemma_concat_map_step<A>(ts: Seq<A>, k: int, f: spec_fn(A) -> Seq<u8>)
    requires
        0 <= k < ts.len(),
    ensures
        concat_map(ts.take(k + 1), f) == concat_map(ts.take(k), f) + f(ts[k]),
{
    assert(ts.take(k + 1).drop_last() =~= ts.take(k));
}

/// Appends a track.
fn push_track(out: &mut Vec<u8>, t: &ReanimTrack, v: ReanimVersion)
    ensures
        final(out)@ == old(out)@ + track_bytes(*t, v),
{
    push_str(out, t.name.as_str());
    let magic: u32 = if v == ReanimVersion::Phone64 { 0x38 } else { 0x2C };
    push_word(out, magic);
    let ghost head = out@;
    assert(head == old(out)@ + str_field(t.name@) + word(track_magic(v)));
    let n = t.transforms.len();
    let mut k: usize = 0;
    while k < n
        invariant
            k <= n,
            n == t.transforms@.len(),
            out@ == head + all_values(t.transforms@.take(k as int), v),
        decreases n - k,
    {
        push_frame_values(out, &t.transforms[k], v);
        proof {
            lemma_concat_map_step(t.transforms@, k as int, values_fn(v));
            assert(out@ =~= head + all_values(t.transforms@.take(k + 1), v));
        }
        k = k + 1;
    }
    let ghost mid = out@;
    assert(t.transforms@.take(n as int) =~= t.transforms@);
    let mut k: usize = 0;
    while k < n
        invariant
            k <= n,
            n == t.transforms@.len(),
            out@ == mid + all_strings(t.transforms@.take(k as int), v),
        decreases n - k,
    {
        push_frame_strings(out, &t.transforms[k], v);
        proof {
            lemma_concat_map_step(t.transforms@, k as int, strings_fn(v));
            assert(out@ =~= mid + all_strings(t.transforms@.take(k + 1), v));
        }
        k = k + 1;
    }
    assert(t.transforms@.take(n as int) =~= t.transforms@);
    proof {
        lemma_concat4(old(out)@, str_field(t.name@), word(track_magic(v)), all_values(t.transforms@, v),
            all_strings(t.transforms@, v));
    }
}

proof fn lemma_concat4(o: Seq<u8>, a: Seq<u8>, b: Seq<u8>, c: Seq<u8>, d: Seq<u8>)
    ensures
        o + a + b + c + d == o + (a + b + c + d),
{
    assert(o + a + b + c + d =~= o + (a + b + c + d));
}

/// Appends the entry of a track.
fn push_entry(out: &mut Vec<u8>, t: &ReanimTrack, v: ReanimVersion)
    ensures
        final(out)@ == old(out)@ + entry_bytes(*t, v),
{
    let c: u32 = (t.transforms.len() as u64 % 0x1_0000_0000) as u32;
    assert((c as int) % 0x1_0000_0000 == (t.transforms@.len() as int) % 0x1_0000_0000);
    match v {
        ReanimVersion::PC => {
            push_zeros(out, 2);
            push_word(out, c);
        },
        ReanimVersion::Phone32 => {
            push_zeros(out, 3);
            push_word(out, c);
        },
        ReanimVersion::Phone64 => {
            push_zeros(out, 6);
            push_word(out, c);
            push_zeros(out, 1);
        },
    }
    assert(out@ =~= old(out)@ + entry_bytes(*t, v));
}

/// Writes the body of `r`: header, track entries and tracks.
pub(crate) fn write_body(r: &Reanim, v: ReanimVersion) -> (out: Vec<u8>)
    requires
        r.tracks@.len() <= i32::MAX,
    ensures
        out@ == reanim_body(*r, v),
{
    let mut out: Vec<u8> = Vec::new();
    let gap: usize = if v == ReanimVersion::Phone64 { 2 } else { 1 };
    let magic: i32 = match v {
        ReanimVersion::PC => -1282165568,
        ReanimVersion::Phone32 => -14326347,
        ReanimVersion::Phone64 => -1069095568,
    };
    let n = r.tracks.len();
    push_int(&mut out, magic);
    push_zeros(&mut out, gap);
    push_word(&mut out, n as u32);
    push_word(&mut out, r.fps);
    push_zeros(&mut out, gap);
    let head: u32 = match v {
        ReanimVersion::PC => 0x0C,
        ReanimVersion::Phone32 => 0x10,
        ReanimVersion::Phone64 => 0x20,
    };
    push_word(&mut out, head);
    assert(out@ =~= head_bytes(*r, v));
    let ghost h = out@;
    let mut k: usize = 0;
    while k < n
        invariant
            k <= n,
            n == r.tracks@.len(),
            out@ == h + all_entries(r.tracks@.take(k as int), v),
        decreases n - k,
    {
        push_entry(&mut out, &r.tracks[k], v);
        proof {
            lemma_concat_map_step(r.tracks@, k as int, entries_fn(v));
            assert(out@ =~= h + all_entries(r.tracks@.take(k + 1), v));
        }
        k = k + 1;
    }
    let ghost mid = out@;
    assert(r.tracks@.take(n as int) =~= r.tracks@);
    let mut k: usize = 0;
    while k < n
        invariant
            k <= n,
            n == r.tracks@.len(),
            out@ == mid + all_tracks(r.tracks@.take(k as int), v),
        decreases n - k,
    {
        push_track(&mut out, &r.tracks[k], v);
        proof {
            lemma_concat_map_step(r.tracks@, k as int, tracks_fn(v));
            assert(out@ =~= mid + all_tracks(r.tracks@.take(k + 1), v));
        }
        k = k + 1;
    }
    assert(r.tracks@.take(n as int) =~= r.tracks@);
    assert(out@ =~= reanim_body(*r, v));
    out
}

/// The compressed-file framing around a zlib stream of `body`.
pub(crate) fn frame_stream(body: &[u8], stream: &[u8], v: ReanimVersion) -> (out: Vec<u8>)
    ensures
        out@ == reanim_file(body@, stream@, v),
{
    let mut out: Vec<u8> = Vec::new();
    let z: usize = if v == ReanimVersion::Phone64 { 1 } else { 0 };
    push_int(&mut out, -559022380);
    push_zeros(&mut out, z);
    let len32: u32 = (body.len() as u64 % 0x1_0000_0000) as u32;
    push_word(&mut out, len32);
    assert((len32 as int) % 0x1_0000_0000 == (body@.len() as int) % 0x1_0000_0000);
    push_zeros(&mut out, z);
    let ghost mid = out@;
    out.extend_from_slice(stream);
    assert(out@ =~= mid + stream@);
    assert(out@ =~= reanim_file(body@, stream@, v));
    out
}

} // verus!
