//! Compiled Trail definitions (motion trails such as the ice trail).
//!
//! A trail is a compressed file whose body holds two unused words, the
//! maximum point count, the minimum point distance (an `f32`, held here by
//! its bits), the flags, ten unused words, the image name and four track
//! node lists, then a closing zero word.
use vstd::prelude::*;
use crate::bytes::{le32, read_le32, read_le_i32};
use crate::particles::{
    compiled_file, decompressed, nodes_bytes, nodes_fn, nodes_ok, opt_view, popcap_compress, popcap_decompress,
    run_fault, run_read, str_end, str_fault, str_value, string_bytes, text_ok, ParticlesError,
    ParticlesTrackNode, PopCapCodec,
};
use crate::reanim::{concat_map, int_at, word, zero_words};
use crate::zlib::{zlib_deflate, zlib_inflate};
use crate::particles_write::lemma_app;

verus! {

#[derive(Debug, Clone)]
pub struct Trail {
    pub max_points: i32,
    /// Bits of the minimum distance between points (`f32`).
    pub min_point_distance: u32,
    pub trail_flags: i32,
    pub image: Option<String>,
    pub width_over_length: Option<Vec<ParticlesTrackNode>>,
    pub width_over_life: Option<Vec<ParticlesTrackNode>>,
    pub alpha_over_length: Option<Vec<ParticlesTrackNode>>,
    pub alpha_over_life: Option<Vec<ParticlesTrackNode>>,
}

/// The four tracks of a trail, in file order.
pub open spec fn trail_tracks(t: Trail) -> Seq<Option<Vec<ParticlesTrackNode>>> {
    seq![t.width_over_length, t.width_over_life, t.alpha_over_length, t.alpha_over_life]
}

/// Where the image name is in a body.
pub open spec fn trail_image_at() -> int { 60 }

/// The first fault reading a body: `None` for success, `Some(None)` where
/// decoding aborts (a negative node count), `Some(Some(e))` for an error.
pub open spec fn trail_body_fault(b: Seq<u8>) -> Option<Option<ParticlesError>> {
    if b.len() < trail_image_at() {
        Some(Some(ParticlesError::Io))
    } else if str_fault(b, trail_image_at()) is Some {
        Some(str_fault(b, trail_image_at()))
    } else {
        run_fault(b, str_end(b, trail_image_at()), 0, 4)
    }
}

/// `t` is what a body describes.
pub open spec fn trail_read(t: Trail, b: Seq<u8>) -> bool {
    &&& t.max_points == int_at(b, 8)
    &&& t.min_point_distance == le32(b, 12) as u32
    &&& t.trail_flags == int_at(b, 16)
    &&& opt_view(t.image) == str_value(b, trail_image_at())
    &&& run_read(trail_tracks(t), b, str_end(b, trail_image_at()), 4)
}

/// The first fault decoding a compressed trail (as `trail_body_fault`).
pub open spec fn trail_fault(d: Seq<u8>) -> Option<Option<ParticlesError>> {
    match decompressed(d) {
        Err(e) => Some(Some(e)),
        Ok(b) => trail_body_fault(b),
    }
}

/// Decodes a compressed trail, first testing what `decode_trail` requires:
/// `None` exactly where decoding aborts (a negative node count).
pub fn decode_trail_checked(data: &[u8]) -> (res: Option<Result<Trail, ParticlesError>>)
    ensures
        res is None <==> trail_fault(data@) == Some::<Option<ParticlesError>>(None),
        res matches Some(Err(e)) ==> trail_fault(data@) == Some(Some(e)),
        res matches Some(Ok(t)) ==> trail_fault(data@) is None,
        res matches Some(Ok(t)) ==> (decompressed(data@) matches Ok(b) && trail_read(t, b)),
{
    let body = match popcap_decompress(data) {
        Ok(b) => b,
        Err(e) => return Some(Err(e)),
    };
    let b = body.as_slice();
    if b.len() < 60 {
        return Some(Err(ParticlesError::Io));
    }
    let max_points = read_le_i32(b, 8);
    let min_point_distance = read_le32(b, 12);
    let trail_flags = read_le_i32(b, 16);
    let (image, q) = match crate::particles_read::read_str(b, 60) {
        Ok(r) => r,
        Err(e) => return Some(Err(e)),
    };
    let (mut tracks, _q) = match crate::particles_read::read_run(b, q, 4) {
        Ok(r) => r,
        Err(Some(e)) => return Some(Err(e)),
        Err(None) => return None,
    };
    let ghost all = tracks@;
    let alpha_over_life = tracks.pop().unwrap();
    let alpha_over_length = tracks.pop().unwrap();
    let width_over_life = tracks.pop().unwrap();
    let width_over_length = tracks.pop().unwrap();
    let t = Trail {
        max_points,
        min_point_distance,
        trail_flags,
        image,
        width_over_length,
        width_over_life,
        alpha_over_length,
        alpha_over_life,
    };
    assert(trail_tracks(t) =~= all);
    Some(Ok(t))
}

/// Decodes a compressed trail.
pub fn decode_trail(data: &[u8]) -> (res: Result<Trail, ParticlesError>)
    requires
        trail_fault(data@) != Some::<Option<ParticlesError>>(None),
    ensures
        res is Err <==> trail_fault(data@) is Some,
        res matches Err(e) ==> trail_fault(data@) == Some(Some(e)),
        res matches Ok(t) ==> decompressed(data@) matches Ok(b) && trail_read(t, b),
{
    match decode_trail_checked(data) {
        Some(r) => r,
        None => {
            assert(false);
            Err(ParticlesError::Io)
        },
    }
}

/// The body written for a trail.
pub open spec fn trail_body(t: Trail) -> Seq<u8> {
    zero_words(2) + word(t.max_points as int) + word(t.min_point_distance as int) + word(t.trail_flags as int)
        + zero_words(10) + string_bytes(t.image) + concat_map(trail_tracks(t), nodes_fn()) + zero_words(1)
}

/// Writes the body of a trail.
pub fn trail_body_bytes(t: &Trail) -> (out: Vec<u8>)
    ensures
        out@ == trail_body(*t),
{
    let mut out: Vec<u8> = Vec::new();
    crate::reanim_write::push_zeros(&mut out, 2);
    assert(out@ =~= zero_words(2));
    crate::reanim_write::push_int(&mut out, t.max_points);
    crate::reanim_write::push_word(&mut out, t.min_point_distance);
    crate::reanim_write::push_int(&mut out, t.trail_flags);
    crate::reanim_write::push_zeros(&mut out, 10);
    crate::reanim_write::push_opt_str(&mut out, &t.image);
    let ghost base = out@;
    let ghost n1 = nodes_bytes(t.width_over_length);
    let ghost n2 = nodes_bytes(t.width_over_life);
    let ghost n3 = nodes_bytes(t.alpha_over_length);
    let ghost n4 = nodes_bytes(t.alpha_over_life);
    crate::particles_write::push_nodes(&mut out, &t.width_over_length);
    crate::particles_write::push_nodes(&mut out, &t.width_over_life);
    proof { lemma_app(base, n1, n2); }
    crate::particles_write::push_nodes(&mut out, &t.alpha_over_length);
    proof { lemma_app(base, n1 + n2, n3); }
    crate::particles_write::push_nodes(&mut out, &t.alpha_over_life);
    proof {
        lemma_app(base, n1 + n2 + n3, n4);
        lemma_run4(trail_tracks(*t));
    }
    assert(out@ == base + concat_map(trail_tracks(*t), nodes_fn()));
    crate::reanim_write::push_zeros(&mut out, 1);
    out
}

/// The bytes of four node lists in a row.
proof fn lemma_run4(ts: Seq<Option<Vec<ParticlesTrackNode>>>)
    requires
        ts.len() == 4,
    ensures
        concat_map(ts, nodes_fn()) == nodes_bytes(ts[0]) + nodes_bytes(ts[1]) + nodes_bytes(ts[2]) + nodes_bytes(ts[3]),
{
    let t3 = ts.drop_last();
    let t2 = t3.drop_last();
    let t1 = t2.drop_last();
    let t0 = t1.drop_last();
    assert(t0.len() == 0);
    assert(concat_map(t0, nodes_fn()) =~= Seq::<u8>::empty());
    assert(concat_map(t1, nodes_fn()) =~= nodes_bytes(ts[0]));
    assert(concat_map(t2, nodes_fn()) =~= nodes_bytes(ts[0]) + nodes_bytes(ts[1]));
    assert(concat_map(t3, nodes_fn()) =~= nodes_bytes(ts[0]) + nodes_bytes(ts[1]) + nodes_bytes(ts[2]));
}

/// Encodes a trail as a compressed file.
pub fn encode_trail(trail: &Trail) -> (res: Result<Vec<u8>, ParticlesError>)
    ensures
        res matches Ok(out) && out@ == compiled_file(trail_body(*trail), zlib_deflate(trail_body(*trail)))
            && zlib_inflate(zlib_deflate(trail_body(*trail))) == Some(trail_body(*trail)),
{
    let body = trail_body_bytes(trail);
    popcap_compress(body.as_slice())
}

/// A trail that reads back as itself.
pub open spec fn trail_ok(t: Trail) -> bool {
    &&& text_ok(t.image)
    &&& forall|j: int| 0 <= j < 4 ==> nodes_ok(#[trigger] trail_tracks(t)[j])
}

/// Round trip: what `encode_trail` writes for a trail the format can carry
/// is read back by `decode_trail` as that trail.
pub proof fn lemma_trail_roundtrip(t: Trail)
    requires
        trail_ok(t),
        zlib_inflate(zlib_deflate(trail_body(t))) == Some(trail_body(t)),
    ensures
        trail_fault(compiled_file(trail_body(t), zlib_deflate(trail_body(t)))) is None,
        decompressed(compiled_file(trail_body(t), zlib_deflate(trail_body(t)))) == Ok::<Seq<u8>, ParticlesError>(trail_body(t)),
        trail_read(t, trail_body(t)),
{
    crate::particles_proof::lemma_trail(t);
}

impl PopCapCodec for Trail {
    open spec fn decodable(data: Seq<u8>) -> bool {
        trail_fault(data) != Some::<Option<ParticlesError>>(None)
    }

    open spec fn encodable(&self) -> bool {
        true
    }

    fn decode(data: &[u8]) -> (res: Result<Self, ParticlesError>)
        ensures
            res is Err <==> trail_fault(data@) is Some,
            res matches Err(e) ==> trail_fault(data@) == Some(Some(e)),
            res matches Ok(t) ==> decompressed(data@) matches Ok(b) && trail_read(t, b),
    {
        decode_trail(data)
    }

    fn encode(&self) -> (res: Result<Vec<u8>, ParticlesError>)
        ensures
            res matches Ok(out) ==> out@ == compiled_file(trail_body(*self), zlib_deflate(trail_body(*self))),
            res matches Err(e) ==> e == ParticlesError::Io,
    {
        encode_trail(self)
    }
}

} // verus!
