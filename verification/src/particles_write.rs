//! Writing Particles bodies and compressed files.
use vstd::prelude::*;
use crate::particles::{
    bits_or_zero, compiled_file, emitter_body_bytes, emitter_body_fn, emitter_head_bytes,
    emitter_head_fn, field_head_bytes, field_head_fn, field_len, field_nodes_bytes, field_nodes_fn,
    field_size, fields_bytes, image_bytes, node_bytes, node_fn, nodes_bytes, nodes_fn, or,
    particle_tracks, particles_body, particles_head_bytes, string_bytes, system_tracks, Particles,
    ParticlesEmitter, ParticlesField, ParticlesTrackNode, ParticlesVersion,
};
use crate::reanim::{concat_map, word, zero_words};
use crate::reanim_write::{
    image_value, lemma_concat_map_step, push_int, push_opt_str, push_word, push_zeros,
};

verus! {

/// `(o + a) + b` is `o + (a + b)`.
pub(crate) proof fn lemma_app(o: Seq<u8>, a: Seq<u8>, b: Seq<u8>)
    ensures
        o + a + b == o + (a + b),
{
    assert(o + a + b =~= o + (a + b));
}

/// Appends the low 32 bits of a length.
fn push_len(out: &mut Vec<u8>, n: usize)
    ensures
        final(out)@ == old(out)@ + word(n as int),
{
    let w: u32 = (n as u64 % 0x1_0000_0000) as u32;
    push_word(out, w);
    assert((w as int) % 0x1_0000_0000 == (n as int) % 0x1_0000_0000);
}

fn push_node(out: &mut Vec<u8>, n: &ParticlesTrackNode)
    ensures
        final(out)@ == old(out)@ + node_bytes(*n),
{
    let o = Ghost(out@);
    push_word(out, n.time);
    let lo: u32 = match n.low_value { Some(x) => x, None => 0 };
    push_word(out, lo);
    proof { lemma_app(o@, word(n.time as int), word(bits_or_zero(n.low_value))); }
    let hi: u32 = match n.high_value { Some(x) => x, None => 0 };
    push_word(out, hi);
    proof { lemma_app(o@, word(n.time as int) + word(bits_or_zero(n.low_value)), word(bits_or_zero(n.high_value))); }
    let c: i32 = match n.curve_type { Some(x) => x, None => 1 };
    push_int(out, c);
    proof {
        lemma_app(o@, word(n.time as int) + word(bits_or_zero(n.low_value)) + word(bits_or_zero(n.high_value)),
            word(or(n.curve_type, 1)));
    }
    let d: i32 = match n.distribution { Some(x) => x, None => 1 };
    push_int(out, d);
    proof {
        lemma_app(o@, word(n.time as int) + word(bits_or_zero(n.low_value)) + word(bits_or_zero(n.high_value))
            + word(or(n.curve_type, 1)), word(or(n.distribution, 1)));
    }
}

/// Appends a node list: its count, then its nodes; a count of zero when absent.
pub(crate) fn push_nodes(out: &mut Vec<u8>, o: &Option<Vec<ParticlesTrackNode>>)
    ensures
        final(out)@ == old(out)@ + nodes_bytes(*o),
{
    match o {
        None => {
            push_word(out, 0);
        },
        Some(ns) => {
            push_len(out, ns.len());
            let ghost h = out@;
            let mut k: usize = 0;
            while k < ns.len()
                invariant
                    k <= ns@.len(),
                    out@ == h + concat_map(ns@.take(k as int), node_fn()),
                decreases ns@.len() - k,
            {
                push_node(out, &ns[k]);
                proof {
                    lemma_concat_map_step(ns@, k as int, node_fn());
                    lemma_app(h, concat_map(ns@.take(k as int), node_fn()), node_bytes(ns@[k as int]));
                }
                k = k + 1;
            }
            proof {
                assert(ns@.take(ns@.len() as int) =~= ns@);
                lemma_app(old(out)@, word(ns@.len() as int), concat_map(ns@, node_fn()));
            }
        },
    }
}

/// System track `j` of an emitter.
fn system_track(e: &ParticlesEmitter, j: usize) -> (r: &Option<Vec<ParticlesTrackNode>>)
    requires
        j < 21,
    ensures
        *r == system_tracks(*e)[j as int],
{
    match j {
        0 => &e.cross_fade_duration,
        1 => &e.spawn_rate,
        2 => &e.spawn_min_active,
        3 => &e.spawn_max_active,
        4 => &e.spawn_max_launched,
        5 => &e.emitter_radius,
        6 => &e.emitter_offset_x,
        7 => &e.emitter_offset_y,
        8 => &e.emitter_box_x,
        9 => &e.emitter_box_y,
        10 => &e.emitter_path,
        11 => &e.emitter_skew_x,
        12 => &e.emitter_skew_y,
        13 => &e.particle_duration,
        14 => &e.system_red,
        15 => &e.system_green,
        16 => &e.system_blue,
        17 => &e.system_alpha,
        18 => &e.system_brightness,
        19 => &e.launch_speed,
        _ => &e.launch_angle,
    }
}

/// Particle track `j` of an emitter.
fn particle_track(e: &ParticlesEmitter, j: usize) -> (r: &Option<Vec<ParticlesTrackNode>>)
    requires
        j < 16,
    ensures
        *r == particle_tracks(*e)[j as int],
{
    match j {
        0 => &e.particle_red,
        1 => &e.particle_green,
        2 => &e.particle_blue,
        3 => &e.particle_alpha,
        4 => &e.particle_brightness,
        5 => &e.particle_spin_angle,
        6 => &e.particle_spin_speed,
        7 => &e.particle_scale,
        8 => &e.particle_stretch,
        9 => &e.collision_reflect,
        10 => &e.collision_spin,
        11 => &e.clip_top,
        12 => &e.clip_bottom,
        13 => &e.clip_left,
        14 => &e.clip_right,
        _ => &e.animation_rate,
    }
}

fn push_system_tracks(out: &mut Vec<u8>, e: &ParticlesEmitter)
    ensures
        final(out)@ == old(out)@ + concat_map(system_tracks(*e), nodes_fn()),
{
    let ghost h = out@;
    let mut j: usize = 0;
    while j < 21
        invariant
            j <= 21,
            system_tracks(*e).len() == 21,
            out@ == h + concat_map(system_tracks(*e).take(j as int), nodes_fn()),
        decreases 21 - j,
    {
        push_nodes(out, system_track(e, j));
        proof {
            lemma_concat_map_step(system_tracks(*e), j as int, nodes_fn());
            lemma_app(h, concat_map(system_tracks(*e).take(j as int), nodes_fn()), nodes_bytes(system_tracks(*e)[j as int]));
        }
        j = j + 1;
    }
    assert(system_tracks(*e).take(21) =~= system_tracks(*e));
}

fn push_particle_tracks(out: &mut Vec<u8>, e: &ParticlesEmitter)
    ensures
        final(out)@ == old(out)@ + concat_map(particle_tracks(*e), nodes_fn()),
{
    let ghost h = out@;
    let mut j: usize = 0;
    while j < 16
        invariant
            j <= 16,
            particle_tracks(*e).len() == 16,
            out@ == h + concat_map(particle_tracks(*e).take(j as int), nodes_fn()),
        decreases 16 - j,
    {
        push_nodes(out, particle_track(e, j));
        proof {
            lemma_concat_map_step(particle_tracks(*e), j as int, nodes_fn());
            lemma_app(h, concat_map(particle_tracks(*e).take(j as int), nodes_fn()), nodes_bytes(particle_tracks(*e)[j as int]));
        }
        j = j + 1;
    }
    assert(particle_tracks(*e).take(16) =~= particle_tracks(*e));
}

/// Appends a field list: the field size, the headers, then the node lists.
fn push_fields(out: &mut Vec<u8>, o: &Option<Vec<ParticlesField>>, v: ParticlesVersion)
    ensures
        final(out)@ == old(out)@ + fields_bytes(*o, v),
{
    let p64 = v == ParticlesVersion::Phone64;
    let size: u32 = if p64 { 0x18 } else { 0x14 };
    push_word(out, size);
    match o {
        None => {
            assert(fields_bytes(*o, v) =~= word(field_size(v)));
        },
        Some(fs) => {
            let ghost h = out@;
            let pad: usize = if p64 { 5 } else { 4 };
            let mut k: usize = 0;
            while k < fs.len()
                invariant
                    k <= fs@.len(),
                    pad == (if p64 { 5nat } else { 4nat }),
                    p64 == (v == ParticlesVersion::Phone64),
                    out@ == h + concat_map(fs@.take(k as int), field_head_fn(v)),
                decreases fs@.len() - k,
            {
                let t: i32 = match fs[k].field_type { Some(x) => x, None => 0 };
                let ghost before = out@;
                push_int(out, t);
                push_zeros(out, pad);
                proof {
                    lemma_app(before, word(or(fs@[k as int].field_type, 0)), zero_words(pad as nat));
                    lemma_concat_map_step(fs@, k as int, field_head_fn(v));
                    lemma_app(h, concat_map(fs@.take(k as int), field_head_fn(v)), field_head_bytes(fs@[k as int], v));
                }
                k = k + 1;
            }
            assert(fs@.take(fs@.len() as int) =~= fs@);
            let ghost mid = out@;
            let mut k: usize = 0;
            while k < fs.len()
                invariant
                    k <= fs@.len(),
                    out@ == mid + concat_map(fs@.take(k as int), field_nodes_fn()),
                decreases fs@.len() - k,
            {
                let ghost before = out@;
                push_nodes(out, &fs[k].x);
                push_nodes(out, &fs[k].y);
                proof {
                    lemma_app(before, nodes_bytes(fs@[k as int].x), nodes_bytes(fs@[k as int].y));
                    lemma_concat_map_step(fs@, k as int, field_nodes_fn());
                    lemma_app(mid, concat_map(fs@.take(k as int), field_nodes_fn()), field_nodes_bytes(fs@[k as int]));
                }
                k = k + 1;
            }
            assert(fs@.take(fs@.len() as int) =~= fs@);
            proof {
                lemma_app(h, concat_map(fs@, field_head_fn(v)), concat_map(fs@, field_nodes_fn()));
                lemma_app(old(out)@, word(field_size(v)), concat_map(fs@, field_head_fn(v)) + concat_map(fs@, field_nodes_fn()));
            }
        },
    }
}

/// The number of fields in an optional list.
fn field_count_of(o: &Option<Vec<ParticlesField>>) -> (n: usize)
    ensures
        n as int == field_len(*o),
{
    match o {
        Some(fs) => fs.len(),
        None => 0,
    }
}

/// Appends the six grid and flag words of an emitter header.
fn push_grid(out: &mut Vec<u8>, e: &ParticlesEmitter)
    ensures
        final(out)@ == old(out)@ + (word(or(e.image_col, 0)) + word(or(e.image_row, 0))
            + word(or(e.image_frames, 1)) + word(or(e.animated, 0)) + word(e.particle_flags as int)
            + word(or(e.emitter_type, 1))),
{
    let o = Ghost(out@);
    let col: i32 = match e.image_col { Some(x) => x, None => 0 };
    let row: i32 = match e.image_row { Some(x) => x, None => 0 };
    let frames: i32 = match e.image_frames { Some(x) => x, None => 1 };
    let animated: i32 = match e.animated { Some(x) => x, None => 0 };
    let etype: i32 = match e.emitter_type { Some(x) => x, None => 1 };
    push_int(out, col);
    let ghost a = word(or(e.image_col, 0));
    push_int(out, row);
    proof { lemma_app(o@, a, word(or(e.image_row, 0))); }
    let ghost a = a + word(or(e.image_row, 0));
    push_int(out, frames);
    proof { lemma_app(o@, a, word(or(e.image_frames, 1))); }
    let ghost a = a + word(or(e.image_frames, 1));
    push_int(out, animated);
    proof { lemma_app(o@, a, word(or(e.animated, 0))); }
    let ghost a = a + word(or(e.animated, 0));
    push_int(out, e.particle_flags);
    proof { lemma_app(o@, a, word(e.particle_flags as int)); }
    let ghost a = a + word(e.particle_flags as int);
    push_int(out, etype);
    proof { lemma_app(o@, a, word(or(e.emitter_type, 1))); }
}

/// Appends the header of an emitter.
fn push_emitter_head(out: &mut Vec<u8>, e: &ParticlesEmitter, v: ParticlesVersion)
    ensures
        final(out)@ == old(out)@ + emitter_head_bytes(*e, v),
{
    let p64 = v == ParticlesVersion::Phone64;
    let o = Ghost(out@);
    let lead: usize = if p64 { 2 } else { 1 };
    push_zeros(out, lead);
    let ghost a = zero_words(lead as nat);
    let ghost grid = word(or(e.image_col, 0)) + word(or(e.image_row, 0)) + word(or(e.image_frames, 1))
        + word(or(e.animated, 0)) + word(e.particle_flags as int) + word(or(e.emitter_type, 1));
    push_grid(out, e);
    proof { lemma_app(o@, a, grid); }
    let ghost a = a + grid;
    let gap: usize = if p64 { 94 } else { 47 };
    push_zeros(out, gap);
    proof { lemma_app(o@, a, zero_words(gap as nat)); }
    let ghost a = a + zero_words(gap as nat);
    push_len(out, field_count_of(&e.field));
    proof { lemma_app(o@, a, word(field_len(e.field))); }
    let ghost a = a + word(field_len(e.field));
    let mid: usize = if p64 { 3 } else { 1 };
    push_zeros(out, mid);
    proof { lemma_app(o@, a, zero_words(mid as nat)); }
    let ghost a = a + zero_words(mid as nat);
    push_len(out, field_count_of(&e.system_field));
    proof { lemma_app(o@, a, word(field_len(e.system_field))); }
    let ghost a = a + word(field_len(e.system_field));
    let tail: usize = if p64 { 65 } else { 32 };
    push_zeros(out, tail);
    proof { lemma_app(o@, a, zero_words(tail as nat)); }
}

/// Appends the body of an emitter.
fn push_emitter_body(out: &mut Vec<u8>, e: &ParticlesEmitter, v: ParticlesVersion)
    ensures
        final(out)@ == old(out)@ + emitter_body_bytes(*e, v),
{
    let o = Ghost(out@);
    if v == ParticlesVersion::PC {
        push_opt_str(out, &e.image);
    } else {
        push_int(out, image_value(&e.image));
    }
    let ghost a = image_bytes(*e, v);
    assert(out@ == o@ + a);
    push_opt_str(out, &e.name);
    proof { lemma_app(o@, a, string_bytes(e.name)); }
    let ghost a = a + string_bytes(e.name);
    push_nodes(out, &e.system_duration);
    proof { lemma_app(o@, a, nodes_bytes(e.system_duration)); }
    let ghost a = a + nodes_bytes(e.system_duration);
    push_opt_str(out, &e.on_duration);
    proof { lemma_app(o@, a, string_bytes(e.on_duration)); }
    let ghost a = a + string_bytes(e.on_duration);
    push_system_tracks(out, e);
    proof { lemma_app(o@, a, concat_map(system_tracks(*e), nodes_fn())); }
    let ghost a = a + concat_map(system_tracks(*e), nodes_fn());
    push_fields(out, &e.field, v);
    proof { lemma_app(o@, a, fields_bytes(e.field, v)); }
    let ghost a = a + fields_bytes(e.field, v);
    push_fields(out, &e.system_field, v);
    proof { lemma_app(o@, a, fields_bytes(e.system_field, v)); }
    let ghost a = a + fields_bytes(e.system_field, v);
    push_particle_tracks(out, e);
    proof { lemma_app(o@, a, concat_map(particle_tracks(*e), nodes_fn())); }
}

/// Writes the body of `r`: header, emitter headers and emitter bodies.
pub(crate) fn write_body(r: &Particles, v: ParticlesVersion) -> (out: Vec<u8>)
    requires
        r.emitters@.len() <= i32::MAX,
    ensures
        out@ == particles_body(*r, v),
{
    let p64 = v == ParticlesVersion::Phone64;
    let mut out: Vec<u8> = Vec::new();
    let magic: i32 = if p64 { -527264279 } else { 1092589901 };
    push_int(&mut out, magic);
    let lead: usize = if p64 { 2 } else { 1 };
    push_zeros(&mut out, lead);
    let n = r.emitters.len();
    push_len(&mut out, n);
    if p64 {
        push_zeros(&mut out, 1);
    }
    let hs: u32 = if p64 { 0x2B0 } else { 0x164 };
    push_word(&mut out, hs);
    assert(out@ =~= particles_head_bytes(*r, v));
    let ghost h = out@;
    let mut k: usize = 0;
    while k < n
        invariant
            k <= n,
            n == r.emitters@.len(),
            out@ == h + concat_map(r.emitters@.take(k as int), emitter_head_fn(v)),
        decreases n - k,
    {
        push_emitter_head(&mut out, &r.emitters[k], v);
        proof {
            lemma_concat_map_step(r.emitters@, k as int, emitter_head_fn(v));
            lemma_app(h, concat_map(r.emitters@.take(k as int), emitter_head_fn(v)), emitter_head_bytes(r.emitters@[k as int], v));
        }
        k = k + 1;
    }
    assert(r.emitters@.take(n as int) =~= r.emitters@);
    let ghost mid = out@;
    let mut k: usize = 0;
    while k < n
        invariant
            k <= n,
            n == r.emitters@.len(),
            out@ == mid + concat_map(r.emitters@.take(k as int), emitter_body_fn(v)),
        decreases n - k,
    {
        push_emitter_body(&mut out, &r.emitters[k], v);
        proof {
            lemma_concat_map_step(r.emitters@, k as int, emitter_body_fn(v));
            lemma_app(mid, concat_map(r.emitters@.take(k as int), emitter_body_fn(v)), emitter_body_bytes(r.emitters@[k as int], v));
        }
        k = k + 1;
    }
    assert(r.emitters@.take(n as int) =~= r.emitters@);
    out
}

/// The compressed-file framing around a zlib stream of `body`.
pub(crate) fn frame_stream(body: &[u8], stream: &[u8]) -> (out: Vec<u8>)
    ensures
        out@ == compiled_file(body@, stream@),
{
    let mut out: Vec<u8> = Vec::new();
    push_int(&mut out, -559022380);
    push_len(&mut out, body.len());
    let ghost mid = out@;
    out.extend_from_slice(stream);
    assert(out@ =~= mid + stream@);
    out
}

} // verus!
