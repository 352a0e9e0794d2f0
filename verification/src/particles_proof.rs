//! Reading back what the Particles writer wrote.
use vstd::prelude::*;
use vstd::utf8::encode_utf8;
use crate::particles::{
    image_end, image_fault, image_value, fields_at, sys_fields_at, particle_run_at, bits_or_zero, node_bytes, node_fn, node_ok, node_read, nodes_bytes, nodes_end, nodes_fault,
    nodes_fn, nodes_ok, nodes_read, or, run_fault, run_pos, run_read, str_end, str_fault,
    str_value, string_bytes, text_ok, unless, opt_view, str_bytes, str_chars, ParticlesTrackNode,
    ParticlesField, ParticlesVersion, field_nodes_fn, field_ok, field_head_fn, field_size,
    fields_bytes, fields_ok, fields_fault, fields_end, fields_read, field_len, field_heads_len,
    field_nodes_at, is_p64, emitter_head_bytes, emitter_ok, head_fault, head_read, field_count,
    sys_count, head_pos, grid_at, field_count_at, sys_count_at, ParticlesEmitter, image_bytes,
    intro_fault, intro_read, system_run_at, name_at, system_tracks, particle_tracks, tail_fault,
    tail_read, tail_end, emitter_body_bytes, emitter_fault, emitter_end, body_read, grid_bytes,
    emitter_head_fn, emitter_body_fn, heads_at, head_size, heads_fault, bodies_at, emitter_pos,
    bodies_fault, particles_head_bytes, Particles, emitter_count, particles_magic, count_at,
    particles_ok, particles_body, body_fault, particles_read, payload, compiled_file,
    compiled_magic, ParticlesError, decompressed,
};
use crate::zlib::{zlib_deflate, zlib_inflate};
use crate::trail::{trail_body, trail_fault, trail_ok, trail_read, trail_tracks, Trail};
use crate::text::parsed_i32;
use crate::reanim::{concat_map, image_id, int_at, name_ok, opt_chars, str_field, word, zero_words};
use crate::reanim_proof::{
    holds_at, lemma_at_split, lemma_at_word, lemma_concat_map_at, lemma_concat_map_uniform,
    lemma_encode_empty, lemma_trim_name,
};
use crate::reanim_write::lemma_concat_map_step;

verus! {

/// Characters written with their byte length read back.
pub(crate) proof fn lemma_at_chars(b: Seq<u8>, p: int, t: Seq<char>)
    requires
        holds_at(b, p, str_field(t)),
        name_ok(t),
        encode_utf8(t).len() <= i32::MAX,
    ensures
        str_fault(b, p) is None,
        str_end(b, p) == p + str_field(t).len(),
        str_value(b, p) == (if t.len() == 0 { None } else { Some(t) }),
{
    let e = encode_utf8(t);
    lemma_at_split(b, p, word(e.len() as int), e);
    lemma_at_word(b, p, e.len() as int);
    lemma_encode_empty(t);
    if e.len() > 0 {
        lemma_trim_name(t);
        assert(b.subrange(p + 4, p + 4 + e.len()) == e);
        assert(str_bytes(b, p) == e);
        vstd::utf8::encode_utf8_valid_utf8(t);
        vstd::utf8::encode_utf8_decode_utf8(t);
        assert(str_chars(b, p) == t);
    } else {
        assert(str_chars(b, p) =~= Seq::<char>::empty());
    }
}

/// A string written with its length reads back.
pub proof fn lemma_at_text(b: Seq<u8>, p: int, s: Option<String>)
    requires
        holds_at(b, p, string_bytes(s)),
        text_ok(s),
    ensures
        str_fault(b, p) is None,
        str_end(b, p) == p + string_bytes(s).len(),
        str_value(b, p) == opt_view(s),
{
    lemma_at_chars(b, p, opt_chars(s));
}

/// `x` stands in `pre + x + post` just after `pre`.
pub(crate) proof fn lemma_holds_between(pre: Seq<u8>, x: Seq<u8>, post: Seq<u8>)
    ensures
        holds_at(pre + x + post, pre.len() as int, x),
{
    assert((pre + x + post).subrange(pre.len() as int, (pre.len() + x.len()) as int) =~= x);
}

/// A written node reads back.
#[verifier::spinoff_prover]
pub proof fn lemma_at_node(b: Seq<u8>, q: int, n: ParticlesTrackNode)
    requires
        holds_at(b, q, node_bytes(n)),
        node_ok(n),
    ensures
        node_read(n, b, q),
{
    let w1 = word(n.time as int);
    let w2 = word(bits_or_zero(n.low_value));
    let w3 = word(bits_or_zero(n.high_value));
    let w4 = word(or(n.curve_type, 1));
    let w5 = word(or(n.distribution, 1));
    lemma_at_split(b, q, w1 + w2 + w3 + w4, w5);
    lemma_at_split(b, q, w1 + w2 + w3, w4);
    lemma_at_split(b, q, w1 + w2, w3);
    lemma_at_split(b, q, w1, w2);
    lemma_at_word(b, q, n.time as int);
    lemma_at_word(b, q + 4, bits_or_zero(n.low_value));
    lemma_at_word(b, q + 8, bits_or_zero(n.high_value));
    lemma_at_word(b, q + 12, or(n.curve_type, 1));
    lemma_at_word(b, q + 16, or(n.distribution, 1));
    lemma_small_mod(bits_or_zero(n.low_value));
    lemma_small_mod(bits_or_zero(n.high_value));
    lemma_small_mod(n.time as int);
}

proof fn lemma_small_mod(x: int)
    requires
        0 <= x < 0x1_0000_0000,
    ensures
        x % 0x1_0000_0000 == x,
{
}

pub proof fn lemma_node_len(n: ParticlesTrackNode)
    ensures
        node_fn()(n).len() == 20,
{
}

/// A written node list reads back.
pub proof fn lemma_at_nodes(b: Seq<u8>, p: int, o: Option<Vec<ParticlesTrackNode>>)
    requires
        holds_at(b, p, nodes_bytes(o)),
        nodes_ok(o),
    ensures
        nodes_fault(b, p) is None,
        nodes_end(b, p) == p + nodes_bytes(o).len(),
        nodes_read(o, b, p),
{
    match o {
        None => {
            lemma_at_word(b, p, 0);
        },
        Some(ns) => {
            let c = ns@.len() as int;
            lemma_at_split(b, p, word(c), concat_map(ns@, node_fn()));
            lemma_at_word(b, p, c);
            assert forall|x: ParticlesTrackNode| #[trigger] node_fn()(x).len() == 20 by {
                lemma_node_len(x);
            }
            lemma_concat_map_uniform(ns@, node_fn(), 20, c);
            assert(ns@.take(c) =~= ns@);
            assert forall|j: int| 0 <= j < c implies #[trigger] node_read(ns@[j], b, p + 4 + 20 * j) by {
                lemma_concat_map_uniform(ns@, node_fn(), 20, j);
                lemma_concat_map_at(b, p + 4, ns@, node_fn(), j);
                lemma_at_node(b, p + 4 + 20 * j, ns@[j]);
            }
        },
    }
}

/// The bytes at `q` determine the node read there.
pub(crate) proof fn lemma_node_read_unique(n: ParticlesTrackNode, m: ParticlesTrackNode, b: Seq<u8>, q: int)
    requires
        node_read(n, b, q),
        node_read(m, b, q),
    ensures
        n == m,
{
}

/// Where list `j` of a written run starts.
pub proof fn lemma_run_pos(b: Seq<u8>, s: int, ts: Seq<Option<Vec<ParticlesTrackNode>>>, j: int)
    requires
        holds_at(b, s, concat_map(ts, nodes_fn())),
        forall|i: int| 0 <= i < ts.len() ==> nodes_ok(#[trigger] ts[i]),
        0 <= j <= ts.len(),
    ensures
        run_pos(b, s, j) == s + concat_map(ts.take(j), nodes_fn()).len(),
    decreases j,
{
    if j == 0 {
        assert(ts.take(0) =~= Seq::<Option<Vec<ParticlesTrackNode>>>::empty());
    } else {
        lemma_run_pos(b, s, ts, j - 1);
        lemma_concat_map_at(b, s, ts, nodes_fn(), j - 1);
        lemma_concat_map_step(ts, j - 1, nodes_fn());
        assert(nodes_ok(ts[j - 1]));
        lemma_at_nodes(b, run_pos(b, s, j - 1), ts[j - 1]);
    }
}

/// A written run reads back without fault.
pub proof fn lemma_run_fault(b: Seq<u8>, s: int, ts: Seq<Option<Vec<ParticlesTrackNode>>>, j: int)
    requires
        holds_at(b, s, concat_map(ts, nodes_fn())),
        forall|i: int| 0 <= i < ts.len() ==> nodes_ok(#[trigger] ts[i]),
        0 <= j <= ts.len(),
    ensures
        run_fault(b, s, j, ts.len() as int) is None,
    decreases ts.len() - j,
{
    if j < ts.len() {
        lemma_run_fault(b, s, ts, j + 1);
        lemma_run_pos(b, s, ts, j);
        lemma_concat_map_at(b, s, ts, nodes_fn(), j);
        assert(nodes_ok(ts[j]));
        lemma_at_nodes(b, run_pos(b, s, j), ts[j]);
    }
}

/// A written run reads back as itself and ends after its bytes.
pub proof fn lemma_run(b: Seq<u8>, s: int, ts: Seq<Option<Vec<ParticlesTrackNode>>>)
    requires
        holds_at(b, s, concat_map(ts, nodes_fn())),
        forall|i: int| 0 <= i < ts.len() ==> nodes_ok(#[trigger] ts[i]),
    ensures
        run_fault(b, s, 0, ts.len() as int) is None,
        run_pos(b, s, ts.len() as int) == s + concat_map(ts, nodes_fn()).len(),
        run_read(ts, b, s, ts.len() as int),
{
    lemma_run_fault(b, s, ts, 0);
    lemma_run_pos(b, s, ts, ts.len() as int);
    assert(ts.take(ts.len() as int) =~= ts);
    assert forall|j: int| 0 <= j < ts.len() implies #[trigger] nodes_read(ts[j], b, run_pos(b, s, j)) by {
        lemma_run_pos(b, s, ts, j);
        lemma_concat_map_at(b, s, ts, nodes_fn(), j);
        assert(nodes_ok(ts[j]));
        lemma_at_nodes(b, run_pos(b, s, j), ts[j]);
    }
}

/// Where the node lists of field `k` of a written list start.
#[verifier::spinoff_prover]
pub proof fn lemma_field_nodes_pos(b: Seq<u8>, q: int, fs: Seq<ParticlesField>, k: int)
    requires
        holds_at(b, q, concat_map(fs, field_nodes_fn())),
        forall|i: int| 0 <= i < fs.len() ==> field_ok(#[trigger] fs[i]),
        0 <= k <= fs.len(),
    ensures
        run_pos(b, q, 2 * k) == q + concat_map(fs.take(k), field_nodes_fn()).len(),
    decreases k,
{
    if k == 0 {
        assert(fs.take(0) =~= Seq::<ParticlesField>::empty());
    } else {
        lemma_field_nodes_pos(b, q, fs, k - 1);
        let f = fs[k - 1];
        assert(field_ok(f));
        let at = q + concat_map(fs.take(k - 1), field_nodes_fn()).len();
        lemma_concat_map_at(b, q, fs, field_nodes_fn(), k - 1);
        lemma_concat_map_step(fs, k - 1, field_nodes_fn());
        lemma_at_split(b, at, nodes_bytes(f.x), nodes_bytes(f.y));
        lemma_at_nodes(b, at, f.x);
        lemma_at_nodes(b, at + nodes_bytes(f.x).len(), f.y);
        let j = 2 * (k - 1);
        assert(run_pos(b, q, j) == at);
        assert(run_pos(b, q, j + 1) == nodes_end(b, run_pos(b, q, j)));
        assert(run_pos(b, q, j + 2) == nodes_end(b, run_pos(b, q, j + 1)));
        assert(j + 2 == 2 * k);
    }
}

/// List `j` of the run of a written field list is `x` or `y` of field `j / 2`.
#[verifier::spinoff_prover]
pub proof fn lemma_field_list(b: Seq<u8>, q: int, fs: Seq<ParticlesField>, k: int)
    requires
        holds_at(b, q, concat_map(fs, field_nodes_fn())),
        forall|i: int| 0 <= i < fs.len() ==> field_ok(#[trigger] fs[i]),
        0 <= k < fs.len(),
    ensures
        nodes_fault(b, run_pos(b, q, 2 * k)) is None,
        nodes_fault(b, run_pos(b, q, 2 * k + 1)) is None,
        nodes_read(fs[k].x, b, run_pos(b, q, 2 * k)),
        nodes_read(fs[k].y, b, run_pos(b, q, 2 * k + 1)),
{
    lemma_field_nodes_pos(b, q, fs, k);
    let f = fs[k];
    assert(field_ok(f));
    let at = q + concat_map(fs.take(k), field_nodes_fn()).len();
    lemma_concat_map_at(b, q, fs, field_nodes_fn(), k);
    lemma_at_split(b, at, nodes_bytes(f.x), nodes_bytes(f.y));
    lemma_at_nodes(b, at, f.x);
    lemma_at_nodes(b, at + nodes_bytes(f.x).len(), f.y);
    assert(run_pos(b, q, 2 * k + 1) == nodes_end(b, run_pos(b, q, 2 * k)));
}

pub proof fn lemma_field_nodes_fault(b: Seq<u8>, q: int, fs: Seq<ParticlesField>, j: int)
    requires
        holds_at(b, q, concat_map(fs, field_nodes_fn())),
        forall|i: int| 0 <= i < fs.len() ==> field_ok(#[trigger] fs[i]),
        0 <= j <= 2 * fs.len(),
    ensures
        run_fault(b, q, j, 2 * fs.len() as int) is None,
    decreases 2 * fs.len() - j,
{
    if j < 2 * fs.len() {
        lemma_field_nodes_fault(b, q, fs, j + 1);
        lemma_field_list(b, q, fs, j / 2);
        assert(j == 2 * (j / 2) || j == 2 * (j / 2) + 1);
    }
}

pub proof fn lemma_field_head_len(f: ParticlesField, v: ParticlesVersion)
    ensures
        field_head_fn(v)(f).len() == field_size(v),
{
}

/// A written field list reads back.
#[verifier::spinoff_prover]
pub proof fn lemma_at_fields(b: Seq<u8>, p: int, o: Option<Vec<ParticlesField>>, v: ParticlesVersion)
    requires
        holds_at(b, p, fields_bytes(o, v)),
        fields_ok(o),
    ensures
        fields_fault(b, v, p, field_len(o)) is None,
        fields_end(b, v, p, field_len(o)) == p + fields_bytes(o, v).len(),
        fields_read(o, b, v, p, field_len(o)),
{
    let c = field_len(o);
    match o {
        None => {
            assert(fields_bytes(o, v) =~= word(field_size(v)));
            lemma_at_word(b, p, field_size(v));
        },
        Some(fs) => {
            let heads = concat_map(fs@, field_head_fn(v));
            let nodes = concat_map(fs@, field_nodes_fn());
            lemma_at_split(b, p, word(field_size(v)), heads + nodes);
            lemma_at_word(b, p, field_size(v));
            lemma_at_split(b, p + 4, heads, nodes);
            let w = field_size(v) as nat;
            assert forall|x: ParticlesField| #[trigger] field_head_fn(v)(x).len() == w by {
                lemma_field_head_len(x, v);
            }
            lemma_concat_map_uniform(fs@, field_head_fn(v), w, c);
            assert(fs@.take(c) =~= fs@);
            assert(heads.len() == field_heads_len(v, c));
            let q = field_nodes_at(v, p, c);
            lemma_field_nodes_fault(b, q, fs@, 0);
            lemma_field_nodes_pos(b, q, fs@, c);
            assert forall|k: int| 0 <= k < c implies {
                &&& (#[trigger] fs@[k]).field_type == unless(int_at(b, p + 4 + field_heads_len(v, k)), 0)
                &&& nodes_read(fs@[k].x, b, run_pos(b, q, 2 * k))
                &&& nodes_read(fs@[k].y, b, run_pos(b, q, 2 * k + 1))
            } by {
                lemma_concat_map_uniform(fs@, field_head_fn(v), w, k);
                lemma_concat_map_at(b, p + 4, fs@, field_head_fn(v), k);
                let f = fs@[k];
                assert(field_ok(f));
                let pad: nat = if is_p64(v) { 5 } else { 4 };
                lemma_at_split(b, p + 4 + field_heads_len(v, k), word(or(f.field_type, 0)), zero_words(pad));
                lemma_at_word(b, p + 4 + field_heads_len(v, k), or(f.field_type, 0));
                lemma_field_list(b, q, fs@, k);
            }
        },
    }
}

// ─── Emitters ───────────────────────────────────────────────────────────────

/// The written grid reads back.
#[verifier::spinoff_prover]
pub proof fn lemma_grid(b: Seq<u8>, g: int, e: ParticlesEmitter)
    requires
        holds_at(b, g, grid_bytes(e)),
    ensures
        int_at(b, g) == or(e.image_col, 0),
        int_at(b, g + 4) == or(e.image_row, 0),
        int_at(b, g + 8) == or(e.image_frames, 1),
        int_at(b, g + 12) == or(e.animated, 0),
        int_at(b, g + 16) == e.particle_flags,
        int_at(b, g + 20) == or(e.emitter_type, 1),
{
    let w1 = word(or(e.image_col, 0));
    let w2 = word(or(e.image_row, 0));
    let w3 = word(or(e.image_frames, 1));
    let w4 = word(or(e.animated, 0));
    let w5 = word(e.particle_flags as int);
    let w6 = word(or(e.emitter_type, 1));
    lemma_at_split(b, g, w1 + w2 + w3 + w4 + w5, w6);
    lemma_at_split(b, g, w1 + w2 + w3 + w4, w5);
    lemma_at_split(b, g, w1 + w2 + w3, w4);
    lemma_at_split(b, g, w1 + w2, w3);
    lemma_at_split(b, g, w1, w2);
    lemma_at_word(b, g, or(e.image_col, 0));
    lemma_at_word(b, g + 4, or(e.image_row, 0));
    lemma_at_word(b, g + 8, or(e.image_frames, 1));
    lemma_at_word(b, g + 12, or(e.animated, 0));
    lemma_at_word(b, g + 16, e.particle_flags as int);
    lemma_at_word(b, g + 20, or(e.emitter_type, 1));
}

/// A written emitter header reads back.
#[verifier::spinoff_prover]
pub proof fn lemma_emitter_head(b: Seq<u8>, v: ParticlesVersion, i: int, e: ParticlesEmitter)
    requires
        holds_at(b, head_pos(v, i), emitter_head_bytes(e, v)),
        emitter_ok(e, v),
    ensures
        head_fault(b, v, i) is None,
        head_read(e, b, v, i),
        field_count(b, v, i) == field_len(e.field),
        sys_count(b, v, i) == field_len(e.system_field),
{
    let q = head_pos(v, i);
    let grid = grid_bytes(e);
    let lead: nat = if is_p64(v) { 2 } else { 1 };
    let gap: nat = if is_p64(v) { 94 } else { 47 };
    let mid: nat = if is_p64(v) { 3 } else { 1 };
    let tail: nat = if is_p64(v) { 65 } else { 32 };
    let wf = word(field_len(e.field));
    let ws = word(field_len(e.system_field));
    let z1 = zero_words(lead);
    let z2 = zero_words(gap);
    let z3 = zero_words(mid);
    let z4 = zero_words(tail);
    assert(emitter_head_bytes(e, v) == z1 + grid + z2 + wf + z3 + ws + z4);
    lemma_at_split(b, q, z1 + grid + z2 + wf + z3 + ws, z4);
    lemma_at_split(b, q, z1 + grid + z2 + wf + z3, ws);
    lemma_at_split(b, q, z1 + grid + z2 + wf, z3);
    lemma_at_split(b, q, z1 + grid + z2, wf);
    lemma_at_split(b, q, z1 + grid, z2);
    lemma_at_split(b, q, z1, grid);
    lemma_grid(b, q + grid_at(v), e);
    lemma_at_word(b, q + field_count_at(v), field_len(e.field));
    lemma_at_word(b, q + sys_count_at(v), field_len(e.system_field));
}

/// A written image, name, duration track and on-duration read back.
#[verifier::spinoff_prover]
pub proof fn lemma_intro(b: Seq<u8>, v: ParticlesVersion, p: int, e: ParticlesEmitter)
    requires
        holds_at(b, p, image_bytes(e, v) + string_bytes(e.name) + nodes_bytes(e.system_duration)
            + string_bytes(e.on_duration)),
        emitter_ok(e, v),
    ensures
        intro_fault(b, v, p) is None,
        intro_read(e, b, v, p),
        system_run_at(b, v, p) == p + (image_bytes(e, v) + string_bytes(e.name)
            + nodes_bytes(e.system_duration) + string_bytes(e.on_duration)).len(),
{
    let im = image_bytes(e, v);
    let nm = string_bytes(e.name);
    let sd = nodes_bytes(e.system_duration);
    let od = string_bytes(e.on_duration);
    lemma_at_split(b, p, im + nm + sd, od);
    lemma_at_split(b, p, im + nm, sd);
    lemma_at_split(b, p, im, nm);
    if v == ParticlesVersion::PC {
        lemma_at_text(b, p, e.image);
    } else {
        lemma_at_word(b, p, image_id(e.image));
        match e.image {
            Some(t) => {
                assert(parsed_i32(t@) is Some);
            },
            None => {},
        }
    }
    assert(name_at(b, v, p) == p + im.len());
    lemma_at_text(b, p + im.len(), e.name);
    lemma_at_nodes(b, p + im.len() + nm.len(), e.system_duration);
    lemma_at_text(b, p + im.len() + nm.len() + sd.len(), e.on_duration);
}

/// The system tracks, fields and particle tracks written read back.
#[verifier::spinoff_prover]
pub proof fn lemma_tail(b: Seq<u8>, v: ParticlesVersion, s: int, e: ParticlesEmitter)
    requires
        holds_at(b, s, concat_map(system_tracks(e), nodes_fn()) + fields_bytes(e.field, v)
            + fields_bytes(e.system_field, v) + concat_map(particle_tracks(e), nodes_fn())),
        emitter_ok(e, v),
    ensures
        tail_fault(b, v, s, field_len(e.field), field_len(e.system_field)) is None,
        tail_read(e, b, v, s, field_len(e.field), field_len(e.system_field)),
        tail_end(b, v, s, field_len(e.field), field_len(e.system_field)) == s + (concat_map(system_tracks(e), nodes_fn())
            + fields_bytes(e.field, v) + fields_bytes(e.system_field, v)
            + concat_map(particle_tracks(e), nodes_fn())).len(),
{
    let st = concat_map(system_tracks(e), nodes_fn());
    let f1 = fields_bytes(e.field, v);
    let f2 = fields_bytes(e.system_field, v);
    let pt = concat_map(particle_tracks(e), nodes_fn());
    lemma_at_split(b, s, st + f1 + f2, pt);
    lemma_at_split(b, s, st + f1, f2);
    lemma_at_split(b, s, st, f1);
    assert(system_tracks(e).len() == 21);
    assert(particle_tracks(e).len() == 16);
    lemma_run(b, s, system_tracks(e));
    lemma_at_fields(b, s + st.len(), e.field, v);
    lemma_at_fields(b, s + st.len() + f1.len(), e.system_field, v);
    lemma_run(b, s + st.len() + f1.len() + f2.len(), particle_tracks(e));
}

/// A written emitter body reads back.
#[verifier::spinoff_prover]
pub proof fn lemma_emitter_body(b: Seq<u8>, v: ParticlesVersion, p: int, e: ParticlesEmitter)
    requires
        holds_at(b, p, emitter_body_bytes(e, v)),
        emitter_ok(e, v),
    ensures
        emitter_fault(b, v, p, field_len(e.field), field_len(e.system_field)) is None,
        emitter_end(b, v, p, field_len(e.field), field_len(e.system_field)) == p + emitter_body_bytes(e, v).len(),
        body_read(e, b, v, p, field_len(e.field), field_len(e.system_field)),
{
    let intro = image_bytes(e, v) + string_bytes(e.name) + nodes_bytes(e.system_duration) + string_bytes(e.on_duration);
    let tail = concat_map(system_tracks(e), nodes_fn()) + fields_bytes(e.field, v)
        + fields_bytes(e.system_field, v) + concat_map(particle_tracks(e), nodes_fn());
    assert(emitter_body_bytes(e, v) =~= intro + tail);
    lemma_at_split(b, p, intro, tail);
    lemma_intro(b, v, p, e);
    lemma_tail(b, v, p + intro.len(), e);
}

// ─── Bodies ─────────────────────────────────────────────────────────────────

pub proof fn lemma_head_len(e: ParticlesEmitter, v: ParticlesVersion)
    ensures
        emitter_head_fn(v)(e).len() == head_size(v),
{
}

/// Header `i` of the written headers reads back.
pub proof fn lemma_head(b: Seq<u8>, v: ParticlesVersion, es: Seq<ParticlesEmitter>, i: int)
    requires
        holds_at(b, heads_at(v), concat_map(es, emitter_head_fn(v))),
        forall|k: int| 0 <= k < es.len() ==> emitter_ok(#[trigger] es[k], v),
        0 <= i < es.len(),
    ensures
        head_fault(b, v, i) is None,
        head_read(es[i], b, v, i),
        field_count(b, v, i) == field_len(es[i].field),
        sys_count(b, v, i) == field_len(es[i].system_field),
{
    let w = head_size(v) as nat;
    assert forall|x: ParticlesEmitter| #[trigger] emitter_head_fn(v)(x).len() == w by {
        lemma_head_len(x, v);
    }
    lemma_concat_map_uniform(es, emitter_head_fn(v), w, i);
    lemma_concat_map_at(b, heads_at(v), es, emitter_head_fn(v), i);
    assert(head_pos(v, i) == heads_at(v) + concat_map(es.take(i), emitter_head_fn(v)).len());
    assert(emitter_ok(es[i], v));
    lemma_emitter_head(b, v, i, es[i]);
}

pub proof fn lemma_heads_fault(b: Seq<u8>, v: ParticlesVersion, es: Seq<ParticlesEmitter>, i: int)
    requires
        holds_at(b, heads_at(v), concat_map(es, emitter_head_fn(v))),
        forall|k: int| 0 <= k < es.len() ==> emitter_ok(#[trigger] es[k], v),
        0 <= i <= es.len(),
    ensures
        heads_fault(b, v, i, es.len() as int) is None,
    decreases es.len() - i,
{
    if i < es.len() {
        lemma_heads_fault(b, v, es, i + 1);
        lemma_head(b, v, es, i);
    }
}

/// Where body `i` of the written bodies starts.
pub proof fn lemma_emitter_pos(b: Seq<u8>, v: ParticlesVersion, es: Seq<ParticlesEmitter>, i: int)
    requires
        holds_at(b, heads_at(v), concat_map(es, emitter_head_fn(v))),
        holds_at(b, bodies_at(b, v), concat_map(es, emitter_body_fn(v))),
        forall|k: int| 0 <= k < es.len() ==> emitter_ok(#[trigger] es[k], v),
        0 <= i <= es.len(),
    ensures
        emitter_pos(b, v, i) == bodies_at(b, v) + concat_map(es.take(i), emitter_body_fn(v)).len(),
    decreases i,
{
    if i == 0 {
        assert(es.take(0) =~= Seq::<ParticlesEmitter>::empty());
    } else {
        lemma_emitter_pos(b, v, es, i - 1);
        lemma_head(b, v, es, i - 1);
        lemma_concat_map_at(b, bodies_at(b, v), es, emitter_body_fn(v), i - 1);
        lemma_concat_map_step(es, i - 1, emitter_body_fn(v));
        assert(emitter_ok(es[i - 1], v));
        lemma_emitter_body(b, v, emitter_pos(b, v, i - 1), es[i - 1]);
    }
}

pub proof fn lemma_bodies_fault(b: Seq<u8>, v: ParticlesVersion, es: Seq<ParticlesEmitter>, i: int)
    requires
        holds_at(b, heads_at(v), concat_map(es, emitter_head_fn(v))),
        holds_at(b, bodies_at(b, v), concat_map(es, emitter_body_fn(v))),
        forall|k: int| 0 <= k < es.len() ==> emitter_ok(#[trigger] es[k], v),
        0 <= i <= es.len(),
    ensures
        bodies_fault(b, v, i, es.len() as int) is None,
    decreases es.len() - i,
{
    if i < es.len() {
        lemma_bodies_fault(b, v, es, i + 1);
        lemma_emitter_pos(b, v, es, i);
        lemma_head(b, v, es, i);
        lemma_concat_map_at(b, bodies_at(b, v), es, emitter_body_fn(v), i);
        assert(emitter_ok(es[i], v));
        lemma_emitter_body(b, v, emitter_pos(b, v, i), es[i]);
    }
}

/// The header of a written body reads back.
#[verifier::spinoff_prover]
pub proof fn lemma_particles_head(b: Seq<u8>, r: Particles, v: ParticlesVersion)
    requires
        holds_at(b, 0, particles_head_bytes(r, v)),
        r.emitters@.len() <= i32::MAX,
    ensures
        particles_head_bytes(r, v).len() == heads_at(v),
        emitter_count(b, v) == r.emitters@.len(),
        int_at(b, heads_at(v) - 4) == head_size(v),
{
    let n = word(r.emitters@.len() as int);
    let m = word(particles_magic(v));
    let h = word(head_size(v));
    if is_p64(v) {
        lemma_at_split(b, 0, m + zero_words(2) + n + zero_words(1), h);
        lemma_at_split(b, 0, m + zero_words(2) + n, zero_words(1));
        lemma_at_split(b, 0, m + zero_words(2), n);
    } else {
        lemma_at_split(b, 0, m + zero_words(1) + n, h);
        lemma_at_split(b, 0, m + zero_words(1), n);
    }
    lemma_at_word(b, count_at(v), r.emitters@.len() as int);
    lemma_at_word(b, heads_at(v) - 4, head_size(v));
}

/// A written body reads back, without fault, as the definition written.
#[verifier::spinoff_prover]
pub proof fn lemma_particles_body(r: Particles, v: ParticlesVersion)
    requires
        particles_ok(r, v),
    ensures
        body_fault(particles_body(r, v), v) is None,
        particles_read(r, particles_body(r, v), v),
{
    let b = particles_body(r, v);
    let es = r.emitters@;
    let n = es.len() as int;
    let h = particles_head_bytes(r, v);
    let hs = concat_map(es, emitter_head_fn(v));
    let bs = concat_map(es, emitter_body_fn(v));
    assert(b.subrange(0, b.len() as int) =~= b);
    assert(holds_at(b, 0, h + hs + bs));
    lemma_at_split(b, 0, h + hs, bs);
    lemma_at_split(b, 0, h, hs);
    lemma_particles_head(b, r, v);
    let w = head_size(v) as nat;
    assert forall|x: ParticlesEmitter| #[trigger] emitter_head_fn(v)(x).len() == w by {
        lemma_head_len(x, v);
    }
    lemma_concat_map_uniform(es, emitter_head_fn(v), w, n);
    assert(es.take(n) =~= es);
    assert(bodies_at(b, v) == h.len() + hs.len());
    lemma_heads_fault(b, v, es, 0);
    lemma_bodies_fault(b, v, es, 0);
    assert forall|i: int| 0 <= i < n implies {
        &&& head_read(#[trigger] r.emitters@[i], b, v, i)
        &&& body_read(r.emitters@[i], b, v, emitter_pos(b, v, i), field_count(b, v, i), sys_count(b, v, i))
    } by {
        lemma_head(b, v, es, i);
        lemma_emitter_pos(b, v, es, i);
        lemma_concat_map_at(b, bodies_at(b, v), es, emitter_body_fn(v), i);
        assert(emitter_ok(es[i], v));
        lemma_emitter_body(b, v, emitter_pos(b, v, i), es[i]);
    }
}

/// The body inside a written file is the body written.
#[verifier::spinoff_prover]
pub proof fn lemma_compiled_payload(b: Seq<u8>)
    requires
        zlib_inflate(zlib_deflate(b)) == Some(b),
    ensures
        payload(compiled_file(b, zlib_deflate(b))) == Ok::<Seq<u8>, ParticlesError>(b),
{
    let z = zlib_deflate(b);
    let d = compiled_file(b, z);
    let pre = word(compiled_magic()) + word(b.len() as int);
    assert(d.subrange(0, d.len() as int) =~= d);
    lemma_at_split(d, 0, pre, z);
    lemma_at_split(d, 0, word(compiled_magic()), word(b.len() as int));
    lemma_at_word(d, 0, compiled_magic());
    assert(d.skip(8) =~= z);
}

// ─── Trails ─────────────────────────────────────────────────────────────────

/// A written trail reads back, through its zlib stream, as itself.
#[verifier::spinoff_prover]
pub proof fn lemma_trail(t: Trail)
    requires
        trail_ok(t),
        zlib_inflate(zlib_deflate(trail_body(t))) == Some(trail_body(t)),
    ensures
        trail_fault(compiled_file(trail_body(t), zlib_deflate(trail_body(t)))) is None,
        decompressed(compiled_file(trail_body(t), zlib_deflate(trail_body(t)))) == Ok::<Seq<u8>, ParticlesError>(trail_body(t)),
        trail_read(t, trail_body(t)),
{
    let b = trail_body(t);
    let z = zlib_deflate(b);
    let d = compiled_file(b, z);
    let pre = word(compiled_magic()) + word(b.len() as int);
    assert(d.subrange(0, d.len() as int) =~= d);
    lemma_at_split(d, 0, pre, z);
    lemma_at_split(d, 0, word(compiled_magic()), word(b.len() as int));
    lemma_at_word(d, 0, compiled_magic());
    assert(d.skip(8) =~= z);
    let w1 = word(t.max_points as int);
    let w2 = word(t.min_point_distance as int);
    let w3 = word(t.trail_flags as int);
    let st = string_bytes(t.image);
    let run = concat_map(trail_tracks(t), nodes_fn());
    assert(b.subrange(0, b.len() as int) =~= b);
    lemma_at_split(b, 0, zero_words(2) + w1 + w2 + w3 + zero_words(10) + st + run, zero_words(1));
    lemma_at_split(b, 0, zero_words(2) + w1 + w2 + w3 + zero_words(10) + st, run);
    lemma_at_split(b, 0, zero_words(2) + w1 + w2 + w3 + zero_words(10), st);
    lemma_at_split(b, 0, zero_words(2) + w1 + w2 + w3, zero_words(10));
    lemma_at_split(b, 0, zero_words(2) + w1 + w2, w3);
    lemma_at_split(b, 0, zero_words(2) + w1, w2);
    lemma_at_split(b, 0, zero_words(2), w1);
    lemma_at_word(b, 8, t.max_points as int);
    lemma_at_word(b, 12, t.min_point_distance as int);
    lemma_small_mod(t.min_point_distance as int);
    lemma_at_word(b, 16, t.trail_flags as int);
    lemma_at_text(b, 60, t.image);
    assert(trail_tracks(t).len() == 4);
    lemma_run(b, 60 + st.len() as int, trail_tracks(t));
}

proof fn lemma_prefix_words(m: int, n: int, hs: int, rest: Seq<u8>)
    requires
        0 <= n <= i32::MAX,
    ensures
        ({
            let b = word(m) + zero_words(2) + word(n) + zero_words(1) + word(hs) + rest;
            &&& b.len() >= 24
            &&& int_at(b, 8) == 0
            &&& int_at(b, 12) == n
        }),
{
    let b = word(m) + zero_words(2) + word(n) + zero_words(1) + word(hs) + rest;
    assert(holds_at(b, 8, word(0))) by {
        assert(word(0) =~= seq![0u8, 0u8, 0u8, 0u8]);
        assert(b.subrange(8, 12) =~= seq![0u8, 0u8, 0u8, 0u8]);
    }
    assert(holds_at(b, 12, word(n))) by {
        assert(b.subrange(12, 16) =~= word(n));
    }
    lemma_at_word(b, 8, 0);
    lemma_at_word(b, 12, n);
}

/// The header words of a 64-bit phone body: a zero word at 8 and the
/// emitter count at 12.
proof fn lemma_phone64_head_words(r: Particles)
    requires
        r.emitters@.len() <= i32::MAX,
    ensures
        particles_body(r, ParticlesVersion::Phone64).len() >= 24,
        int_at(particles_body(r, ParticlesVersion::Phone64), 8) == 0,
        int_at(particles_body(r, ParticlesVersion::Phone64), 12) == r.emitters@.len(),
{
    let v = ParticlesVersion::Phone64;
    let n = r.emitters@.len() as int;
    let rest = concat_map(r.emitters@, emitter_head_fn(v)) + concat_map(r.emitters@, emitter_body_fn(v));
    lemma_prefix_words(particles_magic(v), n, head_size(v), rest);
    assert(particles_body(r, v) =~= word(particles_magic(v)) + zero_words(2) + word(n) + zero_words(1)
        + word(head_size(v)) + rest);
}

// ─── The PC reader on 32-bit phone bodies ───────────────────────────────────

/// Every emitter body of `b`, as the 32-bit phone reader places them, starts
/// with the image word -1 (no image), which the PC reader takes for an
/// empty image string.
pub open spec fn blank_images(b: Seq<u8>, n: int) -> bool {
    forall|i: int| 0 <= i < n ==> int_at(b, #[trigger] emitter_pos(b, ParticlesVersion::Phone32, i)) == -1
}

/// The two readers of the 32-bit layout check the same headers.
proof fn lemma_short_heads_agree(b: Seq<u8>, i: int, n: int)
    ensures
        heads_fault(b, ParticlesVersion::PC, i, n) == heads_fault(b, ParticlesVersion::Phone32, i, n),
    decreases n - i,
{
    if 0 <= i < n {
        lemma_short_heads_agree(b, i + 1, n);
    }
}

/// An emitter body starting with the image word -1 reads the same on PC
/// and on 32-bit phones.
proof fn lemma_short_emitter_agree(b: Seq<u8>, p: int, fc: int, sc: int)
    requires
        int_at(b, p) == -1,
    ensures
        emitter_end(b, ParticlesVersion::PC, p, fc, sc) == emitter_end(b, ParticlesVersion::Phone32, p, fc, sc),
        emitter_fault(b, ParticlesVersion::PC, p, fc, sc) == emitter_fault(b, ParticlesVersion::Phone32, p, fc, sc),
        forall|e: ParticlesEmitter| #[trigger] body_read(e, b, ParticlesVersion::PC, p, fc, sc)
            == body_read(e, b, ParticlesVersion::Phone32, p, fc, sc),
{
    let pc = ParticlesVersion::PC;
    let ph = ParticlesVersion::Phone32;
    assert(image_end(b, pc, p) == image_end(b, ph, p));
    assert(image_fault(b, pc, p) == image_fault(b, ph, p));
    assert(str_chars(b, p) =~= Seq::<char>::empty());
    assert(image_value(b, pc, p) == image_value(b, ph, p));
    let s = system_run_at(b, pc, p);
    assert(s == system_run_at(b, ph, p));
    assert(fields_at(b, s) == fields_at(b, s));
    assert(sys_fields_at(b, pc, s, fc) == sys_fields_at(b, ph, s, fc));
    assert(particle_run_at(b, pc, s, fc, sc) == particle_run_at(b, ph, s, fc, sc));
    assert(tail_fault(b, pc, s, fc, sc) == tail_fault(b, ph, s, fc, sc));
    assert forall|e: ParticlesEmitter| #[trigger] body_read(e, b, pc, p, fc, sc) == body_read(e, b, ph, p, fc, sc) by {
        assert(intro_read(e, b, pc, p) == intro_read(e, b, ph, p));
        assert(fields_read(e.field, b, pc, fields_at(b, s), fc) == fields_read(e.field, b, ph, fields_at(b, s), fc));
        assert(fields_read(e.system_field, b, pc, sys_fields_at(b, pc, s, fc), sc)
            == fields_read(e.system_field, b, ph, sys_fields_at(b, ph, s, fc), sc));
        assert(tail_read(e, b, pc, s, fc, sc) == tail_read(e, b, ph, s, fc, sc));
    }
}

/// The two readers place the bodies alike.
proof fn lemma_short_pos_agree(b: Seq<u8>, n: int, i: int)
    requires
        blank_images(b, n),
        0 <= i <= n,
    ensures
        emitter_pos(b, ParticlesVersion::PC, i) == emitter_pos(b, ParticlesVersion::Phone32, i),
    decreases i,
{
    if i > 0 {
        lemma_short_pos_agree(b, n, i - 1);
        let p = emitter_pos(b, ParticlesVersion::Phone32, i - 1);
        assert(int_at(b, p) == -1);
        lemma_short_emitter_agree(b, p, field_count(b, ParticlesVersion::Phone32, i - 1),
            sys_count(b, ParticlesVersion::Phone32, i - 1));
    }
}

/// The two readers check the bodies alike.
proof fn lemma_short_bodies_agree(b: Seq<u8>, i: int, n: int)
    requires
        blank_images(b, n),
    ensures
        bodies_fault(b, ParticlesVersion::PC, i, n) == bodies_fault(b, ParticlesVersion::Phone32, i, n),
    decreases n - i,
{
    if 0 <= i < n {
        lemma_short_bodies_agree(b, i + 1, n);
        lemma_short_pos_agree(b, n, i);
        let p = emitter_pos(b, ParticlesVersion::Phone32, i);
        assert(int_at(b, p) == -1);
        lemma_short_emitter_agree(b, p, field_count(b, ParticlesVersion::Phone32, i),
            sys_count(b, ParticlesVersion::Phone32, i));
    }
}

/// On a 32-bit layout body whose emitters have no image, the PC reader
/// faults and reads exactly as the 32-bit phone reader.
pub proof fn lemma_short_readers_agree(b: Seq<u8>)
    requires
        blank_images(b, emitter_count(b, ParticlesVersion::Phone32)),
    ensures
        body_fault(b, ParticlesVersion::PC) == body_fault(b, ParticlesVersion::Phone32),
        forall|r: Particles| #[trigger] particles_read(r, b, ParticlesVersion::PC)
            == particles_read(r, b, ParticlesVersion::Phone32),
{
    let n = emitter_count(b, ParticlesVersion::Phone32);
    lemma_short_heads_agree(b, 0, n);
    lemma_short_bodies_agree(b, 0, n);
    assert forall|r: Particles| #[trigger] particles_read(r, b, ParticlesVersion::PC)
        == particles_read(r, b, ParticlesVersion::Phone32) by {
        assert forall|i: int| 0 <= i < n implies
            body_read(r.emitters@[i], b, ParticlesVersion::PC, emitter_pos(b, ParticlesVersion::PC, i),
                field_count(b, ParticlesVersion::PC, i), sys_count(b, ParticlesVersion::PC, i))
            == body_read(r.emitters@[i], b, ParticlesVersion::Phone32, emitter_pos(b, ParticlesVersion::Phone32, i),
                field_count(b, ParticlesVersion::Phone32, i), sys_count(b, ParticlesVersion::Phone32, i)) by {
            lemma_short_pos_agree(b, n, i);
            let p = emitter_pos(b, ParticlesVersion::Phone32, i);
            assert(int_at(b, p) == -1);
            lemma_short_emitter_agree(b, p, field_count(b, ParticlesVersion::Phone32, i),
                sys_count(b, ParticlesVersion::Phone32, i));
        }
        assert forall|i: int| 0 <= i < n implies head_read(#[trigger] r.emitters@[i], b, ParticlesVersion::PC, i)
            == head_read(r.emitters@[i], b, ParticlesVersion::Phone32, i) by {
        }
    }
}

/// A 32-bit phone body written for emitters without images starts each
/// emitter body with the image word -1.
#[verifier::spinoff_prover]
pub proof fn lemma_written_blank_images(r: Particles)
    requires
        particles_ok(r, ParticlesVersion::Phone32),
        forall|i: int| 0 <= i < r.emitters@.len() ==> (#[trigger] r.emitters@[i]).image is None,
    ensures
        emitter_count(particles_body(r, ParticlesVersion::Phone32), ParticlesVersion::Phone32) == r.emitters@.len(),
        blank_images(particles_body(r, ParticlesVersion::Phone32), r.emitters@.len() as int),
{
    let v = ParticlesVersion::Phone32;
    let b = particles_body(r, v);
    let es = r.emitters@;
    let n = es.len() as int;
    let h = particles_head_bytes(r, v);
    let hs = concat_map(es, emitter_head_fn(v));
    let bs = concat_map(es, emitter_body_fn(v));
    assert(b.subrange(0, b.len() as int) =~= b);
    assert(holds_at(b, 0, h + hs + bs));
    lemma_at_split(b, 0, h + hs, bs);
    lemma_at_split(b, 0, h, hs);
    lemma_particles_head(b, r, v);
    let w = head_size(v) as nat;
    assert forall|x: ParticlesEmitter| #[trigger] emitter_head_fn(v)(x).len() == w by {
        lemma_head_len(x, v);
    }
    lemma_concat_map_uniform(es, emitter_head_fn(v), w, n);
    assert(es.take(n) =~= es);
    assert(bodies_at(b, v) == h.len() + hs.len());
    assert forall|i: int| 0 <= i < n implies int_at(b, #[trigger] emitter_pos(b, v, i)) == -1 by {
        lemma_emitter_pos(b, v, es, i);
        lemma_concat_map_at(b, bodies_at(b, v), es, emitter_body_fn(v), i);
        lemma_blank_body(b, emitter_pos(b, v, i), es[i]);
    }
}

/// A 32-bit phone emitter body without an image starts with the word -1.
proof fn lemma_blank_body(b: Seq<u8>, p: int, e: ParticlesEmitter)
    requires
        holds_at(b, p, emitter_body_bytes(e, ParticlesVersion::Phone32)),
        e.image is None,
    ensures
        int_at(b, p) == -1,
{
    let v = ParticlesVersion::Phone32;
    let rest = string_bytes(e.name) + nodes_bytes(e.system_duration) + string_bytes(e.on_duration)
        + concat_map(system_tracks(e), nodes_fn()) + fields_bytes(e.field, v)
        + fields_bytes(e.system_field, v) + concat_map(particle_tracks(e), nodes_fn());
    assert(emitter_body_bytes(e, v) =~= word(-1) + rest);
    lemma_at_split(b, p, word(-1), rest);
    lemma_at_word(b, p, -1);
}

/// A body whose word at 8 is zero and whose word at 12 is not `0x164` is
/// refused, without an abort, by the readers of the 32-bit layout.
proof fn lemma_short_layout_refuses(b: Seq<u8>, v: ParticlesVersion)
    requires
        !is_p64(v),
        b.len() >= 24,
        int_at(b, 8) == 0,
        int_at(b, 12) != 0x164,
    ensures
        body_fault(b, v) == Some(Some(ParticlesError::UnsupportedFormat(0x164u32, 0u32))),
{
}

/// The PC and 32-bit phone readers refuse a 64-bit phone body: the word
/// they take as the header size is its emitter count.
pub proof fn lemma_phone64_not_short(r: Particles)
    requires
        r.emitters@.len() <= i32::MAX,
        r.emitters@.len() != 0x164,
    ensures
        body_fault(particles_body(r, ParticlesVersion::Phone64), ParticlesVersion::PC)
            == Some(Some(ParticlesError::UnsupportedFormat(0x164u32, 0u32))),
        body_fault(particles_body(r, ParticlesVersion::Phone64), ParticlesVersion::Phone32)
            == Some(Some(ParticlesError::UnsupportedFormat(0x164u32, 0u32))),
{
    lemma_phone64_head_words(r);
    let b = particles_body(r, ParticlesVersion::Phone64);
    lemma_short_layout_refuses(b, ParticlesVersion::PC);
    lemma_short_layout_refuses(b, ParticlesVersion::Phone32);
}

} // verus!
