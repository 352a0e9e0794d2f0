//! Reading Particles bodies.
use vstd::prelude::*;
use vstd::string::*;
use crate::bytes::{read_le32, read_le_i32};
use crate::particles::{
    node_read, nodes_end, nodes_fault, nodes_read, run_fault, run_pos, run_read, str_bytes,
    str_chars, str_end, str_fault, str_value, unless, opt_view, ParticlesError, ParticlesTrackNode,
    ParticlesField, ParticlesEmitter, ParticlesVersion, fields_fault, fields_end, fields_read,
    field_heads_len, head_fault, head_read, field_count, sys_count, head_pos, head_size,
    blank_body, image_fault, image_end, image_value, emitter_fault, emitter_end, body_read,
    same_head, system_tracks, particle_tracks, intro_fault, intro_read, system_run_at, tail_fault,
    tail_read, tail_end, body_fault, particles_read, Particles, emitter_count, heads_fault,
    bodies_at, bodies_fault, emitter_pos, payload, variant_fault, decoded_as,
};
use crate::zlib::inflate;
use crate::text::push_signed_decimal;
use crate::reanim::{int_at, trim_nul};
use crate::text::string_from_utf8;

verus! {

/// The `i32` at `p`, or `Io` when the data ends first.
pub(crate) fn read_int(b: &[u8], p: usize) -> (res: Result<i32, ParticlesError>)
    ensures
        res is Ok <==> p + 4 <= b@.len(),
        res matches Ok(x) ==> x as int == int_at(b@, p as int),
        res matches Err(e) ==> e == ParticlesError::Io,
{
    if p <= b.len() && b.len() - p >= 4 {
        Ok(read_le_i32(b, p))
    } else {
        Err(ParticlesError::Io)
    }
}

proof fn lemma_trim_step(s: Seq<u8>, k: int)
    requires
        0 < k <= s.len(),
        s[k - 1] == 0,
    ensures
        trim_nul(s.take(k)) == trim_nul(s.take(k - 1)),
{
    assert(s.take(k).drop_last() =~= s.take(k - 1));
}

/// The string at `p` (none when empty) and where it ends.
pub(crate) fn read_str(b: &[u8], p: usize) -> (res: Result<(Option<String>, usize), ParticlesError>)
    ensures
        res is Err <==> str_fault(b@, p as int) is Some,
        res matches Err(e) ==> str_fault(b@, p as int) == Some(e),
        res matches Ok((s, q)) ==> q == str_end(b@, p as int) && opt_view(s) == str_value(b@, p as int),
{
    let _len = b.len();
    let l = match read_int(b, p) {
        Ok(l) => l,
        Err(e) => return Err(e),
    };
    if l <= 0 {
        assert(str_chars(b@, p as int) =~= Seq::<char>::empty());
        return Ok((None, p + 4));
    }
    let start = p + 4;
    if (l as usize) > b.len() - start {
        return Err(ParticlesError::Io);
    }
    let full = start + l as usize;
    let ghost s = b@.subrange(start as int, full as int);
    assert(s.take(full - start) =~= s);
    let mut end = full;
    while end > start && b[end - 1] == 0
        invariant
            start <= end <= full,
            full <= b@.len(),
            s == b@.subrange(start as int, full as int),
            trim_nul(s) == trim_nul(s.take(end - start)),
        decreases end,
    {
        proof {
            lemma_trim_step(s, end - start);
        }
        end = end - 1;
    }
    proof {
        assert(s.take(full - start) =~= s);
        let t = s.take(end - start);
        if t.len() > 0 {
            assert(t.last() == b@[end - 1]);
        }
        assert(trim_nul(t) == t);
        assert(t =~= b@.subrange(start as int, end as int));
    }
    let mut bytes: Vec<u8> = Vec::new();
    let mut k = start;
    while k < end
        invariant
            start <= k <= end,
            end <= b@.len(),
            bytes@ == b@.subrange(start as int, k as int),
        decreases end - k,
    {
        bytes.push(b[k]);
        k = k + 1;
        assert(bytes@ =~= b@.subrange(start as int, k as int));
    }
    assert(bytes@ == str_bytes(b@, p as int));
    match string_from_utf8(bytes) {
        None => Err(ParticlesError::StringDecodeError),
        Some(text) => {
            if text.as_str().unicode_len() == 0 {
                Ok((None, full))
            } else {
                Ok((Some(text), full))
            }
        },
    }
}

/// The node at `q`, which the data holds.
fn read_node(b: &[u8], q: usize) -> (n: ParticlesTrackNode)
    requires
        q + 20 <= b@.len(),
    ensures
        node_read(n, b@, q as int),
{
    let _len = b.len();
    let time = read_le32(b, q);
    let lo = read_le32(b, q + 4);
    let hi = read_le32(b, q + 8);
    let curve = read_le_i32(b, q + 12);
    let dist = read_le_i32(b, q + 16);
    ParticlesTrackNode {
        time,
        low_value: if lo % 0x8000_0000 == 0 { None } else { Some(lo) },
        high_value: if hi % 0x8000_0000 == 0 { None } else { Some(hi) },
        curve_type: if curve == 1 { None } else { Some(curve) },
        distribution: if dist == 1 { None } else { Some(dist) },
    }
}

/// The node list at `p` (none for a count of zero) and where it ends.
pub(crate) fn read_nodes(b: &[u8], p: usize) -> (res: Result<(Option<Vec<ParticlesTrackNode>>, usize), Option<ParticlesError>>)
    ensures
        res is Err <==> nodes_fault(b@, p as int) is Some,
        res matches Err(e) ==> nodes_fault(b@, p as int) == Some(e),
        res matches Ok((o, q)) ==> q == nodes_end(b@, p as int) && nodes_read(o, b@, p as int),
{
    let _len = b.len();
    let c = match read_int(b, p) {
        Ok(c) => c,
        Err(e) => return Err(Some(e)),
    };
    if c < 0 {
        return Err(None);
    }
    if c == 0 {
        return Ok((None, p + 4));
    }
    let start = p + 4;
    if (c as u64) * 20 > (b.len() - start) as u64 {
        return Err(Some(ParticlesError::Io));
    }
    let n = c as usize;
    let mut nodes: Vec<ParticlesTrackNode> = Vec::new();
    let mut j: usize = 0;
    while j < n
        invariant
            j <= n,
            n == int_at(b@, p as int),
            start == p + 4,
            start + 20 * n <= b@.len(),
            b@.len() <= usize::MAX,
            nodes@.len() == j,
            forall|i: int| 0 <= i < j ==> #[trigger] node_read(nodes@[i], b@, start + 20 * i),
        decreases n - j,
    {
        nodes.push(read_node(b, start + 20 * j));
        j = j + 1;
    }
    Ok((Some(nodes), start + 20 * n))
}

/// Reading node lists `j` to `k` faults first where reading all of them does.
proof fn lemma_run_fault_step(b: Seq<u8>, p: int, j: int, k: int)
    requires
        0 <= j < k,
        nodes_fault(b, run_pos(b, p, j)) is None,
    ensures
        run_fault(b, p, j, k) == run_fault(b, p, j + 1, k),
{
}

/// `k` consecutive node lists starting at `p` and where they end.
pub(crate) fn read_run(b: &[u8], p: usize, k: usize) -> (res: Result<(Vec<Option<Vec<ParticlesTrackNode>>>, usize), Option<ParticlesError>>)
    ensures
        res is Err <==> run_fault(b@, p as int, 0, k as int) is Some,
        res matches Err(e) ==> run_fault(b@, p as int, 0, k as int) == Some(e),
        res matches Ok((s, q)) ==> q == run_pos(b@, p as int, k as int) && run_read(s@, b@, p as int, k as int),
{
    let mut out: Vec<Option<Vec<ParticlesTrackNode>>> = Vec::new();
    let mut q = p;
    let mut j: usize = 0;
    while j < k
        invariant
            j <= k,
            q == run_pos(b@, p as int, j as int),
            run_fault(b@, p as int, 0, k as int) == run_fault(b@, p as int, j as int, k as int),
            out@.len() == j,
            forall|i: int| 0 <= i < j ==> #[trigger] nodes_read(out@[i], b@, run_pos(b@, p as int, i)),
        decreases k - j,
    {
        match read_nodes(b, q) {
            Err(e) => return Err(e),
            Ok((o, q2)) => {
                proof {
                    lemma_run_fault_step(b@, p as int, j as int, k as int);
                }
                out.push(o);
                q = q2;
            },
        }
        j = j + 1;
    }
    Ok((out, q))
}

/// A list of `c` fields at `p` (none when `c` is zero) and where it ends.
pub(crate) fn read_fields(b: &[u8], v: ParticlesVersion, p: usize, c: i32)
    -> (res: Result<(Option<Vec<ParticlesField>>, usize), Option<ParticlesError>>)
    requires
        0 <= c,
    ensures
        res is Err <==> fields_fault(b@, v, p as int, c as int) is Some,
        res matches Err(e) ==> fields_fault(b@, v, p as int, c as int) == Some(e),
        res matches Ok((o, q)) ==> q == fields_end(b@, v, p as int, c as int)
            && fields_read(o, b@, v, p as int, c as int),
{
    let _len = b.len();
    let m = match read_int(b, p) {
        Ok(m) => m,
        Err(e) => return Err(Some(e)),
    };
    let p64 = v == ParticlesVersion::Phone64;
    let size: i32 = if p64 { 0x18 } else { 0x14 };
    if m != size {
        return Err(Some(ParticlesError::UnsupportedFormat(size as u32, 0)));
    }
    let start = p + 4;
    let n = c as usize;
    let heads: u64 = if p64 { 0x18 * (n as u64) } else { 0x14 * (n as u64) };
    if heads > (b.len() - start) as u64 {
        return Err(Some(ParticlesError::Io));
    }
    assert(heads == field_heads_len(v, c as int));
    let mut types: Vec<Option<i32>> = Vec::new();
    let mut k: usize = 0;
    while k < n
        invariant
            k <= n,
            n == c,
            start == p + 4,
            p64 == (v == ParticlesVersion::Phone64),
            start + field_heads_len(v, n as int) <= b@.len(),
            b@.len() <= usize::MAX,
            types@.len() == k,
            forall|i: int| 0 <= i < k ==> #[trigger] types@[i] == unless(int_at(b@, start + field_heads_len(v, i)), 0),
        decreases n - k,
    {
        let off = if p64 { 0x18 * k } else { 0x14 * k };
        assert(off == field_heads_len(v, k as int));
        let t = read_le_i32(b, start + off);
        types.push(if t == 0 { None } else { Some(t) });
        k = k + 1;
    }
    let q0 = start + heads as usize;
    let (mut run, q) = match read_run(b, q0, 2 * n) {
        Ok(r) => r,
        Err(e) => return Err(e),
    };
    if n == 0 {
        return Ok((None, q));
    }
    let ghost all = run@;
    let mut fields: Vec<ParticlesField> = Vec::new();
    let mut k: usize = 0;
    while k < n
        invariant
            k <= n,
            n == c,
            types@.len() == n,
            all.len() == 2 * n,
            run@ == all.subrange(2 * k, 2 * n),
            fields@.len() == k,
            forall|i: int| 0 <= i < k ==> {
                &&& (#[trigger] fields@[i]).field_type == types@[i]
                &&& fields@[i].x == all[2 * i]
                &&& fields@[i].y == all[2 * i + 1]
            },
        decreases n - k,
    {
        let x = run.remove(0);
        let y = run.remove(0);
        fields.push(ParticlesField { field_type: types[k], x, y });
        k = k + 1;
        assert(run@ =~= all.subrange(2 * k, 2 * n));
    }
    Ok((Some(fields), q))
}

/// An emitter holding the values of header `i`, and its field counts.
pub(crate) fn read_head(b: &[u8], v: ParticlesVersion, i: usize) -> (res: Result<(ParticlesEmitter, i32, i32), Option<ParticlesError>>)
    requires
        i <= i32::MAX,
    ensures
        res is Err <==> head_fault(b@, v, i as int) is Some,
        res matches Err(e) ==> head_fault(b@, v, i as int) == Some(e),
        res matches Ok((e, fc, sc)) ==> {
            &&& head_read(e, b@, v, i as int)
            &&& blank_body(e)
            &&& fc == field_count(b@, v, i as int) && sc == sys_count(b@, v, i as int)
            &&& fc >= 0 && sc >= 0
            &&& head_pos(v, i as int) + head_size(v) <= b@.len()
        },
{
    let len = b.len();
    let p64 = v == ParticlesVersion::Phone64;
    let q: u64 = if p64 { 24 + 0x2B0 * (i as u64) } else { 16 + 0x164 * (i as u64) };
    assert(q == head_pos(v, i as int));
    let fca: u64 = if p64 { 408 } else { 216 };
    let sca: u64 = if p64 { 424 } else { 224 };
    let hs: u64 = if p64 { 0x2B0 } else { 0x164 };
    let grid: u64 = if p64 { 8 } else { 4 };
    if q + fca + 4 > len as u64 {
        return Err(Some(ParticlesError::Io));
    }
    let fc = read_le_i32(b, (q + fca) as usize);
    if fc < 0 {
        return Err(None);
    }
    if q + sca + 4 > len as u64 {
        return Err(Some(ParticlesError::Io));
    }
    let sc = read_le_i32(b, (q + sca) as usize);
    if sc < 0 {
        return Err(None);
    }
    if q + hs > len as u64 {
        return Err(Some(ParticlesError::Io));
    }
    let g = (q + grid) as usize;
    let col = read_le_i32(b, g);
    let row = read_le_i32(b, g + 4);
    let frames = read_le_i32(b, g + 8);
    let animated = read_le_i32(b, g + 12);
    let flags = read_le_i32(b, g + 16);
    let etype = read_le_i32(b, g + 20);
    let mut e = ParticlesEmitter::default();
    e.image_col = if col == 0 { None } else { Some(col) };
    e.image_row = if row == 0 { None } else { Some(row) };
    e.image_frames = if frames == 1 { None } else { Some(frames) };
    e.animated = if animated == 0 { None } else { Some(animated) };
    e.particle_flags = flags;
    e.emitter_type = if etype == 1 { None } else { Some(etype) };
    Ok((e, fc, sc))
}

/// The last item, taken out.
fn take_last<T>(v: &mut Vec<T>) -> (x: T)
    requires
        old(v)@.len() > 0,
    ensures
        x == old(v)@.last(),
        final(v)@ == old(v)@.drop_last(),
{
    v.pop().unwrap()
}

/// The image of an emitter at `p` and where it ends.
fn read_image(b: &[u8], v: ParticlesVersion, p: usize) -> (res: Result<(Option<String>, usize), ParticlesError>)
    ensures
        res is Err <==> image_fault(b@, v, p as int) is Some,
        res matches Err(e) ==> image_fault(b@, v, p as int) == Some(e),
        res matches Ok((s, q)) ==> q == image_end(b@, v, p as int) && opt_view(s) == image_value(b@, v, p as int),
{
    if v == ParticlesVersion::PC {
        return read_str(b, p);
    }
    let _len = b.len();
    match read_int(b, p) {
        Err(e) => Err(e),
        Ok(x) => {
            if x == -1 {
                Ok((None, p + 4))
            } else {
                let mut t = String::new();
                push_signed_decimal(&mut t, x as i64);
                Ok((Some(t), p + 4))
            }
        },
    }
}

/// The image, name, duration track and on-duration of an emitter at `p`,
/// set into `e`, and where they end.
fn read_intro(b: &[u8], v: ParticlesVersion, p: usize, e: &mut ParticlesEmitter) -> (res: Result<usize, Option<ParticlesError>>)
    ensures
        res is Err <==> intro_fault(b@, v, p as int) is Some,
        res matches Err(x) ==> intro_fault(b@, v, p as int) == Some(x),
        res matches Ok(q) ==> {
            &&& q == system_run_at(b@, v, p as int)
            &&& intro_read(*final(e), b@, v, p as int)
            &&& same_head(*final(e), *old(e))
            &&& system_tracks(*final(e)) == system_tracks(*old(e))
            &&& particle_tracks(*final(e)) == particle_tracks(*old(e))
            &&& final(e).field == old(e).field && final(e).system_field == old(e).system_field
        },
{
    let (image, q) = match read_image(b, v, p) {
        Ok(r) => r,
        Err(x) => return Err(Some(x)),
    };
    let (name, q) = match read_str(b, q) {
        Ok(r) => r,
        Err(x) => return Err(Some(x)),
    };
    let (duration, q) = match read_nodes(b, q) {
        Ok(r) => r,
        Err(x) => return Err(x),
    };
    let (on_duration, q) = match read_str(b, q) {
        Ok(r) => r,
        Err(x) => return Err(Some(x)),
    };
    e.image = image;
    e.image_path = None;
    e.name = name;
    e.system_duration = duration;
    e.on_duration = on_duration;
    assert(system_tracks(*e) =~= system_tracks(*old(e)));
    assert(particle_tracks(*e) =~= particle_tracks(*old(e)));
    Ok(q)
}

/// The rest of a body from its system tracks at `s`, set into `e`, and
/// where it ends.
#[verifier::rlimit(40)]
fn read_tail(b: &[u8], v: ParticlesVersion, s: usize, fc: i32, sc: i32, e: &mut ParticlesEmitter)
    -> (res: Result<usize, Option<ParticlesError>>)
    requires
        0 <= fc,
        0 <= sc,
    ensures
        res is Err <==> tail_fault(b@, v, s as int, fc as int, sc as int) is Some,
        res matches Err(x) ==> tail_fault(b@, v, s as int, fc as int, sc as int) == Some(x),
        res matches Ok(q) ==> {
            &&& q == tail_end(b@, v, s as int, fc as int, sc as int)
            &&& tail_read(*final(e), b@, v, s as int, fc as int, sc as int)
            &&& same_head(*final(e), *old(e))
            &&& final(e).image == old(e).image && final(e).image_path == old(e).image_path
            &&& final(e).name == old(e).name && final(e).on_duration == old(e).on_duration
            &&& final(e).system_duration == old(e).system_duration
        },
{
    let (mut sys, q) = match read_run(b, s, 21) {
        Ok(r) => r,
        Err(x) => return Err(x),
    };
    let ghost sys0 = sys@;
    let (field, q) = match read_fields(b, v, q, fc) {
        Ok(r) => r,
        Err(x) => return Err(x),
    };
    let (system_field, q) = match read_fields(b, v, q, sc) {
        Ok(r) => r,
        Err(x) => return Err(x),
    };
    let (mut parts, q) = match read_run(b, q, 16) {
        Ok(r) => r,
        Err(x) => return Err(x),
    };
    let ghost parts0 = parts@;
    e.launch_angle = take_last(&mut sys);
    e.launch_speed = take_last(&mut sys);
    e.system_brightness = take_last(&mut sys);
    e.system_alpha = take_last(&mut sys);
    e.system_blue = take_last(&mut sys);
    e.system_green = take_last(&mut sys);
    e.system_red = take_last(&mut sys);
    e.particle_duration = take_last(&mut sys);
    e.emitter_skew_y = take_last(&mut sys);
    e.emitter_skew_x = take_last(&mut sys);
    e.emitter_path = take_last(&mut sys);
    e.emitter_box_y = take_last(&mut sys);
    e.emitter_box_x = take_last(&mut sys);
    e.emitter_offset_y = take_last(&mut sys);
    e.emitter_offset_x = take_last(&mut sys);
    e.emitter_radius = take_last(&mut sys);
    e.spawn_max_launched = take_last(&mut sys);
    e.spawn_max_active = take_last(&mut sys);
    e.spawn_min_active = take_last(&mut sys);
    e.spawn_rate = take_last(&mut sys);
    e.cross_fade_duration = take_last(&mut sys);
    e.field = field;
    e.system_field = system_field;
    e.animation_rate = take_last(&mut parts);
    e.clip_right = take_last(&mut parts);
    e.clip_left = take_last(&mut parts);
    e.clip_bottom = take_last(&mut parts);
    e.clip_top = take_last(&mut parts);
    e.collision_spin = take_last(&mut parts);
    e.collision_reflect = take_last(&mut parts);
    e.particle_stretch = take_last(&mut parts);
    e.particle_scale = take_last(&mut parts);
    e.particle_spin_speed = take_last(&mut parts);
    e.particle_spin_angle = take_last(&mut parts);
    e.particle_brightness = take_last(&mut parts);
    e.particle_alpha = take_last(&mut parts);
    e.particle_blue = take_last(&mut parts);
    e.particle_green = take_last(&mut parts);
    e.particle_red = take_last(&mut parts);
    assert(system_tracks(*e) =~= sys0);
    assert(particle_tracks(*e) =~= parts0);
    Ok(q)
}

/// The body of an emitter at `p` with `fc` fields and `sc` system fields,
/// set into `e`, and where it ends.
pub(crate) fn read_body(b: &[u8], v: ParticlesVersion, p: usize, e: &mut ParticlesEmitter, fc: i32, sc: i32)
    -> (res: Result<usize, Option<ParticlesError>>)
    requires
        0 <= fc,
        0 <= sc,
    ensures
        res is Err <==> emitter_fault(b@, v, p as int, fc as int, sc as int) is Some,
        res matches Err(x) ==> emitter_fault(b@, v, p as int, fc as int, sc as int) == Some(x),
        res matches Ok(q) ==> {
            &&& q == emitter_end(b@, v, p as int, fc as int, sc as int)
            &&& body_read(*final(e), b@, v, p as int, fc as int, sc as int)
            &&& same_head(*final(e), *old(e))
        },
{
    let s = match read_intro(b, v, p, e) {
        Ok(s) => s,
        Err(x) => return Err(x),
    };
    read_tail(b, v, s, fc, sc, e)
}

/// Decodes a body of variant `v`.
#[verifier::rlimit(30)]
#[verifier::spinoff_prover]
pub(crate) fn decode_body(b: &[u8], v: ParticlesVersion) -> (res: Result<Particles, Option<ParticlesError>>)
    ensures
        res is Err <==> body_fault(b@, v) is Some,
        res matches Err(x) ==> body_fault(b@, v) == Some(x),
        res matches Ok(r) ==> particles_read(r, b@, v),
{
    let len = b.len();
    let p64 = v == ParticlesVersion::Phone64;
    let ca: usize = if p64 { 12 } else { 8 };
    if len < ca + 4 {
        return Err(Some(ParticlesError::Io));
    }
    let n = read_le_i32(b, ca);
    assert(n as int == emitter_count(b@, v));
    if n < 0 {
        return Err(None);
    }
    let ha: usize = if p64 { 24 } else { 16 };
    if len < ha {
        return Err(Some(ParticlesError::Io));
    }
    let m = read_le_i32(b, ha - 4);
    let hs: i32 = if p64 { 0x2B0 } else { 0x164 };
    if m != hs {
        return Err(Some(ParticlesError::UnsupportedFormat(hs as u32, 0)));
    }
    let count = n as usize;
    let mut heads: Vec<ParticlesEmitter> = Vec::new();
    let mut fcs: Vec<i32> = Vec::new();
    let mut scs: Vec<i32> = Vec::new();
    let mut i: usize = 0;
    while i < count
        invariant
            i <= count,
            count == emitter_count(b@, v),
            count <= i32::MAX,
            heads_fault(b@, v, 0, count as int) == heads_fault(b@, v, i as int, count as int),
            heads@.len() == i && fcs@.len() == i && scs@.len() == i,
            head_pos(v, i as int) <= b@.len(),
            body_fault(b@, v) == (if heads_fault(b@, v, 0, count as int) is Some {
                heads_fault(b@, v, 0, count as int)
            } else {
                bodies_fault(b@, v, 0, count as int)
            }),
            forall|k: int| #![trigger heads@[k]] 0 <= k < i ==> {
                &&& head_read(heads@[k], b@, v, k)
                &&& blank_body(heads@[k])
                &&& fcs@[k] == field_count(b@, v, k) && fcs@[k] >= 0
                &&& scs@[k] == sys_count(b@, v, k) && scs@[k] >= 0
            },
        decreases count - i,
    {
        match read_head(b, v, i) {
            Err(x) => return Err(x),
            Ok((e, fc, sc)) => {
                heads.push(e);
                fcs.push(fc);
                scs.push(sc);
                assert(heads@[i as int] == e);
                assert(fcs@[i as int] == fc && scs@[i as int] == sc);
            },
        }
        i = i + 1;
    }
    let body_start: u64 = if p64 { 24 + 0x2B0 * (count as u64) } else { 16 + 0x164 * (count as u64) };
    assert(body_start == bodies_at(b@, v));
    let mut p = body_start as usize;
    let ghost all = heads@;
    let mut out: Vec<ParticlesEmitter> = Vec::new();
    let mut i: usize = 0;
    while i < count
        invariant
            i <= count,
            count == emitter_count(b@, v),
            all.len() == count && fcs@.len() == count && scs@.len() == count,
            heads@ == all.subrange(i as int, count as int),
            body_fault(b@, v) == bodies_fault(b@, v, 0, count as int),
            bodies_fault(b@, v, 0, count as int) == bodies_fault(b@, v, i as int, count as int),
            p == emitter_pos(b@, v, i as int),
            forall|k: int| #![trigger all[k]] 0 <= k < count ==> {
                &&& head_read(all[k], b@, v, k)
                &&& fcs@[k] == field_count(b@, v, k) && fcs@[k] >= 0
                &&& scs@[k] == sys_count(b@, v, k) && scs@[k] >= 0
            },
            out@.len() == i,
            forall|k: int| #![trigger out@[k]] 0 <= k < i ==> {
                &&& head_read(out@[k], b@, v, k)
                &&& body_read(out@[k], b@, v, emitter_pos(b@, v, k), field_count(b@, v, k), sys_count(b@, v, k))
            },
        decreases count - i,
    {
        let mut e = heads.remove(0);
        assert(heads@ =~= all.subrange(i + 1, count as int));
        let fc = fcs[i];
        let sc = scs[i];
        match read_body(b, v, p, &mut e, fc, sc) {
            Err(x) => return Err(x),
            Ok(q) => {
                p = q;
            },
        }
        out.push(e);
        i = i + 1;
    }
    Ok(Particles { emitters: out })
}

/// The body of a file.
fn read_payload(d: &[u8]) -> (res: Result<Vec<u8>, ParticlesError>)
    ensures
        res is Err <==> payload(d@) is Err,
        res matches Err(e) ==> payload(d@) == Err::<Seq<u8>, ParticlesError>(e),
        res matches Ok(b) ==> payload(d@) == Ok::<Seq<u8>, ParticlesError>(b@),
{
    let len = d.len();
    if len < 4 {
        return Err(ParticlesError::Io);
    }
    if read_le_i32(d, 0) != -559022380 {
        return Ok(vstd::slice::slice_to_vec(d));
    }
    if len < 8 {
        return Err(ParticlesError::Io);
    }
    let stream = vstd::slice::slice_subrange(d, 8, len);
    assert(stream@ == d@.skip(8));
    match inflate(stream) {
        Some(b) => Ok(b),
        None => Err(ParticlesError::Io),
    }
}

/// Decodes a file as variant `v`.
/// Decodes a file as variant `v`; `Err(None)` where decoding aborts.
pub(crate) fn decode_variant_checked(data: &[u8], v: ParticlesVersion) -> (res: Result<Particles, Option<ParticlesError>>)
    ensures
        res is Err <==> variant_fault(data@, v) is Some,
        res matches Err(e) ==> variant_fault(data@, v) == Some(e),
        res matches Ok(r) ==> decoded_as(r, data@, v),
{
    match read_payload(data) {
        Err(e) => Err(Some(e)),
        Ok(b) => decode_body(b.as_slice(), v),
    }
}

pub(crate) fn decode_variant(data: &[u8], v: ParticlesVersion) -> (res: Result<Particles, ParticlesError>)
    requires
        variant_fault(data@, v) != Some::<Option<ParticlesError>>(None),
    ensures
        res is Err <==> variant_fault(data@, v) is Some,
        res matches Err(e) ==> variant_fault(data@, v) == Some(Some(e)),
        res matches Ok(r) ==> decoded_as(r, data@, v),
{
    match decode_variant_checked(data, v) {
        Ok(r) => Ok(r),
        Err(Some(e)) => Err(e),
        Err(None) => {
            assert(false);
            Err(ParticlesError::Io)
        },
    }
}

} // verus!
