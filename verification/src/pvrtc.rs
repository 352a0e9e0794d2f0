//! PVRTC 4 bits-per-pixel decoding of square power-of-two textures.
//!
//! Each 64-bit packet covers a 4x4 block: 32 bits of 2-bit modulation values,
//! then a punch-through flag, colour A (14 bits plus an opacity flag) and
//! colour B (15 bits plus an opacity flag). A texel blends the A and B
//! colours of the four nearest packets bilinearly and then mixes the two
//! results by its modulation value.
use vstd::prelude::*;
use crate::color::Rgba32;

verus! {

/// Index of block `(x, y)` in the twiddled (Morton) packet order: the bits
/// of `y` go to the even positions and those of `x` to the odd ones.
pub open spec fn morton(x: nat, y: nat) -> nat
    decreases x + y,
{
    if x == 0 && y == 0 {
        0
    } else {
        (y % 2) + 2 * (x % 2) + 4 * morton(x / 2, y / 2)
    }
}

pub open spec fn scale5(v: int) -> int { v * 8 + v / 4 }
pub open spec fn scale4(v: int) -> int { v * 17 }
pub open spec fn scale3(v: int) -> int { v * 32 + v * 4 + v / 2 }

/// Colour A of a packet as `(r, g, b, a)`.
pub open spec fn color_a(word: u64) -> (int, int, int, int) {
    let c = ((word / 0x2_0000_0000) % 0x4000) as int;
    let opaque = (word / 0x8000_0000_0000) % 2 == 1;
    if opaque {
        (scale5(c / 512), scale5((c / 16) % 32), scale4(c % 16), 255)
    } else {
        (scale4((c / 128) % 16), scale4((c / 8) % 16), scale3(c % 8), scale3((c / 2048) % 8))
    }
}

/// Colour B of a packet as `(r, g, b, a)`.
pub open spec fn color_b(word: u64) -> (int, int, int, int) {
    let c = ((word / 0x1_0000_0000_0000) % 0x8000) as int;
    let opaque = word / 0x8000_0000_0000_0000 == 1;
    if opaque {
        (scale5(c / 1024), scale5((c / 32) % 32), scale5(c % 32), 255)
    } else {
        (scale4((c / 256) % 16), scale4((c / 16) % 16), scale4(c % 16), scale3((c / 4096) % 8))
    }
}

/// Bilinear weight `j` (0 to 3) for the texel at position `k = py * 4 + px`
/// of a block.
pub open spec fn bilinear(k: int, j: int) -> int {
    let t = seq![
        seq![4int, 4, 4, 4], seq![2int, 6, 2, 6], seq![8int, 0, 8, 0], seq![6int, 2, 6, 2],
        seq![2int, 2, 6, 6], seq![1int, 3, 3, 9], seq![4int, 0, 12, 0], seq![3int, 1, 9, 3],
        seq![8int, 8, 0, 0], seq![4int, 12, 0, 0], seq![16int, 0, 0, 0], seq![12int, 4, 0, 0],
        seq![6int, 6, 2, 2], seq![3int, 9, 1, 3], seq![12int, 0, 4, 0], seq![9int, 3, 3, 1]
    ];
    t[k][j]
}

/// Modulation weight `j` (colour A, colour B, alpha A, alpha B) for
/// modulation value `m` with or without punch-through alpha.
pub open spec fn mod_weight(punch: bool, m: int, j: int) -> int {
    let t = if punch {
        seq![seq![8int, 0, 8, 0], seq![4int, 4, 4, 4], seq![4int, 4, 0, 0], seq![0int, 8, 0, 8]]
    } else {
        seq![seq![8int, 0, 8, 0], seq![5int, 3, 5, 3], seq![3int, 5, 3, 5], seq![0int, 8, 0, 8]]
    };
    t[m][j]
}

/// Channel `c` (0 to 3) of an `(r, g, b, a)` tuple.
pub open spec fn chan(t: (int, int, int, int), c: int) -> int {
    if c == 0 { t.0 } else if c == 1 { t.1 } else if c == 2 { t.2 } else { t.3 }
}

/// The packet word of block `(x, y)`.
pub open spec fn packet_at(words: Seq<u64>, x: int, y: int) -> u64 {
    words[morton(x as nat, y as nat) as int]
}

/// Colour A (`b == false`) or B of a packet.
pub open spec fn packet_color(w: u64, b: bool) -> (int, int, int, int) {
    if b { color_b(w) } else { color_a(w) }
}

/// Channel `c` of the bilinearly interpolated colour A (`b == false`) or B
/// around texel position `k` of block `(x, y)`, in a grid of `blocks` by
/// `blocks` blocks (neighbours wrap around).
pub open spec fn interp(words: Seq<u64>, blocks: int, x: int, y: int, k: int, b: bool, c: int) -> int {
    let py = k / 4;
    let px = k % 4;
    let y0 = if py < 2 { (y + blocks - 1) % blocks } else { y };
    let y1 = (y0 + 1) % blocks;
    let x0 = if px < 2 { (x + blocks - 1) % blocks } else { x };
    let x1 = (x0 + 1) % blocks;
    chan(packet_color(packet_at(words, x0, y0), b), c) * bilinear(k, 0)
        + chan(packet_color(packet_at(words, x1, y0), b), c) * bilinear(k, 1)
        + chan(packet_color(packet_at(words, x0, y1), b), c) * bilinear(k, 2)
        + chan(packet_color(packet_at(words, x1, y1), b), c) * bilinear(k, 3)
}

/// Channel `c` of texel `k` of block `(x, y)` for modulation value `m`.
#[verifier::opaque]
pub open spec fn mix_channel(words: Seq<u64>, blocks: int, x: int, y: int, k: int, punch: bool, m: int, c: int) -> int {
    let (wa, wb) = if c == 3 { (2, 3) } else { (0, 1) };
    (interp(words, blocks, x, y, k, false, c) * mod_weight(punch, m, wa)
        + interp(words, blocks, x, y, k, true, c) * mod_weight(punch, m, wb)) / 128
}

/// `v` divided by 4, `k` times.
pub open spec fn quarter_pow(v: int, k: nat) -> int
    decreases k,
{
    if k == 0 {
        v
    } else {
        quarter_pow(v / 4, (k - 1) as nat)
    }
}

/// Texel `(tx, ty)` of a PVRTC texture `blocks * 4` texels wide and high.
#[verifier::opaque]
pub open spec fn pvrtc_texel(words: Seq<u64>, blocks: int, tx: int, ty: int) -> Rgba32 {
    let x = tx / 4;
    let y = ty / 4;
    let k = (ty % 4) * 4 + tx % 4;
    let w = packet_at(words, x, y);
    let m = quarter_pow((w % 0x1_0000_0000) as int, k as nat) % 4;
    let punch = (w / 0x1_0000_0000) % 2 == 1;
    Rgba32 {
        r: mix_channel(words, blocks, x, y, k, punch, m, 0) as u8,
        g: mix_channel(words, blocks, x, y, k, punch, m, 1) as u8,
        b: mix_channel(words, blocks, x, y, k, punch, m, 2) as u8,
        a: mix_channel(words, blocks, x, y, k, punch, m, 3) as u8,
    }
}

} // verus!

verus! {

proof fn lemma_quarter_pow_step(v: int, k: nat)
    requires
        v >= 0,
    ensures
        quarter_pow(v, k + 1) == quarter_pow(v, k) / 4,
        quarter_pow(v, k) >= 0,
    decreases k,
{
    if k > 0 {
        lemma_quarter_pow_step(v / 4, (k - 1) as nat);
        assert(quarter_pow(v, k + 1) == quarter_pow(v / 4, k));
        assert(quarter_pow(v, k) == quarter_pow(v / 4, (k - 1) as nat));
    } else {
        assert(quarter_pow(v, 1) == quarter_pow(v / 4, 0));
    }
}

pub(crate) proof fn lemma_morton_unfold(x: nat, y: nat)
    ensures
        morton(x, y) == (y % 2) + 2 * (x % 2) + 4 * morton(x / 2, y / 2),
{
}

/// `n` is a power of two.
pub open spec fn is_pow2(n: nat) -> bool
    decreases n,
{
    if n == 1 {
        true
    } else if n < 1 || n % 2 == 1 {
        false
    } else {
        is_pow2(n / 2)
    }
}

pub proof fn lemma_pow2_half(n: nat)
    requires
        is_pow2(n),
        n > 1,
    ensures
        n % 2 == 0,
        is_pow2(n / 2),
{
}

/// `morton(x, y) < side * side` when both coordinates are below the
/// power of two `side`.
pub(crate) proof fn lemma_morton_bound(x: nat, y: nat, side: nat)
    requires
        side >= 1,
        is_pow2(side),
        x < side,
        y < side,
    ensures
        morton(x, y) < side * side,
    decreases side,
{
    if side > 1 {
        assert(side % 2 == 0 && is_pow2(side / 2)) by {
            lemma_pow2_half(side);
        }
        lemma_morton_bound(x / 2, y / 2, side / 2);
        lemma_morton_unfold(x, y);
        let h = side / 2;
        let mh = morton(x / 2, y / 2);
        assert(morton(x, y) <= 3 + 4 * mh);
        assert(4 * mh + 3 < side * side) by (nonlinear_arith)
            requires
                mh < h * h,
                side == 2 * h;
        assert(morton(x, y) < side * side);
    } else {
        assert(x == 0 && y == 0);
        assert(morton(0, 0) == 0);
        assert(side * side == 1) by (nonlinear_arith) requires side == 1;
    }
}

pub open spec fn pow2_32(k: nat) -> int
    decreases k,
{
    if k == 0 { 1 } else { 2 * pow2_32((k - 1) as nat) }
}

pub open spec fn pow4(k: nat) -> int
    decreases k,
{
    if k == 0 { 1 } else { 4 * pow4((k - 1) as nat) }
}

proof fn lemma_pow2_32_step(k: nat)
    ensures
        pow2_32(k + 1) == 2 * pow2_32(k),
        pow2_32(k) >= 1,
    decreases k,
{
    if k > 0 {
        lemma_pow2_32_step((k - 1) as nat);
    }
}

pub(crate) proof fn lemma_pow4_step(k: nat)
    ensures
        pow4(k + 1) == 4 * pow4(k),
{
}

pub(crate) proof fn lemma_pow4_bound(k: nat)
    requires
        k <= 15,
    ensures
        1 <= pow4(k) <= 0x4000_0000,
    decreases 15 - k,
{
    if k < 15 {
        lemma_pow4_bound(k + 1);
        assert(pow4(k + 1) == 4 * pow4(k));
    } else {
        reveal_with_fuel(pow4, 16);
    }
}

/// Computes `morton(x, y)`.
pub(crate) fn morton_exec(x: u32, y: u32) -> (m: u64)
    requires
        x < 0x8000,
        y < 0x8000,
    ensures
        m == morton(x as nat, y as nat),
{
    proof {
        reveal_with_fuel(pow2_32, 16);
        assert(pow4(0) == 1);
    }
    let mut a: u32 = x;
    let mut b: u32 = y;
    let mut m: u64 = 0;
    let mut p: u64 = 1;
    let mut i: u32 = 0;
    while a > 0 || b > 0
        invariant
            i <= 15,
            a < 0x8000,
            b < 0x8000,
            a < pow2_32((15 - i) as nat),
            b < pow2_32((15 - i) as nat),
            p == pow4(i as nat),
            m < p,
            morton(x as nat, y as nat) == m + p * morton(a as nat, b as nat),
        decreases a + b,
    {
        proof {
            lemma_morton_unfold(a as nat, b as nat);
            if i == 15 {
                assert(pow2_32(0) == 1);
                assert(false);
            }
            lemma_pow2_32_step((14 - i) as nat);
            lemma_pow4_step(i as nat);
            lemma_pow4_bound(i as nat);
        }
        let d: u64 = (b % 2) as u64 + 2 * (a % 2) as u64;
        proof {
            assert(m + p * morton(a as nat, b as nat) == m + d * p + (4 * p) * morton((a / 2) as nat, (b / 2) as nat)) by (nonlinear_arith)
                requires morton(a as nat, b as nat) == d + 4 * morton((a / 2) as nat, (b / 2) as nat);
            assert(m + d * p < 4 * p) by (nonlinear_arith)
                requires m < p, d <= 3;
        }
        m = m + d * p;
        p = p * 4;
        a = a / 2;
        b = b / 2;
        i = i + 1;
    }
    assert(a == 0 && b == 0);
    assert(morton(a as nat, b as nat) == 0);
    assert(p * morton(a as nat, b as nat) == 0) by (nonlinear_arith)
        requires morton(a as nat, b as nat) == 0;
    m
}

} // verus!

verus! {

fn scale5_exec(v: u64) -> (r: i64)
    requires v < 32,
    ensures r == scale5(v as int), 0 <= r <= 255,
{
    (v * 8 + v / 4) as i64
}

fn scale4_exec(v: u64) -> (r: i64)
    requires v < 16,
    ensures r == scale4(v as int), 0 <= r <= 255,
{
    (v * 17) as i64
}

fn scale3_exec(v: u64) -> (r: i64)
    requires v < 8,
    ensures r == scale3(v as int), 0 <= r <= 255,
{
    (v * 32 + v * 4 + v / 2) as i64
}

fn packet_color_exec(w: u64, b: bool) -> (r: (i64, i64, i64, i64))
    ensures
        r.0 == packet_color(w, b).0,
        r.1 == packet_color(w, b).1,
        r.2 == packet_color(w, b).2,
        r.3 == packet_color(w, b).3,
        0 <= r.0 <= 255, 0 <= r.1 <= 255, 0 <= r.2 <= 255, 0 <= r.3 <= 255,
{
    if !b {
        let c = (w / 0x2_0000_0000) % 0x4000;
        if (w / 0x8000_0000_0000) % 2 == 1 {
            (scale5_exec(c / 512), scale5_exec((c / 16) % 32), scale4_exec(c % 16), 255)
        } else {
            (scale4_exec((c / 128) % 16), scale4_exec((c / 8) % 16), scale3_exec(c % 8), scale3_exec((c / 2048) % 8))
        }
    } else {
        let c = (w / 0x1_0000_0000_0000) % 0x8000;
        if w / 0x8000_0000_0000_0000 == 1 {
            (scale5_exec(c / 1024), scale5_exec((c / 32) % 32), scale5_exec(c % 32), 255)
        } else {
            (scale4_exec((c / 256) % 16), scale4_exec((c / 16) % 16), scale4_exec(c % 16), scale3_exec((c / 4096) % 8))
        }
    }
}

fn bilinear_exec(k: usize) -> (f: (i64, i64, i64, i64))
    requires
        k < 16,
    ensures
        f.0 == bilinear(k as int, 0),
        f.1 == bilinear(k as int, 1),
        f.2 == bilinear(k as int, 2),
        f.3 == bilinear(k as int, 3),
        0 <= f.0 <= 16, 0 <= f.1 <= 16, 0 <= f.2 <= 16, 0 <= f.3 <= 16,
        f.0 + f.1 + f.2 + f.3 == 16,
{
    match k {
        0 => (4, 4, 4, 4),
        1 => (2, 6, 2, 6),
        2 => (8, 0, 8, 0),
        3 => (6, 2, 6, 2),
        4 => (2, 2, 6, 6),
        5 => (1, 3, 3, 9),
        6 => (4, 0, 12, 0),
        7 => (3, 1, 9, 3),
        8 => (8, 8, 0, 0),
        9 => (4, 12, 0, 0),
        10 => (16, 0, 0, 0),
        11 => (12, 4, 0, 0),
        12 => (6, 6, 2, 2),
        13 => (3, 9, 1, 3),
        14 => (12, 0, 4, 0),
        _ => (9, 3, 3, 1),
    }
}

fn mod_weight_exec(punch: bool, m: u64) -> (w: (i64, i64, i64, i64))
    requires
        m < 4,
    ensures
        w.0 == mod_weight(punch, m as int, 0),
        w.1 == mod_weight(punch, m as int, 1),
        w.2 == mod_weight(punch, m as int, 2),
        w.3 == mod_weight(punch, m as int, 3),
        0 <= w.0 <= 8, 0 <= w.1 <= 8, 0 <= w.2 <= 8, 0 <= w.3 <= 8,
        w.0 + w.1 <= 8, w.2 + w.3 <= 8,
{
    if punch {
        match m {
            0 => (8, 0, 8, 0),
            1 => (4, 4, 4, 4),
            2 => (4, 4, 0, 0),
            _ => (0, 8, 0, 8),
        }
    } else {
        match m {
            0 => (8, 0, 8, 0),
            1 => (5, 3, 5, 3),
            2 => (3, 5, 3, 5),
            _ => (0, 8, 0, 8),
        }
    }
}

fn chan_exec(t: (i64, i64, i64, i64), c: usize) -> (v: i64)
    requires
        c < 4,
    ensures
        v == chan((t.0 as int, t.1 as int, t.2 as int, t.3 as int), c as int),
{
    if c == 0 { t.0 } else if c == 1 { t.1 } else if c == 2 { t.2 } else { t.3 }
}

/// Computes `interp` for all four channels.
pub(crate) fn interp_exec(words: &[u64], blocks: u32, x: u32, y: u32, k: usize, b: bool) -> (v: (i64, i64, i64, i64))
    requires
        1 <= blocks <= 0x2000,
        is_pow2(blocks as nat),
        x < blocks,
        y < blocks,
        k < 16,
        words@.len() >= blocks * blocks,
    ensures
        v.0 == interp(words@, blocks as int, x as int, y as int, k as int, b, 0),
        v.1 == interp(words@, blocks as int, x as int, y as int, k as int, b, 1),
        v.2 == interp(words@, blocks as int, x as int, y as int, k as int, b, 2),
        v.3 == interp(words@, blocks as int, x as int, y as int, k as int, b, 3),
        0 <= v.0 <= 4080, 0 <= v.1 <= 4080, 0 <= v.2 <= 4080, 0 <= v.3 <= 4080,
{
    reveal(interp);
    let py = k / 4;
    let px = k % 4;
    let y0 = if py < 2 { (y + blocks - 1) % blocks } else { y };
    let y1 = (y0 + 1) % blocks;
    let x0 = if px < 2 { (x + blocks - 1) % blocks } else { x };
    let x1 = (x0 + 1) % blocks;
    proof {
        lemma_morton_bound(x0 as nat, y0 as nat, blocks as nat);
        lemma_morton_bound(x1 as nat, y0 as nat, blocks as nat);
        lemma_morton_bound(x0 as nat, y1 as nat, blocks as nat);
        lemma_morton_bound(x1 as nat, y1 as nat, blocks as nat);
    }
    let c0 = packet_color_exec(words[morton_exec(x0, y0) as usize], b);
    let c1 = packet_color_exec(words[morton_exec(x1, y0) as usize], b);
    let c2 = packet_color_exec(words[morton_exec(x0, y1) as usize], b);
    let c3 = packet_color_exec(words[morton_exec(x1, y1) as usize], b);
    let f = bilinear_exec(k);
    let mut out: [i64; 4] = [0; 4];
    let mut c: usize = 0;
    while c < 4
        invariant
            0 <= c <= 4,
            forall|j: int| 0 <= j < c ==> #[trigger] out@[j] == interp(words@, blocks as int, x as int, y as int, k as int, b, j),
            forall|j: int| 0 <= j < c ==> 0 <= #[trigger] out@[j] <= 4080,
            0 <= f.0 <= 16, 0 <= f.1 <= 16, 0 <= f.2 <= 16, 0 <= f.3 <= 16,
            f.0 + f.1 + f.2 + f.3 == 16,
            f.0 == bilinear(k as int, 0), f.1 == bilinear(k as int, 1),
            f.2 == bilinear(k as int, 2), f.3 == bilinear(k as int, 3),
            0 <= c0.0 <= 255, 0 <= c0.1 <= 255, 0 <= c0.2 <= 255, 0 <= c0.3 <= 255,
            0 <= c1.0 <= 255, 0 <= c1.1 <= 255, 0 <= c1.2 <= 255, 0 <= c1.3 <= 255,
            0 <= c2.0 <= 255, 0 <= c2.1 <= 255, 0 <= c2.2 <= 255, 0 <= c2.3 <= 255,
            0 <= c3.0 <= 255, 0 <= c3.1 <= 255, 0 <= c3.2 <= 255, 0 <= c3.3 <= 255,
            (c0.0 as int, c0.1 as int, c0.2 as int, c0.3 as int) == packet_color(packet_at(words@, x0 as int, y0 as int), b),
            (c1.0 as int, c1.1 as int, c1.2 as int, c1.3 as int) == packet_color(packet_at(words@, x1 as int, y0 as int), b),
            (c2.0 as int, c2.1 as int, c2.2 as int, c2.3 as int) == packet_color(packet_at(words@, x0 as int, y1 as int), b),
            (c3.0 as int, c3.1 as int, c3.2 as int, c3.3 as int) == packet_color(packet_at(words@, x1 as int, y1 as int), b),
            py == k / 4, px == k % 4,
            y0 == (if py < 2 { (y + blocks - 1) % blocks as int } else { y as int }),
            y1 == (y0 + 1) % blocks as int,
            x0 == (if px < 2 { (x + blocks - 1) % blocks as int } else { x as int }),
            x1 == (x0 + 1) % blocks as int,
        decreases 4 - c,
    {
        let a0 = chan_exec(c0, c);
        let a1 = chan_exec(c1, c);
        let a2 = chan_exec(c2, c);
        let a3 = chan_exec(c3, c);
        proof {
            assert(0 <= a0 <= 255 && 0 <= a1 <= 255 && 0 <= a2 <= 255 && 0 <= a3 <= 255);
            assert(a0 * f.0 + a1 * f.1 + a2 * f.2 + a3 * f.3 <= 4080) by (nonlinear_arith)
                requires
                    0 <= a0 <= 255, 0 <= a1 <= 255, 0 <= a2 <= 255, 0 <= a3 <= 255,
                    0 <= f.0, 0 <= f.1, 0 <= f.2, 0 <= f.3,
                    f.0 + f.1 + f.2 + f.3 == 16;
            assert(0 <= a0 * f.0 + a1 * f.1 + a2 * f.2 + a3 * f.3) by (nonlinear_arith)
                requires
                    0 <= a0, 0 <= a1, 0 <= a2, 0 <= a3,
                    0 <= f.0, 0 <= f.1, 0 <= f.2, 0 <= f.3;
        }
        out[c] = a0 * f.0 + a1 * f.1 + a2 * f.2 + a3 * f.3;
        c = c + 1;
    }
    (out[0], out[1], out[2], out[3])
}

} // verus!

verus! {

/// Computes texel position `k` of block `(x, y)` for modulation value `m`.
fn texel_exec(words: &[u64], blocks: u32, x: u32, y: u32, k: usize, punch: bool, m: u64) -> (c: Rgba32)
    requires
        1 <= blocks <= 0x2000,
        is_pow2(blocks as nat),
        x < blocks,
        y < blocks,
        k < 16,
        m < 4,
        words@.len() >= blocks * blocks,
    ensures
        c.r == mix_channel(words@, blocks as int, x as int, y as int, k as int, punch, m as int, 0) as u8,
        c.g == mix_channel(words@, blocks as int, x as int, y as int, k as int, punch, m as int, 1) as u8,
        c.b == mix_channel(words@, blocks as int, x as int, y as int, k as int, punch, m as int, 2) as u8,
        c.a == mix_channel(words@, blocks as int, x as int, y as int, k as int, punch, m as int, 3) as u8,
{
    proof {
        reveal(mix_channel);
    }
    let wt = mod_weight_exec(punch, m);
    let ca = interp_exec(words, blocks, x, y, k, false);
    let cb = interp_exec(words, blocks, x, y, k, true);
    proof {
        assert(ca.0 * wt.0 + cb.0 * wt.1 <= 32640) by (nonlinear_arith)
            requires 0 <= ca.0 <= 4080, 0 <= cb.0 <= 4080, 0 <= wt.0, 0 <= wt.1, wt.0 + wt.1 <= 8;
        assert(ca.1 * wt.0 + cb.1 * wt.1 <= 32640) by (nonlinear_arith)
            requires 0 <= ca.1 <= 4080, 0 <= cb.1 <= 4080, 0 <= wt.0, 0 <= wt.1, wt.0 + wt.1 <= 8;
        assert(ca.2 * wt.0 + cb.2 * wt.1 <= 32640) by (nonlinear_arith)
            requires 0 <= ca.2 <= 4080, 0 <= cb.2 <= 4080, 0 <= wt.0, 0 <= wt.1, wt.0 + wt.1 <= 8;
        assert(ca.3 * wt.2 + cb.3 * wt.3 <= 32640) by (nonlinear_arith)
            requires 0 <= ca.3 <= 4080, 0 <= cb.3 <= 4080, 0 <= wt.2, 0 <= wt.3, wt.2 + wt.3 <= 8;
        assert(0 <= ca.0 * wt.0 + cb.0 * wt.1) by (nonlinear_arith)
            requires 0 <= ca.0, 0 <= cb.0, 0 <= wt.0, 0 <= wt.1;
        assert(0 <= ca.1 * wt.0 + cb.1 * wt.1) by (nonlinear_arith)
            requires 0 <= ca.1, 0 <= cb.1, 0 <= wt.0, 0 <= wt.1;
        assert(0 <= ca.2 * wt.0 + cb.2 * wt.1) by (nonlinear_arith)
            requires 0 <= ca.2, 0 <= cb.2, 0 <= wt.0, 0 <= wt.1;
        assert(0 <= ca.3 * wt.2 + cb.3 * wt.3) by (nonlinear_arith)
            requires 0 <= ca.3, 0 <= cb.3, 0 <= wt.2, 0 <= wt.3;
    }
    let r = (ca.0 * wt.0 + cb.0 * wt.1) / 128;
    let g = (ca.1 * wt.0 + cb.1 * wt.1) / 128;
    let b = (ca.2 * wt.0 + cb.2 * wt.1) / 128;
    let a = (ca.3 * wt.2 + cb.3 * wt.3) / 128;
    Rgba32::new(r as u8, g as u8, b as u8, a as u8)
}

proof fn lemma_texel_step(before: Seq<Rgba32>, after: Seq<Rgba32>, words: Seq<u64>, bl: int, size: int, y: int, x: int, k: int, tx: int, ty: int)
    requires
        0 <= tx < size,
        0 <= ty < size,
        0 <= k < 16,
        tx / 4 == x,
        ty / 4 == y,
        tx % 4 == k % 4,
        ty % 4 == k / 4,
        before.len() == size * size,
        after == before.update(ty * size + tx, pvrtc_texel(words, bl, tx, ty)),
        forall|tx2: int, ty2: int| 0 <= tx2 < size && 0 <= ty2 < size && pv_done(y, x, k, tx2, ty2)
            ==> #[trigger] before[ty2 * size + tx2] == pvrtc_texel(words, bl, tx2, ty2),
    ensures
        forall|tx2: int, ty2: int| 0 <= tx2 < size && 0 <= ty2 < size && pv_done(y, x, k + 1, tx2, ty2)
            ==> #[trigger] after[ty2 * size + tx2] == pvrtc_texel(words, bl, tx2, ty2),
{
    assert(ty * size + tx < size * size) by (nonlinear_arith)
        requires 0 <= ty < size, 0 <= tx < size;
    assert forall|tx2: int, ty2: int| 0 <= tx2 < size && 0 <= ty2 < size && pv_done(y, x, k + 1, tx2, ty2)
        implies #[trigger] after[ty2 * size + tx2] == pvrtc_texel(words, bl, tx2, ty2) by {
        assert(0 <= ty2 * size + tx2 < size * size) by (nonlinear_arith)
            requires 0 <= ty2 < size, 0 <= tx2 < size;
        if tx2 == tx && ty2 == ty {
        } else {
            assert(pv_done(y, x, k, tx2, ty2)) by {
                if ty2 / 4 == y && tx2 / 4 == x && (ty2 % 4) * 4 + tx2 % 4 == k {
                    assert(ty2 % 4 == k / 4 && tx2 % 4 == k % 4);
                    assert(tx2 == tx && ty2 == ty);
                }
            }
            assert(ty2 * size + tx2 != ty * size + tx) by (nonlinear_arith)
                requires
                    0 <= tx2 < size, 0 <= ty2 < size, 0 <= tx < size, 0 <= ty < size,
                    tx2 != tx || ty2 != ty;
        }
    }
}

} // verus!

verus! {

/// Whether texel `(tx, ty)` comes before texel position `k` of block
/// `(x, y)` in decoding order (blocks row by row, texels row by row).
pub open spec fn pv_done(y: int, x: int, k: int, tx: int, ty: int) -> bool {
    ty / 4 < y || (ty / 4 == y && (tx / 4 < x || (tx / 4 == x && (ty % 4) * 4 + tx % 4 < k)))
}

/// Decodes a square PVRTC 4bpp texture `size` texels wide from its packet
/// words (in Morton order); texels are returned row-major.
pub fn decode_4bpp(words: &[u64], size: u32) -> (out: Vec<Rgba32>)
    requires
        8 <= size <= 0x8000,
        size % 4 == 0,
        is_pow2((size / 4) as nat),
        words@.len() >= (size / 4) * (size / 4),
    ensures
        out@.len() == size * size,
        forall|tx: int, ty: int| 0 <= tx < size && 0 <= ty < size
            ==> #[trigger] out@[ty * size + tx] == pvrtc_texel(words@, (size / 4) as int, tx, ty),
{
    let blocks: u32 = size / 4;
    proof {
        assert(size * size <= 0x4000_0000) by (nonlinear_arith) requires size <= 0x8000;
    }
    let total: usize = (size as usize) * (size as usize);
    let mut out: Vec<Rgba32> = Vec::new();
    let mut n: usize = 0;
    while n < total
        invariant
            0 <= n <= total,
            out@.len() == n,
        decreases total - n,
    {
        out.push(Rgba32::zero());
        n = n + 1;
    }
    let ghost bl = blocks as int;
    let ghost sz = size as int;
    assert(size * size <= 0x4000_0000) by (nonlinear_arith) requires size <= 0x8000;
    let mut y: u32 = 0;
    while y < blocks
        invariant
            0 <= y <= blocks,
            blocks == size / 4,
            bl == blocks as int,
            size * size <= 0x4000_0000,
            8 <= size <= 0x8000,
            size % 4 == 0,
            is_pow2(blocks as nat),
            words@.len() >= blocks * blocks,
            out@.len() == size * size,
            total == size * size,
            forall|tx: int, ty: int| 0 <= tx < size && 0 <= ty < size && pv_done(y as int, 0, 0, tx, ty)
                ==> #[trigger] out@[ty * size + tx] == pvrtc_texel(words@, bl, tx, ty),
        decreases blocks - y,
    {
        let mut x: u32 = 0;
        while x < blocks
            invariant
                0 <= y < blocks,
                0 <= x <= blocks,
                blocks == size / 4,
                bl == blocks as int,
                size * size <= 0x4000_0000,
                8 <= size <= 0x8000,
                size % 4 == 0,
                is_pow2(blocks as nat),
                words@.len() >= blocks * blocks,
                out@.len() == size * size,
                forall|tx: int, ty: int| 0 <= tx < size && 0 <= ty < size && pv_done(y as int, x as int, 0, tx, ty)
                    ==> #[trigger] out@[ty * size + tx] == pvrtc_texel(words@, bl, tx, ty),
            decreases blocks - x,
        {
            proof {
                lemma_morton_bound(x as nat, y as nat, blocks as nat);
            }
            let w = words[morton_exec(x, y) as usize];
            let low: u64 = w % 0x1_0000_0000;
            let punch = (w / 0x1_0000_0000) % 2 == 1;
            let mut mo: u64 = low;
            let mut k: usize = 0;
            while k < 16
                invariant
                    0 <= y < blocks,
                    0 <= x < blocks,
                    0 <= k <= 16,
                    blocks == size / 4,
                    bl == blocks as int,
                    8 <= size <= 0x8000,
                    size % 4 == 0,
                    is_pow2(blocks as nat),
                    words@.len() >= blocks * blocks,
                    out@.len() == size * size,
                    size * size <= 0x4000_0000,
                    w == packet_at(words@, x as int, y as int),
                    low == w % 0x1_0000_0000,
                    punch == ((w / 0x1_0000_0000) % 2 == 1),
                    mo == quarter_pow(low as int, k as nat),
                    forall|tx: int, ty: int| 0 <= tx < size && 0 <= ty < size && pv_done(y as int, x as int, k as int, tx, ty)
                        ==> #[trigger] out@[ty * size + tx] == pvrtc_texel(words@, bl, tx, ty),
                decreases 16 - k,
            {
                proof {
                    lemma_quarter_pow_step(low as int, k as nat);
                }
                let m = mo % 4;
                let px = texel_exec(words, blocks, x, y, k, punch, m);
                let tx: u32 = x * 4 + (k % 4) as u32;
                let ty: u32 = y * 4 + (k / 4) as u32;
                proof {
                    assert(tx < size && ty < size);
                    assert(tx as int / 4 == x && tx as int % 4 == k as int % 4);
                    assert(ty as int / 4 == y && ty as int % 4 == k as int / 4);
                    assert((ty as int % 4) * 4 + tx as int % 4 == k);
                    reveal(pvrtc_texel);
                    let ghost wsp = packet_at(words@, tx as int / 4, ty as int / 4);
                    assert(wsp == w);
                    assert(quarter_pow((wsp % 0x1_0000_0000) as int, k as nat) % 4 == m as int);
                    let ghost kk = (ty as int % 4) * 4 + tx as int % 4;
                    let ghost pn = (wsp / 0x1_0000_0000) % 2 == 1;
                    let ghost mm = quarter_pow((wsp % 0x1_0000_0000) as int, kk as nat) % 4;
                    assert(kk == k);
                    assert(px.r == mix_channel(words@, bl, x as int, y as int, k as int, punch, m as int, 0) as u8);
                    assert(tx as int / 4 == x as int);
                    assert(ty as int / 4 == y as int);
                    assert(pn == punch);
                    assert(mm == m);
                    assert(px.r == mix_channel(words@, bl, tx as int / 4, ty as int / 4, kk, pn, mm, 0) as u8);
                    assert(px.g == mix_channel(words@, bl, tx as int / 4, ty as int / 4, kk, pn, mm, 1) as u8);
                    assert(px.b == mix_channel(words@, bl, tx as int / 4, ty as int / 4, kk, pn, mm, 2) as u8);
                    assert(px.a == mix_channel(words@, bl, tx as int / 4, ty as int / 4, kk, pn, mm, 3) as u8);
                    assert(px == pvrtc_texel(words@, bl, tx as int, ty as int));
                    assert(ty * size + tx < size * size) by (nonlinear_arith)
                        requires ty < size, tx < size;
                }
                let idx: usize = (ty as usize) * (size as usize) + tx as usize;
                let ghost before = out@;
                out.set(idx, px);
                proof {
                    lemma_texel_step(before, out@, words@, bl, size as int, y as int, x as int, k as int, tx as int, ty as int);
                }
                mo = mo / 4;
                k = k + 1;
            }
            proof {
                assert forall|tx: int, ty: int| 0 <= tx < size && 0 <= ty < size && pv_done(y as int, (x + 1) as int, 0, tx, ty)
                    implies #[trigger] out@[ty * size + tx] == pvrtc_texel(words@, bl, tx, ty) by {
                    assert(pv_done(y as int, x as int, 16, tx, ty));
                }
            }
            x = x + 1;
        }
        proof {
            assert forall|tx: int, ty: int| 0 <= tx < size && 0 <= ty < size && pv_done((y + 1) as int, 0, 0, tx, ty)
                implies #[trigger] out@[ty * size + tx] == pvrtc_texel(words@, bl, tx, ty) by {
                assert(pv_done(y as int, blocks as int, 0, tx, ty));
            }
        }
        y = y + 1;
    }
    proof {
        assert forall|tx: int, ty: int| 0 <= tx < size && 0 <= ty < size
            implies #[trigger] out@[ty * size + tx] == pvrtc_texel(words@, bl, tx, ty) by {
            assert(pv_done(blocks as int, 0, 0, tx, ty));
        }
    }
    out
}

} // verus!
