use vstd::prelude::*;
use crate::color::{Rgba32, clamp_byte, color_clamp};

verus! {

// ─── Modifier table ─────────────────────────────────────────────────────────

/// Entry `idx` (0 = small, 1 = large) of row `table` of the ETC1 intensity
/// modifier table.
pub open spec fn etc1_modifier_spec(table: int, idx: int) -> int {
    if idx == 0 {
        if table == 0 { 2 }
        else if table == 1 { 5 }
        else if table == 2 { 9 }
        else if table == 3 { 13 }
        else if table == 4 { 18 }
        else if table == 5 { 24 }
        else if table == 6 { 33 }
        else { 47 }
    } else {
        if table == 0 { 8 }
        else if table == 1 { 17 }
        else if table == 2 { 29 }
        else if table == 3 { 42 }
        else if table == 4 { 60 }
        else if table == 5 { 80 }
        else if table == 6 { 106 }
        else { 183 }
    }
}

/// Reads the ETC1 intensity modifier table.
pub fn etc1_modifier(table: usize, idx: usize) -> (m: i32)
    requires
        table < 8,
        idx < 2,
    ensures
        m == etc1_modifier_spec(table as int, idx as int),
        2 <= m <= 183,
{
    if idx == 0 {
        match table {
            0 => 2,
            1 => 5,
            2 => 9,
            3 => 13,
            4 => 18,
            5 => 24,
            6 => 33,
            _ => 47,
        }
    } else {
        match table {
            0 => 8,
            1 => 17,
            2 => 29,
            3 => 42,
            4 => 60,
            5 => 80,
            6 => 106,
            _ => 183,
        }
    }
}

// ─── Block layout (decoding) ────────────────────────────────────────────────

/// Differential mode bit of an ETC1 block word.
pub open spec fn etc1_diff(temp: u64) -> bool {
    (temp >> 33u64) & 1u64 == 1u64
}

/// Flip bit: set means the two sub-blocks are the top and bottom halves.
pub open spec fn etc1_flip(temp: u64) -> bool {
    (temp >> 32u64) & 1u64 == 1u64
}

/// Expansion of a 5-bit component to 8 bits, on the signed value the
/// differential mode can produce.
pub open spec fn expand5(c: i32) -> i32 {
    (c << 3i32) | ((c & 0x1ci32) >> 2i32)
}

/// The three-bit two's complement delta stored at `shift`.
pub open spec fn delta3(temp: u64, shift: u64) -> i32 {
    let v = (temp >> shift) & 7u64;
    if v >= 4 {
        (v - 8) as i32
    } else {
        v as i32
    }
}

/// Base colour channel `ch` (0 = red, 1 = green, 2 = blue) of the first
/// (`second == false`) or second sub-block.
pub open spec fn etc1_base(temp: u64, second: bool, ch: u64) -> i32 {
    if etc1_diff(temp) {
        let c = ((temp >> ((59 - 8 * ch) as u64)) & 0x1fu64) as i32;
        if second {
            expand5((c + delta3(temp, (56 - 8 * ch) as u64)) as i32)
        } else {
            expand5(c)
        }
    } else if second {
        (((temp >> ((56 - 8 * ch) as u64)) & 0xfu64) * 0x11) as i32
    } else {
        (((temp >> ((60 - 8 * ch) as u64)) & 0xfu64) * 0x11) as i32
    }
}

/// Whether texel `k` (stored column-major: `k = x * 4 + y`) lies in the
/// first sub-block.
pub open spec fn etc1_in_first(temp: u64, k: int) -> bool {
    if etc1_flip(temp) {
        k % 4 < 2
    } else {
        k / 4 < 2
    }
}

/// Signed intensity modifier applied to texel `k`.
pub open spec fn etc1_add(temp: u64, k: int) -> int {
    let val = ((temp >> (k as u64)) & 1u64) as int;
    let neg = (temp >> ((k + 16) as u64)) & 1u64 == 1u64;
    let table = if etc1_in_first(temp, k) {
        (temp >> 37u64) & 7u64
    } else {
        (temp >> 34u64) & 7u64
    };
    let m = etc1_modifier_spec(table as int, val);
    if neg {
        -m
    } else {
        m
    }
}

/// Colour of texel `k` (column-major `x * 4 + y`) of an ETC1 block.
pub open spec fn etc1_texel(temp: u64, k: int) -> Rgba32 {
    let second = !etc1_in_first(temp, k);
    let add = etc1_add(temp, k);
    Rgba32 {
        r: clamp_byte(etc1_base(temp, second, 0) + add),
        g: clamp_byte(etc1_base(temp, second, 1) + add),
        b: clamp_byte(etc1_base(temp, second, 2) + add),
        a: 255,
    }
}

/// Texel `k`'s selector is bits `k` and `k + 16` of the block word alone:
/// flipping either of them changes no other texel of the block.
pub proof fn lemma_selector_locality(t1: u64, t2: u64, k: u64)
    requires
        k < 16,
        t2 == t1 ^ (1u64 << k) || t2 == t1 ^ (1u64 << ((k + 16) as u64)),
    ensures
        forall|m: int| 0 <= m < 16 && m != k ==> #[trigger] etc1_texel(t2, m) == etc1_texel(t1, m),
{
    assert forall|s: u64| 32 <= s < 64 implies #[trigger] (t2 >> s) == (t1 >> s) by {
        assert(k < 16 && 32 <= s < 64 && (t2 == t1 ^ (1u64 << k) || t2 == t1 ^ (1u64 << ((k + 16) as u64)))
            ==> (t2 >> s) == (t1 >> s)) by (bit_vector);
    }
    assert(etc1_diff(t2) == etc1_diff(t1)) by { assert((t2 >> 33u64) == (t1 >> 33u64)); }
    assert(etc1_flip(t2) == etc1_flip(t1)) by { assert((t2 >> 32u64) == (t1 >> 32u64)); }
    assert((t2 >> 37u64) == (t1 >> 37u64));
    assert((t2 >> 34u64) == (t1 >> 34u64));
    assert forall|second: bool, ch: u64| ch < 3 implies #[trigger] etc1_base(t2, second, ch) == etc1_base(t1, second, ch) by {
        assert((t2 >> ((59 - 8 * ch) as u64)) == (t1 >> ((59 - 8 * ch) as u64)));
        assert((t2 >> ((56 - 8 * ch) as u64)) == (t1 >> ((56 - 8 * ch) as u64)));
        assert((t2 >> ((60 - 8 * ch) as u64)) == (t1 >> ((60 - 8 * ch) as u64)));
    }
    assert forall|m: int| 0 <= m < 16 && m != k implies #[trigger] etc1_texel(t2, m) == etc1_texel(t1, m) by {
        let mm = m as u64;
        assert(mm < 16 && k < 16 && mm != k && (t2 == t1 ^ (1u64 << k) || t2 == t1 ^ (1u64 << ((k + 16) as u64)))
            ==> (t2 >> mm) & 1u64 == (t1 >> mm) & 1u64
                && (t2 >> ((mm + 16) as u64)) & 1u64 == (t1 >> ((mm + 16) as u64)) & 1u64) by (bit_vector);
        assert(etc1_add(t2, m) == etc1_add(t1, m));
        assert(etc1_base(t2, !etc1_in_first(t2, m), 0) == etc1_base(t1, !etc1_in_first(t1, m), 0));
        assert(etc1_base(t2, !etc1_in_first(t2, m), 1) == etc1_base(t1, !etc1_in_first(t1, m), 1));
        assert(etc1_base(t2, !etc1_in_first(t2, m), 2) == etc1_base(t1, !etc1_in_first(t1, m), 2));
    }
}

proof fn lemma_expand5_range(c: i32)
    requires
        -4 <= c <= 34,
    ensures
        -32 <= expand5(c) <= 279,
{
    assert(-4i32 <= c <= 34i32 ==> -32i32 <= ((c << 3i32) | ((c & 0x1ci32) >> 2i32)) <= 279i32)
        by (bit_vector);
}

/// Computes `etc1_base(temp, second, ch)`.
fn etc1_base_exec(temp: u64, second: bool, ch: u64) -> (v: i32)
    requires
        ch < 3,
    ensures
        v == etc1_base(temp, second, ch),
        -32 <= v <= 279,
{
    let diff = (temp >> 33u64) & 1u64 == 1u64;
    if diff {
        let s1: u64 = 59 - 8 * ch;
        let raw: u64 = (temp >> s1) & 0x1fu64;
        assert(raw <= 0x1f) by (bit_vector)
            requires raw == (temp >> s1) & 0x1fu64;
        let c = raw as i32;
        if second {
            let s2: u64 = 56 - 8 * ch;
            let dv: u64 = (temp >> s2) & 7u64;
            assert(dv <= 7) by (bit_vector)
                requires dv == (temp >> s2) & 7u64;
            let d: i32 = if dv >= 4 { dv as i32 - 8 } else { dv as i32 };
            let sum: i32 = c + d;
            proof {
                lemma_expand5_range(sum);
            }
            (sum << 3i32) | ((sum & 0x1ci32) >> 2i32)
        } else {
            proof {
                lemma_expand5_range(c);
            }
            (c << 3i32) | ((c & 0x1ci32) >> 2i32)
        }
    } else {
        let s: u64 = if second { 56 - 8 * ch } else { 60 - 8 * ch };
        let nib: u64 = (temp >> s) & 0xfu64;
        assert(nib <= 0xf) by (bit_vector)
            requires nib == (temp >> s) & 0xfu64;
        (nib * 0x11) as i32
    }
}

/// Decodes one ETC1 block word into 16 texels, stored column-major
/// (`result[x * 4 + y]`).
pub fn decode_etc1(temp: u64, result: &mut [Rgba32])
    requires
        old(result)@.len() >= 16,
    ensures
        final(result)@.len() == old(result)@.len(),
        forall|k: int| 0 <= k < 16 ==> #[trigger] final(result)@[k] == etc1_texel(temp, k),
        forall|k: int| 16 <= k < old(result)@.len() ==> #[trigger] final(result)@[k] == old(result)@[k],
{
    let flipbit = (temp >> 32u64) & 1u64 == 1u64;
    let r1 = etc1_base_exec(temp, false, 0);
    let g1 = etc1_base_exec(temp, false, 1);
    let b1 = etc1_base_exec(temp, false, 2);
    let r2 = etc1_base_exec(temp, true, 0);
    let g2 = etc1_base_exec(temp, true, 1);
    let b2 = etc1_base_exec(temp, true, 2);
    let t1: u64 = (temp >> 37u64) & 7u64;
    let t2: u64 = (temp >> 34u64) & 7u64;
    assert(t1 <= 7 && t2 <= 7) by (bit_vector)
        requires t1 == (temp >> 37u64) & 7u64, t2 == (temp >> 34u64) & 7u64;
    let ghost old_result = result@;

    let mut i: usize = 0;
    while i < 4
        invariant
            0 <= i <= 4,
            result@.len() == old_result.len(),
            old_result.len() >= 16,
            flipbit == etc1_flip(temp),
            r1 == etc1_base(temp, false, 0),
            g1 == etc1_base(temp, false, 1),
            b1 == etc1_base(temp, false, 2),
            r2 == etc1_base(temp, true, 0),
            g2 == etc1_base(temp, true, 1),
            b2 == etc1_base(temp, true, 2),
            -32 <= r1 <= 279, -32 <= g1 <= 279, -32 <= b1 <= 279,
            -32 <= r2 <= 279, -32 <= g2 <= 279, -32 <= b2 <= 279,
            t1 == (temp >> 37u64) & 7u64,
            t2 == (temp >> 34u64) & 7u64,
            t1 <= 7, t2 <= 7,
            forall|k: int| 0 <= k < i * 4 ==> #[trigger] result@[k] == etc1_texel(temp, k),
            forall|k: int| 16 <= k < old_result.len() ==> #[trigger] result@[k] == old_result[k],
        decreases 4 - i,
    {
        let mut j: usize = 0;
        while j < 4
            invariant
                0 <= i < 4,
                0 <= j <= 4,
                result@.len() == old_result.len(),
                old_result.len() >= 16,
                flipbit == etc1_flip(temp),
                r1 == etc1_base(temp, false, 0),
                g1 == etc1_base(temp, false, 1),
                b1 == etc1_base(temp, false, 2),
                r2 == etc1_base(temp, true, 0),
                g2 == etc1_base(temp, true, 1),
                b2 == etc1_base(temp, true, 2),
                -32 <= r1 <= 279, -32 <= g1 <= 279, -32 <= b1 <= 279,
                -32 <= r2 <= 279, -32 <= g2 <= 279, -32 <= b2 <= 279,
                t1 == (temp >> 37u64) & 7u64,
                t2 == (temp >> 34u64) & 7u64,
                t1 <= 7, t2 <= 7,
                forall|k: int| 0 <= k < i * 4 + j ==> #[trigger] result@[k] == etc1_texel(temp, k),
                forall|k: int| 16 <= k < old_result.len() ==> #[trigger] result@[k] == old_result[k],
            decreases 4 - j,
        {
            let k: usize = i * 4 + j;
            let ku: u64 = k as u64;
            let vb: u64 = (temp >> ku) & 1u64;
            assert(vb <= 1) by (bit_vector)
                requires vb == (temp >> ku) & 1u64;
            let val: usize = vb as usize;
            let neg = ((temp >> (ku + 16)) & 1u64) == 1u64;
            let first = if flipbit { j < 2 } else { i < 2 };
            let table: u64 = if first { t1 } else { t2 };
            let m = etc1_modifier(table as usize, val);
            let add: i32 = if neg { -m } else { m };
            let px = if first {
                Rgba32::new(color_clamp(r1 + add), color_clamp(g1 + add), color_clamp(b1 + add), 255)
            } else {
                Rgba32::new(color_clamp(r2 + add), color_clamp(g2 + add), color_clamp(b2 + add), 255)
            };
            assert(first == etc1_in_first(temp, k as int));
            assert(add == etc1_add(temp, k as int));
            assert(px == etc1_texel(temp, k as int));
            result[k] = px;
            j += 1;
        }
        i += 1;
    }
}

} // verus!

verus! {

// ─── Palette alpha ──────────────────────────────────────────────────────────

/// Palette entry stored for the nibble byte `p`: the byte with both of its
/// nibbles set from `p`.
pub open spec fn palette_entry(p: u8) -> u8 {
    ((p << 4u8) | p) as u8
}

/// Number of bits per index for a palette of `num` entries (`num >= 1`):
/// the smallest `bd >= 1` with `2^bd >= num`.
pub open spec fn palette_bit_depth(num: int) -> nat {
    if num <= 2 { 1 }
    else if num <= 4 { 2 }
    else if num <= 8 { 3 }
    else if num <= 16 { 4 }
    else if num <= 32 { 5 }
    else if num <= 64 { 6 }
    else if num <= 128 { 7 }
    else { 8 }
}

/// The palette: `[0x00, 0xFF]` when the count byte is zero, otherwise the
/// expanded entries that follow the count byte.
pub open spec fn palette_table(data: Seq<u8>) -> Seq<u8> {
    let num = data[0] as int;
    if num == 0 {
        seq![0x00u8, 0xFFu8]
    } else {
        Seq::new(num as nat, |k: int| palette_entry(data[1 + k]))
    }
}

/// Index of the first byte of the packed index stream.
pub open spec fn palette_stream_start(data: Seq<u8>) -> int {
    if data[0] == 0 { 1 } else { 1 + data[0] as int }
}

/// Bits per packed index.
pub open spec fn palette_depth(data: Seq<u8>) -> nat {
    if data[0] == 0 { 1 } else { palette_bit_depth(data[0] as int) }
}

/// Bit `n` of the index stream that starts at byte `start`; bytes are read
/// most significant bit first, and bits past the end of the data read as 0.
pub open spec fn stream_bit(data: Seq<u8>, start: int, n: int) -> int {
    if start + n / 8 < data.len() {
        ((data[start + n / 8] >> ((7 - n % 8) as u8)) & 1u8) as int
    } else {
        0
    }
}

/// The `bits`-bit number formed by the stream bits `first .. first + bits`,
/// the first of them the most significant.
pub open spec fn stream_value(data: Seq<u8>, start: int, first: int, bits: nat) -> int
    decreases bits,
{
    if bits == 0 {
        0
    } else {
        stream_value(data, start, first, (bits - 1) as nat) * 2 + stream_bit(data, start, first + bits - 1)
    }
}

/// Alpha of pixel `p` decoded from a palette alpha chunk.
pub open spec fn palette_alpha(data: Seq<u8>, p: int) -> u8 {
    let table = palette_table(data);
    let bd = palette_depth(data);
    let idx = stream_value(data, palette_stream_start(data), p * bd, bd);
    if idx < table.len() {
        table[idx]
    } else {
        table[0]
    }
}

/// Whether a palette alpha chunk is long enough to hold its palette.
pub open spec fn palette_alpha_ok(data: Seq<u8>) -> bool {
    data.len() > 0 && (data[0] == 0 || 1 + data[0] as int <= data.len())
}

proof fn lemma_stream_value_bound(data: Seq<u8>, start: int, first: int, bits: nat)
    ensures
        0 <= stream_value(data, start, first, bits) < vstd::arithmetic::power2::pow2(bits),
    decreases bits,
{
    if bits > 0 {
        lemma_stream_value_bound(data, start, first, (bits - 1) as nat);
        vstd::arithmetic::power2::lemma_pow2_unfold(bits);
        assert(stream_bit(data, start, first + bits - 1) <= 1) by {
            if start + (first + bits - 1) / 8 < data.len() {
                let b = data[start + (first + bits - 1) / 8];
                let s = (7 - (first + bits - 1) % 8) as u8;
                assert((b >> s) & 1u8 <= 1u8) by (bit_vector);
            }
        }
    } else {
        vstd::arithmetic::power2::lemma2_to64();
    }
}

#[verifier::rlimit(40)]
/// Decodes a palette-compressed alpha chunk: a count byte, that many
/// palette nibbles, then `num_pixels` packed palette indices.
pub fn decode_palette_alpha(data: &[u8], num_pixels: usize) -> (res: Result<Vec<u8>, String>)
    ensures
        res is Ok <==> palette_alpha_ok(data@),
        res matches Err(msg) ==> msg@ == (if data@.len() == 0 {
            "Empty alpha data"@
        } else {
            "Insufficient alpha data for palette: expected "@ + crate::text::decimal(data@[0] as nat)
                + ", got "@ + crate::text::decimal((data@.len() - 1) as nat)
        }),
        res matches Ok(alphas) ==> {
            &&& alphas@.len() == num_pixels
            &&& forall|p: int| 0 <= p < num_pixels ==> #[trigger] alphas@[p] == palette_alpha(data@, p)
        },
{
    if data.len() == 0 {
        return Err(String::from_str("Empty alpha data"));
    }
    let mut cursor: usize = 0;
    let num = data[cursor] as usize;
    cursor = cursor + 1;

    let mut index_table: Vec<u8> = Vec::new();
    let bit_depth: usize;
    if num == 0 {
        index_table.push(0x00);
        index_table.push(0xFF);
        bit_depth = 1;
        assert(index_table@ =~= palette_table(data@));
    } else {
        if cursor + num > data.len() {
            let mut msg = String::from_str("Insufficient alpha data for palette: expected ");
            crate::text::push_decimal(&mut msg, num as u64);
            msg.append(", got ");
            crate::text::push_decimal(&mut msg, (data.len() - cursor) as u64);
            return Err(msg);
        }
        let mut k: usize = 0;
        while k < num
            invariant
                0 <= k <= num,
                num == data@[0],
                num >= 1,
                1 + num <= data@.len(),
                cursor == 1 + k,
                index_table@.len() == k,
                forall|q: int| 0 <= q < k ==> #[trigger] index_table@[q] == palette_entry(data@[1 + q]),
            decreases num - k,
        {
            let p_byte = data[cursor];
            cursor = cursor + 1;
            index_table.push((p_byte << 4u8) | p_byte);
            k = k + 1;
        }
        assert(index_table@ =~= palette_table(data@));
        bit_depth = if num <= 2 { 1 } else if num <= 4 { 2 } else if num <= 8 { 3 } else if num <= 16 { 4 }
            else if num <= 32 { 5 } else if num <= 64 { 6 } else if num <= 128 { 7 } else { 8 };
    }
    let ghost start = palette_stream_start(data@);
    assert(cursor == start);
    assert(bit_depth == palette_depth(data@));
    assert(1 <= bit_depth <= 8);

    let mut alpha_values: Vec<u8> = Vec::new();
    let mut bit_position: u8 = 0;
    let mut buffer: u8 = 0;
    let mut p: usize = 0;
    let ghost mut n: int = 0;
    while p < num_pixels
        invariant
            0 <= p <= num_pixels,
            1 <= bit_depth <= 8,
            bit_depth == palette_depth(data@),
            index_table@ == palette_table(data@),
            index_table@.len() >= 1,
            start == palette_stream_start(data@),
            1 <= start <= data@.len(),
            n == p * bit_depth,
            n >= 0,
            bit_position as int == (8 - n % 8) % 8,
            cursor as int == if start + (n + 7) / 8 < data@.len() { start + (n + 7) / 8 } else { data@.len() as int },
            n % 8 != 0 ==> buffer == (if start + (n - 1) / 8 < data@.len() { data@[start + (n - 1) / 8] } else { 0u8 }),
            alpha_values@.len() == p,
            forall|q: int| 0 <= q < p ==> #[trigger] alpha_values@[q] == palette_alpha(data@, q),
        decreases num_pixels - p,
    {
        let mut ans: usize = 0;
        let mut t: usize = 0;
        while t < bit_depth
            invariant
                0 <= t <= bit_depth,
                1 <= bit_depth <= 8,
                1 <= start <= data@.len(),
                n == p * bit_depth + t,
                n >= 0,
                bit_position as int == (8 - n % 8) % 8,
                cursor as int == if start + (n + 7) / 8 < data@.len() { start + (n + 7) / 8 } else { data@.len() as int },
                n % 8 != 0 ==> buffer == (if start + (n - 1) / 8 < data@.len() { data@[start + (n - 1) / 8] } else { 0u8 }),
                ans as int == stream_value(data@, start, p * bit_depth, t as nat),
                ans < 256,
            decreases bit_depth - t,
        {
            if bit_position == 0 {
                if cursor >= data.len() {
                    buffer = 0;
                } else {
                    buffer = data[cursor];
                    cursor = cursor + 1;
                }
            }
            let bp7: u8 = bit_position + 7;
            bit_position = bp7 & 7u8;
            assert(bit_position < 8) by (bit_vector)
                requires bit_position == bp7 & 7u8;
            let bit: u8 = (buffer >> bit_position) & 1u8;
            proof {
                assert(bit <= 1) by (bit_vector) requires bit == (buffer >> bit_position) & 1u8;
                let bp0 = (8 - n % 8) % 8;
                assert(bit_position == 7 - n % 8) by {
                    if n % 8 == 0 {
                        assert(((0u8 + 7u8) as u8) & 7u8 == 7u8) by (bit_vector);
                    } else {
                        let b = (8 - n % 8) as u8;
                        assert(1u8 <= b <= 7u8 ==> ((b + 7u8) as u8) & 7u8 == b - 1u8) by (bit_vector);
                    }
                }
                assert(start + n / 8 < data@.len() ==> buffer == data@[start + n / 8]);
                assert(!(start + n / 8 < data@.len()) ==> buffer == 0u8);
                assert(bit as int == stream_bit(data@, start, n)) by {
                    if !(start + n / 8 < data@.len()) {
                        assert((0u8 >> bit_position) & 1u8 == 0u8) by (bit_vector);
                    }
                }
                assert(stream_value(data@, start, p * bit_depth, (t + 1) as nat)
                    == stream_value(data@, start, p * bit_depth, t as nat) * 2 + stream_bit(data@, start, n));
                lemma_stream_value_bound(data@, start, p * bit_depth, (t + 1) as nat);
                vstd::arithmetic::power2::lemma_pow2_pos((t + 1) as nat);
                vstd::arithmetic::power2::lemma_pow2_strictly_increases((t + 1) as nat, 9);
                vstd::arithmetic::power2::lemma2_to64();
                n = n + 1;
            }
            ans = ans * 2 + bit as usize;
            t = t + 1;
        }
        let v = if ans >= index_table.len() { index_table[0] } else { index_table[ans] };
        alpha_values.push(v);
        p = p + 1;
        proof {
            assert(n == p * bit_depth) by (nonlinear_arith)
                requires n == (p - 1) * bit_depth + bit_depth;
        }
    }
    Ok(alpha_values)
}

} // verus!

verus! {

// ─── Bit packing (encoding) ─────────────────────────────────────────────────

/// Bit `t` (0 = least significant) of byte `b`.
pub open spec fn byte_bit(b: u8, t: int) -> u8 {
    (b >> (t as u8)) & 1u8
}

/// Bit `n` of a byte sequence packed most significant bit first.
pub open spec fn packed_bit(bytes: Seq<u8>, n: int) -> u8 {
    byte_bit(bytes[n / 8], 7 - n % 8)
}

/// The low `count` bits of `val`, most significant first.
pub open spec fn msb_bits(val: u32, count: nat) -> Seq<u8> {
    Seq::new(count, |t: int| ((val >> ((count - 1 - t) as u32)) & 1u32) as u8)
}

/// Writes bit sequences into bytes, filling each byte from its most
/// significant bit, the order in which the palette reader takes them.
pub struct BitWriter {
    buffer: u8,
    bit_pos: u8,
    bytes: Vec<u8>,
}

impl BitWriter {
    /// The buffer holds exactly the bits not yet moved into `bytes`.
    pub closed spec fn wf(&self) -> bool {
        self.bit_pos < 8 && self.buffer & (0xFFu8 >> self.bit_pos) == 0
    }

    /// All bits held, in the order written: those of the completed bytes,
    /// then those of the partial byte.
    pub closed spec fn bits(&self) -> Seq<u8> {
        Seq::new(
            (8 * self.bytes@.len() + self.bit_pos) as nat,
            |n: int| if n < 8 * self.bytes@.len() {
                packed_bit(self.bytes@, n)
            } else {
                byte_bit(self.buffer, 7 - (n - 8 * self.bytes@.len()))
            },
        )
    }

    /// Number of completed bytes not yet taken.
    pub closed spec fn completed(&self) -> nat {
        self.bytes@.len()
    }

    /// Number of bits held in the partial byte.
    pub closed spec fn pending(&self) -> nat {
        self.bit_pos as nat
    }

    pub fn new() -> (w: BitWriter)
        ensures
            w.wf(),
            w.bits() == Seq::<u8>::empty(),
            w.pending() == 0,
    {
        let w = BitWriter { buffer: 0, bit_pos: 0, bytes: Vec::new() };
        assert(0u8 & (0xFFu8 >> 0u8) == 0u8) by (bit_vector);
        assert(w.bits() =~= Seq::<u8>::empty());
        w
    }

    proof fn lemma_set_bit(buffer: u8, bp: u8, bit: u8)
        requires
            bp < 8,
            bit <= 1,
            buffer & (0xFFu8 >> bp) == 0,
        ensures
            forall|t: u8| t < bp ==> #[trigger] byte_bit((buffer | (bit << ((7 - bp) as u8))) as u8, 7 - t)
                == byte_bit(buffer, 7 - t),
            byte_bit((buffer | (bit << ((7 - bp) as u8))) as u8, 7 - bp) == bit,
            bp == 7 || ((buffer | (bit << ((7 - bp) as u8))) as u8) & (0xFFu8 >> ((bp + 1) as u8)) == 0,
    {
        let s: u8 = (7 - bp) as u8;
        let nbuf: u8 = (buffer | (bit << s)) as u8;
        assert forall|t: u8| t < bp implies #[trigger] byte_bit((buffer | (bit << ((7 - bp) as u8))) as u8, 7 - t)
            == byte_bit(buffer, 7 - t) by {
            let u: u8 = (7 - t) as u8;
            assert(t < bp && bp < 8 && bit <= 1 && s == 7u8 - bp && u == 7u8 - t && nbuf == (buffer | (bit << s)) as u8
                ==> (nbuf >> u) & 1u8 == (buffer >> u) & 1u8) by (bit_vector);
        }
        assert(bp < 8 && bit <= 1 && s == 7u8 - bp && buffer & (0xFFu8 >> bp) == 0 && nbuf == (buffer | (bit << s)) as u8
            ==> (nbuf >> s) & 1u8 == bit) by (bit_vector);
        assert(bp < 7 && bit <= 1 && s == 7u8 - bp && buffer & (0xFFu8 >> bp) == 0 && nbuf == (buffer | (bit << s)) as u8
            ==> nbuf & (0xFFu8 >> ((bp + 1) as u8)) == 0) by (bit_vector);
    }

    fn write_bit(&mut self, bit: u8)
        requires
            old(self).wf(),
            bit <= 1,
        ensures
            final(self).wf(),
            final(self).bits() == old(self).bits().push(bit),
            final(self).pending() == (old(self).pending() + 1) % 8,
    {
        let ghost old_bits = self.bits();
        let ghost nb = self.bytes@.len();
        proof {
            BitWriter::lemma_set_bit(self.buffer, self.bit_pos, bit);
        }
        let s: u8 = 7 - self.bit_pos;
        let nbuf: u8 = self.buffer | (bit << s);
        let bp = self.bit_pos;
        self.buffer = nbuf;
        self.bit_pos = self.bit_pos + 1;
        if self.bit_pos == 8 {
            self.bytes.push(self.buffer);
            self.buffer = 0;
            self.bit_pos = 0;
            assert(0u8 & (0xFFu8 >> 0u8) == 0u8) by (bit_vector);
            assert forall|n: int| 0 <= n < old_bits.len() + 1 implies #[trigger] self.bits()[n] == old_bits.push(bit)[n] by {
                if n < 8 * nb {
                    assert(self.bytes@[n / 8] == old(self).bytes@[n / 8]);
                } else {
                    assert(n / 8 == nb);
                    let t = (n - 8 * nb) as u8;
                    assert(n % 8 == t);
                    if t < bp {
                        assert(byte_bit(nbuf, 7 - t) == byte_bit(old(self).buffer, 7 - t));
                    }
                }
            }
            assert(self.bits() =~= old_bits.push(bit));
        } else {
            assert forall|n: int| 0 <= n < old_bits.len() + 1 implies #[trigger] self.bits()[n] == old_bits.push(bit)[n] by {
                if n >= 8 * nb {
                    let t = (n - 8 * nb) as u8;
                    if t < bp {
                        assert(byte_bit(nbuf, 7 - t) == byte_bit(old(self).buffer, 7 - t));
                    }
                }
            }
            assert(self.bits() =~= old_bits.push(bit));
        }
    }

    /// Appends the low `bits` bits of `val`, most significant first.
    pub fn write_bits(&mut self, val: u32, bits: u8)
        requires
            old(self).wf(),
            bits <= 32,
        ensures
            final(self).wf(),
            final(self).bits() == old(self).bits() + msb_bits(val, bits as nat),
            final(self).pending() == (old(self).pending() + bits) % 8,
    {
        let ghost target = msb_bits(val, bits as nat);
        let mut i: u8 = bits;
        while i > 0
            invariant
                i <= bits <= 32,
                self.wf(),
                target == msb_bits(val, bits as nat),
                self.bits() == old(self).bits() + target.take((bits - i) as int),
                self.pending() == (old(self).pending() + (bits - i)) % 8,
            decreases i,
        {
            i = i - 1;
            let b: u32 = (val >> (i as u32)) & 1u32;
            assert(b <= 1) by (bit_vector) requires b == (val >> (i as u32)) & 1u32;
            let ghost before = self.bits();
            self.write_bit(b as u8);
            assert(target[(bits - 1 - i) as int] == b as u8);
            assert(target.take((bits - i) as int) =~= target.take((bits - 1 - i) as int).push(b as u8));
            assert(self.bits() =~= old(self).bits() + target.take((bits - i) as int));
        }
        assert(target.take(bits as int) =~= target);
    }

    /// Takes the completed bytes, followed by the partial byte when there is
    /// one. The partial byte itself stays in the writer.
    pub fn flush(&mut self) -> (res: Vec<u8>)
        requires
            old(self).wf(),
        ensures
            final(self).wf(),
            res@.len() == (old(self).bits().len() + 7) / 8,
            forall|n: int| 0 <= n < old(self).bits().len() ==> #[trigger] packed_bit(res@, n) == old(self).bits()[n],
            forall|n: int| old(self).bits().len() <= n < 8 * res@.len() ==> #[trigger] packed_bit(res@, n) == 0,
            final(self).bits() == old(self).bits().skip(8 * old(self).completed() as int),
            final(self).pending() == old(self).pending(),
    {
        let ghost old_bits = self.bits();
        let ghost nb = self.bytes@.len();
        let mut res = Vec::new();
        std::mem::swap(&mut res, &mut self.bytes);
        if self.bit_pos > 0 {
            res.push(self.buffer);
        }
        proof {
            assert forall|n: int| 0 <= n < old_bits.len() implies #[trigger] packed_bit(res@, n) == old_bits[n] by {
                if n >= 8 * nb {
                    assert(n / 8 == nb);
                    assert(res@[n / 8] == old(self).buffer);
                }
            }
            assert forall|n: int| old_bits.len() <= n < 8 * res@.len() implies #[trigger] packed_bit(res@, n) == 0 by {
                assert(n / 8 == nb);
                let t = (n % 8) as u8;
                let u = (7 - n % 8) as u8;
                let bp = self.bit_pos;
                let buf = self.buffer;
                assert(t >= bp);
                assert(bp < 8 && t < 8 && t >= bp && u == 7u8 - t && buf & (0xFFu8 >> bp) == 0
                    ==> (buf >> u) & 1u8 == 0) by (bit_vector);
            }
            assert(self.bits() =~= old_bits.skip(8 * nb as int));
        }
        res
    }
}

/// Stores an alpha channel uncompressed, one byte per pixel.
pub fn encode_alpha(data: &[u8], width: u32, height: u32) -> (out: Vec<u8>)
    requires
        width * height <= u32::MAX,
    ensures
        out@ == data@,
{
    let _capacity = width * height;
    let mut out: Vec<u8> = Vec::new();
    let mut i: usize = 0;
    while i < data.len()
        invariant
            0 <= i <= data@.len(),
            out@ == data@.take(i as int),
        decreases data@.len() - i,
    {
        out.push(data[i]);
        i = i + 1;
        assert(out@ =~= data@.take(i as int));
    }
    assert(data@.take(data@.len() as int) =~= data@);
    out
}

/// Number of alpha values that `encode_palette_alpha` quantises.
pub open spec fn palette_count(data: Seq<u8>, width: u32, height: u32) -> int {
    if data.len() < width * height { data.len() as int } else { (width * height) as int }
}

/// Bit `n` of the packed 4-bit indices written by `encode_palette_alpha`:
/// the high nibble of each alpha value, most significant bit first.
pub open spec fn palette_index_bit(data: Seq<u8>, n: int) -> u8 {
    (((data[n / 4] >> 4u8) >> ((3 - n % 4) as u8)) & 1u8) as u8
}

/// `out` is the palette encoding of `data`: a 16-entry palette (`0x10`,
/// then the nibbles 0 to 15) followed by the high nibble of each of the
/// first `width * height` alpha values, packed most significant bit first.
pub open spec fn palette_encoding(out: Seq<u8>, data: Seq<u8>, width: u32, height: u32) -> bool {
    &&& out.len() == 17 + (4 * palette_count(data, width, height) + 7) / 8
    &&& out[0] == 0x10
    &&& forall|i: int| 0 <= i < 16 ==> #[trigger] out[1 + i] == i
    &&& forall|n: int| 0 <= n < 4 * palette_count(data, width, height)
        ==> #[trigger] packed_bit(out.skip(17), n) == palette_index_bit(data, n)
    &&& forall|n: int| 4 * palette_count(data, width, height) <= n < 8 * (out.len() - 17)
        ==> #[trigger] packed_bit(out.skip(17), n) == 0
}

/// Encodes an alpha channel as a 16-entry palette followed by the high
/// nibble of each alpha value (see `palette_encoding`).
pub fn encode_palette_alpha(data: &[u8], width: u32, height: u32) -> (out: Vec<u8>)
    requires
        width * height <= u32::MAX,
    ensures
        palette_encoding(out@, data@, width, height),
{
    let num_pixels = (width * height) as usize;
    let mut out: Vec<u8> = Vec::new();
    out.push(0x10);
    let mut i: u8 = 0;
    while i < 16
        invariant
            0 <= i <= 16,
            out@.len() == 1 + i,
            out@[0] == 0x10,
            forall|k: int| 0 <= k < i ==> #[trigger] out@[1 + k] == k,
        decreases 16 - i,
    {
        out.push(i);
        i = i + 1;
    }
    let count: usize = if data.len() < num_pixels { data.len() } else { num_pixels };
    assert(count == palette_count(data@, width, height));
    let mut writer = BitWriter::new();
    let mut p: usize = 0;
    while p < count
        invariant
            0 <= p <= count,
            count <= data@.len(),
            writer.wf(),
            writer.bits().len() == 4 * p,
            forall|n: int| 0 <= n < 4 * p ==> #[trigger] writer.bits()[n] == palette_index_bit(data@, n),
        decreases count - p,
    {
        let alpha = data[p];
        let val = alpha >> 4u8;
        let ghost before = writer.bits();
        writer.write_bits(val as u32, 4);
        proof {
            assert forall|n: int| 4 * p <= n < 4 * p + 4 implies #[trigger] writer.bits()[n] == palette_index_bit(data@, n) by {
                let t = n - 4 * p;
                assert(n / 4 == p);
                assert(n % 4 == t);
                assert(writer.bits()[n] == msb_bits(val as u32, 4)[t]);
                let s = (3 - t) as u8;
                assert(s < 4 ==> (((val as u32) >> (s as u32)) & 1u32) as u8 == ((val >> s) & 1u8)) by (bit_vector);
            }
        }
        p = p + 1;
    }
    let mut packed = writer.flush();
    let ghost prefix = out@;
    let ghost pk = packed@;
    out.append(&mut packed);
    assert(out@.skip(17) =~= pk);
    out
}

} // verus!

verus! {

// ─── Block encoding ─────────────────────────────────────────────────────────

/// Quotient of `a / b` rounded toward zero, as Rust's integer division gives.
pub open spec fn tdiv(a: int, b: int) -> int {
    if a >= 0 {
        a / b
    } else {
        -((-a) / b)
    }
}

pub open spec fn abs(a: int) -> int {
    if a < 0 {
        -a
    } else {
        a
    }
}

/// Mean of the red, green and blue channels, rounded down.
pub open spec fn luma(p: Rgba32) -> int {
    (p.r + p.g + p.b) / 3
}

/// Sum of absolute per-channel (red, green, blue) differences over the
/// first `n` texels.
pub open spec fn score_upto(wanted: Seq<Rgba32>, encoded: Seq<Rgba32>, n: int) -> int
    decreases n,
{
    if n <= 0 {
        0
    } else {
        let i = n - 1;
        score_upto(wanted, encoded, i) + abs(encoded[i].r - wanted[i].r)
            + abs(encoded[i].g - wanted[i].g) + abs(encoded[i].b - wanted[i].b)
    }
}

/// Distance between a block and its encoding: the sum over all 16 texels.
pub open spec fn block_score(wanted: Seq<Rgba32>, encoded: Seq<Rgba32>) -> int {
    score_upto(wanted, encoded, 16)
}

proof fn lemma_score_bound(wanted: Seq<Rgba32>, encoded: Seq<Rgba32>, n: int)
    requires
        0 <= n <= wanted.len(),
        n <= encoded.len(),
    ensures
        0 <= score_upto(wanted, encoded, n) <= 765 * n,
    decreases n,
{
    if n > 0 {
        lemma_score_bound(wanted, encoded, n - 1);
    }
}

fn get_score(wanted: &[Rgba32], encode: &[Rgba32]) -> (d: i32)
    requires
        wanted@.len() >= 16,
        encode@.len() >= 16,
    ensures
        d == block_score(wanted@, encode@),
{
    let mut diff: i32 = 0;
    let mut i: usize = 0;
    while i < 16
        invariant
            0 <= i <= 16,
            wanted@.len() >= 16,
            encode@.len() >= 16,
            diff == score_upto(wanted@, encode@, i as int),
        decreases 16 - i,
    {
        proof {
            lemma_score_bound(wanted@, encode@, i as int);
        }
        let dr = encode[i].r as i32 - wanted[i].r as i32;
        let dg = encode[i].g as i32 - wanted[i].g as i32;
        let db = encode[i].b as i32 - wanted[i].b as i32;
        diff = diff + (if dr < 0 { -dr } else { dr });
        diff = diff + (if dg < 0 { -dg } else { dg });
        diff = diff + (if db < 0 { -db } else { db });
        i = i + 1;
    }
    diff
}

/// `data` with bit 32 (flip) set to `mode`.
pub open spec fn with_flip(data: u64, mode: bool) -> u64 {
    (data & !(1u64 << 32u64)) | ((if mode { 1u64 } else { 0u64 }) << 32u64)
}

/// `data` with bit 33 (differential mode) set to `mode`.
pub open spec fn with_diff(data: u64, mode: bool) -> u64 {
    (data & !(1u64 << 33u64)) | ((if mode { 1u64 } else { 0u64 }) << 33u64)
}

/// `data` with bits 37..40 (first sub-block table) set to `table & 7`.
pub open spec fn with_table1(data: u64, table: u64) -> u64 {
    (data & !(7u64 << 37u64)) | ((table & 7u64) << 37u64)
}

/// `data` with bits 34..37 (second sub-block table) set to `table & 7`.
pub open spec fn with_table2(data: u64, table: u64) -> u64 {
    (data & !(7u64 << 34u64)) | ((table & 7u64) << 34u64)
}

fn set_flip_mode(data: &mut u64, mode: bool)
    ensures
        *final(data) == with_flip(*old(data), mode),
{
    *data &= !(1u64 << 32u64);
    *data |= (if mode { 1u64 } else { 0u64 }) << 32u64;
}

fn set_diff_mode(data: &mut u64, mode: bool)
    ensures
        *final(data) == with_diff(*old(data), mode),
{
    *data &= !(1u64 << 33u64);
    *data |= (if mode { 1u64 } else { 0u64 }) << 33u64;
}

fn set_table1(data: &mut u64, table: usize)
    ensures
        *final(data) == with_table1(*old(data), table as u64),
{
    *data &= !(7u64 << 37u64);
    *data |= ((table & 0x7) as u64) << 37u64;
    assert(((table & 0x7) as u64) == (table as u64) & 7u64) by (bit_vector);
}

fn set_table2(data: &mut u64, table: usize)
    ensures
        *final(data) == with_table2(*old(data), table as u64),
{
    *data &= !(7u64 << 34u64);
    *data |= ((table & 0x7) as u64) << 34u64;
    assert(((table & 0x7) as u64) == (table as u64) & 7u64) by (bit_vector);
}

/// Left half (columns 0 and 1) of a row-major 4x4 block, row-major.
pub open spec fn left_colors(p: Seq<Rgba32>) -> Seq<Rgba32> {
    Seq::new(8, |i: int| p[(i / 2) * 4 + i % 2])
}

/// Right half (columns 2 and 3) of a row-major 4x4 block, row-major.
pub open spec fn right_colors(p: Seq<Rgba32>) -> Seq<Rgba32> {
    Seq::new(8, |i: int| p[(i / 2) * 4 + i % 2 + 2])
}

/// Top half (rows 0 and 1) of a row-major 4x4 block.
pub open spec fn top_colors(p: Seq<Rgba32>) -> Seq<Rgba32> {
    Seq::new(8, |i: int| p[i])
}

/// Bottom half (rows 2 and 3) of a row-major 4x4 block.
pub open spec fn bottom_colors(p: Seq<Rgba32>) -> Seq<Rgba32> {
    Seq::new(8, |i: int| p[i + 8])
}

fn get_left_colors(pixels: &[Rgba32; 16]) -> (out: [Rgba32; 8])
    ensures
        out@ == left_colors(pixels@),
{
    let mut left = [Rgba32::zero(); 8];
    let mut y: usize = 0;
    while y < 4
        invariant
            0 <= y <= 4,
            forall|i: int| 0 <= i < y * 2 ==> #[trigger] left@[i] == left_colors(pixels@)[i],
        decreases 4 - y,
    {
        let mut x: usize = 0;
        while x < 2
            invariant
                0 <= y < 4,
                0 <= x <= 2,
                forall|i: int| 0 <= i < y * 2 + x ==> #[trigger] left@[i] == left_colors(pixels@)[i],
            decreases 2 - x,
        {
            left[y * 2 + x] = pixels[y * 4 + x];
            x = x + 1;
        }
        y = y + 1;
    }
    assert(left@ =~= left_colors(pixels@));
    left
}

fn get_right_colors(pixels: &[Rgba32; 16]) -> (out: [Rgba32; 8])
    ensures
        out@ == right_colors(pixels@),
{
    let mut right = [Rgba32::zero(); 8];
    let mut y: usize = 0;
    while y < 4
        invariant
            0 <= y <= 4,
            forall|i: int| 0 <= i < y * 2 ==> #[trigger] right@[i] == right_colors(pixels@)[i],
        decreases 4 - y,
    {
        let mut x: usize = 2;
        while x < 4
            invariant
                0 <= y < 4,
                2 <= x <= 4,
                forall|i: int| 0 <= i < y * 2 + x - 2 ==> #[trigger] right@[i] == right_colors(pixels@)[i],
            decreases 4 - x,
        {
            right[y * 2 + x - 2] = pixels[y * 4 + x];
            x = x + 1;
        }
        y = y + 1;
    }
    assert(right@ =~= right_colors(pixels@));
    right
}

fn get_top_colors(pixels: &[Rgba32; 16]) -> (out: [Rgba32; 8])
    ensures
        out@ == top_colors(pixels@),
{
    let mut top = [Rgba32::zero(); 8];
    let mut y: usize = 0;
    while y < 2
        invariant
            0 <= y <= 2,
            forall|i: int| 0 <= i < y * 4 ==> #[trigger] top@[i] == top_colors(pixels@)[i],
        decreases 2 - y,
    {
        let mut x: usize = 0;
        while x < 4
            invariant
                0 <= y < 2,
                0 <= x <= 4,
                forall|i: int| 0 <= i < y * 4 + x ==> #[trigger] top@[i] == top_colors(pixels@)[i],
            decreases 4 - x,
        {
            top[y * 4 + x] = pixels[y * 4 + x];
            x = x + 1;
        }
        y = y + 1;
    }
    assert(top@ =~= top_colors(pixels@));
    top
}

fn get_bottom_colors(pixels: &[Rgba32; 16]) -> (out: [Rgba32; 8])
    ensures
        out@ == bottom_colors(pixels@),
{
    let mut bottom = [Rgba32::zero(); 8];
    let mut y: usize = 2;
    while y < 4
        invariant
            2 <= y <= 4,
            forall|i: int| 0 <= i < (y - 2) * 4 ==> #[trigger] bottom@[i] == bottom_colors(pixels@)[i],
        decreases 4 - y,
    {
        let mut x: usize = 0;
        while x < 4
            invariant
                2 <= y < 4,
                0 <= x <= 4,
                forall|i: int| 0 <= i < (y - 2) * 4 + x ==> #[trigger] bottom@[i] == bottom_colors(pixels@)[i],
            decreases 4 - x,
        {
            bottom[(y - 2) * 4 + x] = pixels[y * 4 + x];
            x = x + 1;
        }
        y = y + 1;
    }
    assert(bottom@ =~= bottom_colors(pixels@));
    bottom
}

} // verus!

verus! {

/// Brightest and darkest opaque texel among the first `k` (first occurrence
/// wins ties), with their lumas; white / opaque black and the extreme `i32`
/// lumas when none is opaque. As `(max, min, max_y, min_y)`.
pub open spec fn extremes(pixels: Seq<Rgba32>, k: int) -> (Rgba32, Rgba32, int, int)
    decreases k,
{
    if k <= 0 {
        (Rgba32 { r: 255, g: 255, b: 255, a: 255 }, Rgba32 { r: 0, g: 0, b: 0, a: 255 }, i32::MIN as int, i32::MAX as int)
    } else {
        let prev = extremes(pixels, k - 1);
        let p = pixels[k - 1];
        if p.a == 0 {
            prev
        } else {
            let y = luma(p);
            let (mx, my) = if y > prev.2 { (p, y) } else { (prev.0, prev.2) };
            let (mn, ny) = if y < prev.3 { (p, y) } else { (prev.1, prev.3) };
            (mx, mn, my, ny)
        }
    }
}

/// `v` capped at 255.
pub open spec fn cap255(v: int) -> int {
    if v > 255 { 255 } else { v }
}

/// Best candidate `(distance, table row, mode)` after rows `0 .. i`: mode 0
/// pairs the two small modifiers, 1 a small and a large one, 2 the two large
/// ones; the first strictly closer candidate wins.
pub open spec fn mode_scan(diff: int, i: int) -> (int, int, int)
    decreases i,
{
    if i <= 0 {
        (i32::MAX as int, 0, -1)
    } else {
        let t = i - 1;
        let prev = mode_scan(diff, t);
        let ss = cap255(2 * etc1_modifier_spec(t, 0));
        let sb = cap255(etc1_modifier_spec(t, 0) + etc1_modifier_spec(t, 1));
        let bb = cap255(2 * etc1_modifier_spec(t, 1));
        let c1 = if abs(diff - ss) < prev.0 { (abs(diff - ss), t, 0) } else { prev };
        let c2 = if abs(diff - sb) < c1.0 { (abs(diff - sb), t, 1) } else { c1 };
        if abs(diff - bb) < c2.0 { (abs(diff - bb), t, 2) } else { c2 }
    }
}

/// Mean channel spread between the brightest and darkest opaque texels of
/// the first (up to) eight.
pub open spec fn spread(pixels: Seq<Rgba32>) -> int {
    let k = if pixels.len() < 8 { pixels.len() as int } else { 8 };
    let e = extremes(pixels, k);
    tdiv(e.0.r - e.1.r + e.0.g - e.1.g + e.0.b - e.1.b, 3)
}

/// Table row chosen for a sub-block.
pub open spec fn modifier_choice(pixels: Seq<Rgba32>) -> int {
    mode_scan(spread(pixels), 8).1
}

/// Base colour chosen for a sub-block: the `f32` blend of the darkest and
/// brightest texels for mode 1, their channel mean otherwise.
pub open spec fn base_choice(pixels: Seq<Rgba32>) -> Rgba32 {
    let k = if pixels.len() < 8 { pixels.len() as int } else { 8 };
    let e = extremes(pixels, k);
    let (mx, mn) = (e.0, e.1);
    let sc = mode_scan(spread(pixels), 8);
    if sc.2 == 1 {
        Rgba32 {
            r: clamp_byte(crate::blend::f32_blend(sc.1, mn.r, mx.r)),
            g: clamp_byte(crate::blend::f32_blend(sc.1, mn.g, mx.g)),
            b: clamp_byte(crate::blend::f32_blend(sc.1, mn.b, mx.b)),
            a: 255,
        }
    } else {
        Rgba32 {
            r: ((mn.r + mx.r) / 2) as u8,
            g: ((mn.g + mx.g) / 2) as u8,
            b: ((mn.b + mx.b) / 2) as u8,
            a: 255,
        }
    }
}

proof fn lemma_extremes_range(pixels: Seq<Rgba32>, k: int)
    requires
        0 <= k <= pixels.len(),
    ensures
        extremes(pixels, k).2 == i32::MIN || 0 <= extremes(pixels, k).2 <= 255,
        extremes(pixels, k).3 == i32::MAX || 0 <= extremes(pixels, k).3 <= 255,
    decreases k,
{
    if k > 0 {
        lemma_extremes_range(pixels, k - 1);
    }
}

proof fn lemma_mode_scan_range(diff: int, i: int)
    requires
        0 <= i <= 8,
        -255 <= diff <= 255,
    ensures
        0 <= mode_scan(diff, i).1 < 8,
        0 <= mode_scan(diff, i).0 <= i32::MAX,
        i > 0 ==> 0 <= mode_scan(diff, i).2 <= 2,
    decreases i,
{
    if i > 0 {
        lemma_mode_scan_range(diff, i - 1);
    }
}

fn clamp_u64(v: u64) -> (r: u8)
    ensures
        r == clamp_byte(v as int),
{
    if v > 255 { 255 } else { v as u8 }
}

/// Picks the modifier table row for a sub-block and writes its base colour.
fn gen_modifier(base_color: &mut Rgba32, pixels: &[Rgba32]) -> (modifier: usize)
    ensures
        modifier == modifier_choice(pixels@),
        modifier < 8,
        *final(base_color) == base_choice(pixels@),
{
    let mut max = Rgba32::new(255, 255, 255, 255);
    let mut min = Rgba32::new(0, 0, 0, 255);
    let mut min_y: i32 = i32::MAX;
    let mut max_y: i32 = i32::MIN;
    let k: usize = if pixels.len() < 8 { pixels.len() } else { 8 };
    let mut i: usize = 0;
    while i < k
        invariant
            0 <= i <= k,
            k <= pixels@.len(),
            k <= 8,
            extremes(pixels@, i as int) == (max, min, max_y as int, min_y as int),
        decreases k - i,
    {
        proof {
            lemma_extremes_range(pixels@, i as int);
        }
        let pixel = pixels[i];
        if pixel.a != 0 {
            let y = (pixel.r as i32 + pixel.g as i32 + pixel.b as i32) / 3;
            if y > max_y {
                max_y = y;
                max = pixel;
            }
            if y < min_y {
                min_y = y;
                min = pixel;
            }
        }
        i = i + 1;
    }
    let diff_mean = (max.r as i32 - min.r as i32 + max.g as i32 - min.g as i32 + max.b as i32 - min.b as i32) / 3;
    assert(diff_mean == spread(pixels@));

    let mut mod_diff: i32 = i32::MAX;
    let mut modifier: usize = 0;
    let mut mode: i32 = -1;
    let mut t: usize = 0;
    while t < 8
        invariant
            0 <= t <= 8,
            -255 <= diff_mean <= 255,
            mode_scan(diff_mean as int, t as int) == (mod_diff as int, modifier as int, mode as int),
        decreases 8 - t,
    {
        proof {
            lemma_mode_scan_range(diff_mean as int, t as int);
        }
        let m0 = etc1_modifier(t, 0);
        let m1 = etc1_modifier(t, 1);
        let ss0 = m0 * 2;
        let sb0 = m0 + m1;
        let bb0 = m1 * 2;
        let ss = if ss0 > 255 { 255 } else { ss0 };
        let sb = if sb0 > 255 { 255 } else { sb0 };
        let bb = if bb0 > 255 { 255 } else { bb0 };
        let dss = if diff_mean - ss < 0 { ss - diff_mean } else { diff_mean - ss };
        if dss < mod_diff {
            mod_diff = dss;
            modifier = t;
            mode = 0;
        }
        let dsb = if diff_mean - sb < 0 { sb - diff_mean } else { diff_mean - sb };
        if dsb < mod_diff {
            mod_diff = dsb;
            modifier = t;
            mode = 1;
        }
        let dbb = if diff_mean - bb < 0 { bb - diff_mean } else { diff_mean - bb };
        if dbb < mod_diff {
            mod_diff = dbb;
            modifier = t;
            mode = 2;
        }
        t = t + 1;
    }
    proof {
        lemma_mode_scan_range(diff_mean as int, 8);
    }

    if mode == 1 {
        *base_color = Rgba32::new(
            clamp_u64(crate::blend::f32_blend_exec(modifier, min.r, max.r)),
            clamp_u64(crate::blend::f32_blend_exec(modifier, min.g, max.g)),
            clamp_u64(crate::blend::f32_blend_exec(modifier, min.b, max.b)),
            255,
        );
    } else {
        *base_color = Rgba32::new(
            ((min.r as i32 + max.r as i32) >> 1i32) as u8,
            ((min.g as i32 + max.g as i32) >> 1i32) as u8,
            ((min.b as i32 + max.b as i32) >> 1i32) as u8,
            255,
        );
        proof {
            let sr: i32 = (min.r as i32 + max.r as i32) as i32;
            let sg: i32 = (min.g as i32 + max.g as i32) as i32;
            let sbb: i32 = (min.b as i32 + max.b as i32) as i32;
            assert(0 <= sr <= 510 ==> sr >> 1i32 == sr / 2) by (bit_vector);
            assert(0 <= sg <= 510 ==> sg >> 1i32 == sg / 2) by (bit_vector);
            assert(0 <= sbb <= 510 ==> sbb >> 1i32 == sbb / 2) by (bit_vector);
        }
    }
    modifier
}

} // verus!

verus! {

/// Selector bits for the `i`-th texel (in row order) of the sub-block
/// `x_offs .. x_end` by `y_offs .. y_end`: the sign bit at `x * 4 + y + 16`
/// when the texel is darker than the base colour, and the large-modifier bit
/// at `x * 4 + y` when the large modifier is strictly closer.
pub open spec fn texel_bits(pixels: Seq<Rgba32>, base: Rgba32, modifier: int, x_offs: int, x_end: int, y_offs: int, i: int) -> u64 {
    let w = x_end - x_offs;
    let yy = y_offs + i / w;
    let xx = x_offs + i % w;
    let base_mean = (base.r + base.g + base.b) / 3;
    let diff = luma(pixels[i]) - base_mean;
    let neg = if diff < 0 { 1u64 << ((xx * 4 + yy + 16) as u64) } else { 0u64 };
    let d1 = abs(diff) - etc1_modifier_spec(modifier, 0);
    let d2 = abs(diff) - etc1_modifier_spec(modifier, 1);
    let sel = if abs(d2) < abs(d1) { 1u64 << ((xx * 4 + yy) as u64) } else { 0u64 };
    neg | sel
}

/// Union of the selector bits of the first `n` texels of a sub-block.
pub open spec fn pix_mask(pixels: Seq<Rgba32>, base: Rgba32, modifier: int, x_offs: int, x_end: int, y_offs: int, n: int) -> u64
    decreases n,
{
    if n <= 0 {
        0
    } else {
        pix_mask(pixels, base, modifier, x_offs, x_end, y_offs, n - 1) | texel_bits(pixels, base, modifier, x_offs, x_end, y_offs, n - 1)
    }
}

/// Sets the selector bits of one sub-block.
fn gen_pix_diff(
    data: &mut u64,
    pixels: &[Rgba32],
    base_color: Rgba32,
    modifier: usize,
    x_offs: usize,
    x_end: usize,
    y_offs: usize,
    y_end: usize,
)
    requires
        modifier < 8,
        x_offs < x_end <= 4,
        y_offs <= y_end <= 4,
        pixels@.len() >= (x_end - x_offs) * (y_end - y_offs),
    ensures
        *final(data) == *old(data) | pix_mask(pixels@, base_color, modifier as int, x_offs as int, x_end as int, y_offs as int, ((x_end - x_offs) * (y_end - y_offs)) as int),
{
    let base_mean = (base_color.r as i32 + base_color.g as i32 + base_color.b as i32) / 3;
    let m0 = etc1_modifier(modifier, 0);
    let m1 = etc1_modifier(modifier, 1);
    let ghost w = (x_end - x_offs) as int;
    let mut i: usize = 0;
    let mut yy: usize = y_offs;
    proof {
        let d0 = *data;
        assert(d0 == d0 | 0u64) by (bit_vector);
    }
    while yy < y_end
        invariant
            y_offs <= yy <= y_end <= 4,
            x_offs < x_end <= 4,
            modifier < 8,
            w == x_end - x_offs,
            i == (yy - y_offs) * w,
            pixels@.len() >= (x_end - x_offs) * (y_end - y_offs),
            m0 == etc1_modifier_spec(modifier as int, 0),
            m1 == etc1_modifier_spec(modifier as int, 1),
            base_mean == (base_color.r + base_color.g + base_color.b) / 3,
            *data == *old(data) | pix_mask(pixels@, base_color, modifier as int, x_offs as int, x_end as int, y_offs as int, i as int),
        decreases y_end - yy,
    {
        let mut xx: usize = x_offs;
        while xx < x_end
            invariant
                y_offs <= yy < y_end <= 4,
                x_offs <= xx <= x_end <= 4,
                modifier < 8,
                w == x_end - x_offs,
                i == (yy - y_offs) * w + (xx - x_offs),
                pixels@.len() >= (x_end - x_offs) * (y_end - y_offs),
                m0 == etc1_modifier_spec(modifier as int, 0),
                m1 == etc1_modifier_spec(modifier as int, 1),
                base_mean == (base_color.r + base_color.g + base_color.b) / 3,
                *data == *old(data) | pix_mask(pixels@, base_color, modifier as int, x_offs as int, x_end as int, y_offs as int, i as int),
            decreases x_end - xx,
        {
            proof {
                assert((yy - y_offs) * w + (xx - x_offs) < (y_end - y_offs) * w) by (nonlinear_arith)
                    requires yy < y_end, xx < x_end, w == x_end - x_offs, x_offs <= xx, y_offs <= yy;
                assert(i as int / w == yy - y_offs && i as int % w == xx - x_offs) by (nonlinear_arith)
                    requires i == (yy - y_offs) * w + (xx - x_offs), 0 <= xx - x_offs < w, yy >= y_offs;
            }
            let p = pixels[i];
            let diff = (p.r as i32 + p.g as i32 + p.b as i32) / 3 - base_mean;
            let neg: u64 = if diff < 0 { 1u64 << ((xx * 4 + yy + 16) as u64) } else { 0u64 };
            let ad = if diff < 0 { -diff } else { diff };
            let d1 = ad - m0;
            let d2 = ad - m1;
            let a1 = if d1 < 0 { -d1 } else { d1 };
            let a2 = if d2 < 0 { -d2 } else { d2 };
            let sel: u64 = if a2 < a1 { 1u64 << ((xx * 4 + yy) as u64) } else { 0u64 };
            let ghost before = *data;
            if diff < 0 {
                *data |= neg;
            }
            if a2 < a1 {
                *data |= sel;
            }
            proof {
                assert(texel_bits(pixels@, base_color, modifier as int, x_offs as int, x_end as int, y_offs as int, i as int) == neg | sel);
                let pm = pix_mask(pixels@, base_color, modifier as int, x_offs as int, x_end as int, y_offs as int, i as int);
                let o = *old(data);
                assert(*data == (before | neg) | sel) by {
                    assert(before | 0u64 == before) by (bit_vector);
                    assert((before | neg) | 0u64 == before | neg) by (bit_vector);
                    assert((before | 0u64) | sel == before | sel) by (bit_vector);
                }
                assert(o | (pm | (neg | sel)) == ((o | pm) | neg) | sel) by (bit_vector);
            }
            i = i + 1;
            xx = xx + 1;
        }
        proof {
            assert((yy - y_offs) * w + w == (yy + 1 - y_offs) * w) by (nonlinear_arith);
        }
        yy = yy + 1;
    }
    proof {
        assert((y_end - y_offs) * w == (x_end - x_offs) * (y_end - y_offs)) by (nonlinear_arith)
            requires w == x_end - x_offs;
    }
}

/// Base colour bits for the two sub-blocks: the differential encoding when
/// every channel difference divided by 8 (rounded toward zero) lies in
/// `-3 ..= 2`, the two 4-bit colours otherwise.
pub open spec fn with_base_colors(data: u64, c1: Rgba32, c2: Rgba32) -> u64 {
    let rd = tdiv(c2.r - c1.r, 8);
    let gd = tdiv(c2.g - c1.g, 8);
    let bd = tdiv(c2.b - c1.b, 8);
    if -4 < rd < 3 && -4 < gd < 3 && -4 < bd < 3 {
        with_diff(data, true)
            | ((c1.r / 8) as u64) << 59u64
            | ((c1.g / 8) as u64) << 51u64
            | ((c1.b / 8) as u64) << 43u64
            | ((rd as i32 as u64) & 7u64) << 56u64
            | ((gd as i32 as u64) & 7u64) << 48u64
            | ((bd as i32 as u64) & 7u64) << 40u64
    } else {
        data
            | ((c1.r / 0x11) as u64) << 60u64
            | ((c1.g / 0x11) as u64) << 52u64
            | ((c1.b / 0x11) as u64) << 44u64
            | ((c2.r / 0x11) as u64) << 56u64
            | ((c2.g / 0x11) as u64) << 48u64
            | ((c2.b / 0x11) as u64) << 40u64
    }
}

fn set_base_colors(data: &mut u64, color1: Rgba32, color2: Rgba32)
    ensures
        *final(data) == with_base_colors(*old(data), color1, color2),
{
    let r1 = color1.r as i32;
    let g1 = color1.g as i32;
    let b1 = color1.b as i32;
    let r2 = color2.r as i32;
    let g2 = color2.g as i32;
    let b2 = color2.b as i32;

    let r_diff = (r2 - r1) / 8;
    let g_diff = (g2 - g1) / 8;
    let b_diff = (b2 - b1) / 8;

    if r_diff > -4 && r_diff < 3 && g_diff > -4 && g_diff < 3 && b_diff > -4 && b_diff < 3 {
        set_diff_mode(data, true);

        let r1_5 = r1 / 8;
        let g1_5 = g1 / 8;
        let b1_5 = b1 / 8;

        *data |= (r1_5 as u64) << 59u64;
        *data |= (g1_5 as u64) << 51u64;
        *data |= (b1_5 as u64) << 43u64;

        *data |= ((r_diff as u64) & 0x7u64) << 56u64;
        *data |= ((g_diff as u64) & 0x7u64) << 48u64;
        *data |= ((b_diff as u64) & 0x7u64) << 40u64;
    } else {
        *data |= ((r1 / 0x11) as u64) << 60u64;
        *data |= ((g1 / 0x11) as u64) << 52u64;
        *data |= ((b1 / 0x11) as u64) << 44u64;

        *data |= ((r2 / 0x11) as u64) << 56u64;
        *data |= ((g2 / 0x11) as u64) << 48u64;
        *data |= ((b2 / 0x11) as u64) << 40u64;
    }
}

/// Encoding with left and right sub-blocks.
pub open spec fn spec_gen_horizontal(colors: Seq<Rgba32>) -> u64 {
    let d0 = with_flip(0, false);
    let left = left_colors(colors);
    let m1 = modifier_choice(left);
    let c1 = base_choice(left);
    let d1 = with_table1(d0, m1 as u64) | pix_mask(left, c1, m1, 0, 2, 0, 8);
    let right = right_colors(colors);
    let m2 = modifier_choice(right);
    let c2 = base_choice(right);
    let d2 = with_table2(d1, m2 as u64) | pix_mask(right, c2, m2, 2, 4, 0, 8);
    with_base_colors(d2, c1, c2)
}

/// Encoding with top and bottom sub-blocks.
pub open spec fn spec_gen_vertical(colors: Seq<Rgba32>) -> u64 {
    let d0 = with_flip(0, true);
    let top = top_colors(colors);
    let m1 = modifier_choice(top);
    let c1 = base_choice(top);
    let d1 = with_table1(d0, m1 as u64) | pix_mask(top, c1, m1, 0, 4, 0, 8);
    let bottom = bottom_colors(colors);
    let m2 = modifier_choice(bottom);
    let c2 = base_choice(bottom);
    let d2 = with_table2(d1, m2 as u64) | pix_mask(bottom, c2, m2, 0, 4, 2, 8);
    with_base_colors(d2, c1, c2)
}

fn gen_horizontal(colors: &[Rgba32; 16]) -> (data: u64)
    ensures
        data == spec_gen_horizontal(colors@),
{
    let mut data: u64 = 0;
    set_flip_mode(&mut data, false);

    let left = get_left_colors(colors);
    let mut base_c1 = Rgba32::zero();
    let mod1 = gen_modifier(&mut base_c1, &left);
    set_table1(&mut data, mod1);
    gen_pix_diff(&mut data, &left, base_c1, mod1, 0, 2, 0, 4);

    let right = get_right_colors(colors);
    let mut base_c2 = Rgba32::zero();
    let mod2 = gen_modifier(&mut base_c2, &right);
    set_table2(&mut data, mod2);
    gen_pix_diff(&mut data, &right, base_c2, mod2, 2, 4, 0, 4);

    set_base_colors(&mut data, base_c1, base_c2);
    data
}

fn gen_vertical(colors: &[Rgba32; 16]) -> (data: u64)
    ensures
        data == spec_gen_vertical(colors@),
{
    let mut data: u64 = 0;
    set_flip_mode(&mut data, true);

    let top = get_top_colors(colors);
    let mut base_c1 = Rgba32::zero();
    let mod1 = gen_modifier(&mut base_c1, &top);
    set_table1(&mut data, mod1);
    gen_pix_diff(&mut data, &top, base_c1, mod1, 0, 4, 0, 2);

    let bottom = get_bottom_colors(colors);
    let mut base_c2 = Rgba32::zero();
    let mod2 = gen_modifier(&mut base_c2, &bottom);
    set_table2(&mut data, mod2);
    gen_pix_diff(&mut data, &bottom, base_c2, mod2, 0, 4, 2, 4);

    set_base_colors(&mut data, base_c1, base_c2);
    data
}

/// The 16 texels (column-major) an ETC1 block word decodes to.
pub open spec fn etc1_block(temp: u64) -> Seq<Rgba32> {
    Seq::new(16, |k: int| etc1_texel(temp, k))
}

/// The ETC1 word chosen for a 4x4 block given in row-major order: the
/// left/right split unless the top/bottom split scores no worse.
pub open spec fn spec_gen_etc1(colors: Seq<Rgba32>) -> u64 {
    let h = spec_gen_horizontal(colors);
    let v = spec_gen_vertical(colors);
    if block_score(colors, etc1_block(h)) < block_score(colors, etc1_block(v)) {
        h
    } else {
        v
    }
}

/// The top/bottom split encoding of a block.
pub fn vertical_etc1(colors: &[Rgba32; 16]) -> (data: u64)
    ensures
        data == spec_gen_vertical(colors@),
{
    gen_vertical(colors)
}

/// Encodes a 4x4 block (row-major) as an ETC1 word, trying both sub-block
/// splits and keeping the one whose decoding is closer to the input.
pub fn gen_etc1(colors: &[Rgba32; 16]) -> (data: u64)
    ensures
        data == spec_gen_etc1(colors@),
{
    let horizontal = gen_horizontal(colors);
    let vertical = gen_vertical(colors);

    let mut source_color = [Rgba32::zero(); 16];

    decode_etc1(horizontal, &mut source_color);
    assert(source_color@ =~= etc1_block(horizontal));
    let horizontal_score = get_score(colors, &source_color);

    decode_etc1(vertical, &mut source_color);
    assert(source_color@ =~= etc1_block(vertical));
    let vertical_score = get_score(colors, &source_color);

    if horizontal_score < vertical_score {
        horizontal
    } else {
        vertical
    }
}

} // verus!

verus! {

// ─── Reading back palette alpha ─────────────────────────────────────────────

/// The high nibble of an alpha value: the palette index it is quantised to.
pub open spec fn nibble(a: u8) -> u8 {
    a >> 4u8
}

proof fn lemma_nibble_bits(h: u8)
    by (bit_vector)
    requires
        h < 16,
    ensures
        ((((h >> 3u8) & 1u8) as int * 2 + ((h >> 2u8) & 1u8) as int) * 2 + ((h >> 1u8) & 1u8) as int) * 2
            + ((h >> 0u8) & 1u8) as int == h as int,
{
}

proof fn lemma_entry_of_index(k: u8)
    by (bit_vector)
    requires
        k < 16,
    ensures
        palette_entry(k) as int == 17 * k as int,
{
}

/// Stream bit `4p + j` of the encoded chunk is bit `3 - j` of pixel `p`'s
/// nibble.
proof fn lemma_palette_stream_bit(out: Seq<u8>, data: Seq<u8>, width: u32, height: u32, p: int, j: int)
    requires
        palette_encoding(out, data, width, height),
        0 <= p < palette_count(data, width, height),
        0 <= j < 4,
    ensures
        stream_bit(out, 17, 4 * p + j) == ((nibble(data[p]) >> ((3 - j) as u8)) & 1u8) as int,
{
    let c = palette_count(data, width, height);
    let o = out.skip(17);
    let n = 4 * p + j;
    assert(n / 4 == p && n % 4 == j) by (nonlinear_arith)
        requires n == 4 * p + j, 0 <= j < 4, p >= 0;
    assert(17 + (4 * c + 7) / 8 == out.len());
    assert(n / 8 < (4 * c + 7) / 8) by (nonlinear_arith)
        requires n == 4 * p + j, 0 <= j < 4, p < c, p >= 0;
    assert(o[n / 8] == out[17 + n / 8]);
    assert(packed_bit(o, n) == palette_index_bit(data, n));
}

/// A palette chunk written by `encode_palette_alpha` reads back, for each
/// pixel it holds, as the alpha quantised to its 4-bit palette entry: 17
/// times its high nibble (`0x00, 0x11, ..., 0xFF`).
pub proof fn lemma_palette_alpha_roundtrip(out: Seq<u8>, data: Seq<u8>, width: u32, height: u32, p: int)
    requires
        palette_encoding(out, data, width, height),
        0 <= p < palette_count(data, width, height),
    ensures
        palette_alpha(out, p) as int == 17 * nibble(data[p]) as int,
{
    let h = nibble(data[p]);
    assert(h < 16) by {
        let a = data[p];
        assert(a >> 4u8 < 16) by (bit_vector);
    }
    lemma_palette_stream_bit(out, data, width, height, p, 0);
    lemma_palette_stream_bit(out, data, width, height, p, 1);
    lemma_palette_stream_bit(out, data, width, height, p, 2);
    lemma_palette_stream_bit(out, data, width, height, p, 3);
    let b0 = stream_bit(out, 17, 4 * p);
    let b1 = stream_bit(out, 17, 4 * p + 1);
    let b2 = stream_bit(out, 17, 4 * p + 2);
    let b3 = stream_bit(out, 17, 4 * p + 3);
    assert(stream_value(out, 17, 4 * p, 0) == 0);
    assert(stream_value(out, 17, 4 * p, 1) == b0);
    assert(stream_value(out, 17, 4 * p, 2) == b0 * 2 + b1);
    assert(stream_value(out, 17, 4 * p, 3) == (b0 * 2 + b1) * 2 + b2);
    assert(stream_value(out, 17, 4 * p, 4) == ((b0 * 2 + b1) * 2 + b2) * 2 + b3);
    assert(palette_depth(out) == 4);
    assert(palette_stream_start(out) == 17);
    lemma_nibble_bits(h);
    assert(4 * p + 0 == 4 * p);
    let idx = stream_value(out, 17, 4 * p, 4);
    assert(idx == h as int);
    let table = palette_table(out);
    assert(table.len() == 16);
    assert(table[idx] == palette_entry(out[1 + idx]));
    assert(out[1 + idx] == idx);
    lemma_entry_of_index(h);
}

} // verus!
