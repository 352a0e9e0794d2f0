//! POPFX render-effect tables.
//!
//! A POPFX file is the magic `xfcp`, then 32-bit little-endian words: the
//! version 1, a table of eight `(count, offset, record size)` triples, the
//! offset of the string section, and the eight tables of fixed-size records.
//! The third table's records name strings stored NUL-terminated in the string
//! section that ends the file.
use vstd::prelude::*;
use vstd::utf8::{decode_utf8, encode_utf8, valid_utf8};
use crate::bytes::{le32, le32_bytes, push_le32, read_le32};
use crate::text::string_from_utf8;

verus! {

// ─── Records ────────────────────────────────────────────────────────────────

#[derive(Debug, Clone, Copy, PartialEq, Eq, Structural)]
pub struct Block1 {
    pub unknown_1: u32,
    pub unknown_2: u32,
    pub unknown_3: u32,
    pub unknown_4: u32,
    pub unknown_5: u32,
    pub unknown_6: u32,
}

#[derive(Debug, Clone, Copy, PartialEq, Eq, Structural)]
pub struct Block2 {
    pub unknown_1: u32,
    pub unknown_2: u32,
}

/// A record of the third table: a value and the string it names.
#[derive(Debug, Clone)]
pub struct Block3 {
    pub unknown_2: u32,
    pub string: String,
}

#[derive(Debug, Clone, Copy, PartialEq, Eq, Structural)]
pub struct Block4 {
    pub unknown_1: u32,
    pub unknown_2: u32,
    pub unknown_3: u32,
    pub unknown_4: u32,
    pub unknown_5: u32,
}

#[derive(Debug, Clone, Copy, PartialEq, Eq, Structural)]
pub struct Block5 {
    pub unknown_1: u32,
    pub unknown_2: u32,
    pub unknown_3: u32,
    pub unknown_4: u32,
    pub unknown_5: u32,
    pub unknown_6: u32,
    pub unknown_7: u32,
}

#[derive(Debug, Clone, Copy, PartialEq, Eq, Structural)]
pub struct Block6 {
    pub unknown_1: u32,
    pub unknown_2: u32,
    pub unknown_3: u32,
    pub unknown_4: u32,
    pub unknown_5: u32,
}

#[derive(Debug, Clone, Copy, PartialEq, Eq, Structural)]
pub struct Block7 {
    pub unknown_1: u32,
    pub unknown_2: u32,
}

#[derive(Debug, Clone, Copy, PartialEq, Eq, Structural)]
pub struct Block8 {
    pub unknown_1: u32,
    pub unknown_2: u32,
    pub unknown_3: u32,
    pub unknown_4: u32,
    pub unknown_5: u32,
}

/// The eight tables of a POPFX file.
#[derive(Debug, Clone)]
pub struct PopcapRenderEffectObject {
    pub block_1: Vec<Block1>,
    pub block_2: Vec<Block2>,
    pub block_3: Vec<Block3>,
    pub block_4: Vec<Block4>,
    pub block_5: Vec<Block5>,
    pub block_6: Vec<Block6>,
    pub block_7: Vec<Block7>,
    pub block_8: Vec<Block8>,
}

/// Number of 32-bit fields in a record of table `k`.
pub open spec fn block_width(k: int) -> int {
    if k == 0 { 6 } else if k == 1 { 2 } else if k == 2 { 3 } else if k == 3 { 5 }
    else if k == 4 { 7 } else if k == 5 { 5 } else if k == 6 { 2 } else { 5 }
}

/// Record size in bytes of table `k` (counting from 0).
pub open spec fn block_size(k: int) -> u32 {
    if k == 0 { 0x18 }
    else if k == 1 { 0x08 }
    else if k == 2 { 0x0C }
    else if k == 3 { 0x14 }
    else if k == 4 { 0x1C }
    else if k == 5 { 0x14 }
    else if k == 6 { 0x08 }
    else { 0x14 }
}

fn block_size_exec(k: usize) -> (s: u32)
    ensures
        s == block_size(k as int),
{
    if k == 0 { 0x18 }
    else if k == 1 { 0x08 }
    else if k == 2 { 0x0C }
    else if k == 3 { 0x14 }
    else if k == 4 { 0x1C }
    else if k == 5 { 0x14 }
    else if k == 6 { 0x08 }
    else { 0x14 }
}

/// A record made of a fixed number of 32-bit fields.
pub trait PopfxRecord: Sized {
    /// Number of fields.
    spec fn width() -> nat;

    /// The fields in file order.
    spec fn fields(&self) -> Seq<u32>;

    fn field_count() -> (n: usize)
        ensures
            n == Self::width(),
            1 <= n <= 7;

    fn push_fields(&self, words: &mut Vec<u32>)
        ensures
            final(words)@ == old(words)@ + self.fields();

    fn from_fields(w: &[u32]) -> (r: Self)
        requires
            w@.len() == Self::width(),
        ensures
            r.fields() == w@;

    proof fn lemma_width(r: &Self)
        ensures
            r.fields().len() == Self::width(),
            1 <= Self::width() <= 7;

    proof fn lemma_injective(a: &Self, b: &Self)
        requires
            a.fields() == b.fields(),
        ensures
            *a == *b;
}

impl PopfxRecord for Block1 {
    open spec fn width() -> nat { 6 }

    open spec fn fields(&self) -> Seq<u32> {
        seq![self.unknown_1, self.unknown_2, self.unknown_3, self.unknown_4, self.unknown_5, self.unknown_6]
    }

    fn field_count() -> (n: usize) { 6 }

    fn push_fields(&self, words: &mut Vec<u32>) {
        words.push(self.unknown_1);
        words.push(self.unknown_2);
        words.push(self.unknown_3);
        words.push(self.unknown_4);
        words.push(self.unknown_5);
        words.push(self.unknown_6);
        assert(final(words)@ =~= old(words)@ + self.fields());
    }

    fn from_fields(w: &[u32]) -> (r: Self) {
        let r = Block1 { unknown_1: w[0], unknown_2: w[1], unknown_3: w[2], unknown_4: w[3], unknown_5: w[4], unknown_6: w[5] };
        assert(r.fields() =~= w@);
        r
    }

    proof fn lemma_width(r: &Self) {}

    proof fn lemma_injective(a: &Self, b: &Self) {
        assert(a.fields()[0] == b.fields()[0] && a.fields()[1] == b.fields()[1] && a.fields()[2] == b.fields()[2]);
        assert(a.fields()[3] == b.fields()[3] && a.fields()[4] == b.fields()[4] && a.fields()[5] == b.fields()[5]);
    }
}

impl PopfxRecord for Block2 {
    open spec fn width() -> nat { 2 }

    open spec fn fields(&self) -> Seq<u32> {
        seq![self.unknown_1, self.unknown_2]
    }

    fn field_count() -> (n: usize) { 2 }

    fn push_fields(&self, words: &mut Vec<u32>) {
        words.push(self.unknown_1);
        words.push(self.unknown_2);
        assert(final(words)@ =~= old(words)@ + self.fields());
    }

    fn from_fields(w: &[u32]) -> (r: Self) {
        let r = Block2 { unknown_1: w[0], unknown_2: w[1] };
        assert(r.fields() =~= w@);
        r
    }

    proof fn lemma_width(r: &Self) {}

    proof fn lemma_injective(a: &Self, b: &Self) {
        assert(a.fields()[0] == b.fields()[0] && a.fields()[1] == b.fields()[1]);
    }
}

impl PopfxRecord for Block4 {
    open spec fn width() -> nat { 5 }

    open spec fn fields(&self) -> Seq<u32> {
        seq![self.unknown_1, self.unknown_2, self.unknown_3, self.unknown_4, self.unknown_5]
    }

    fn field_count() -> (n: usize) { 5 }

    fn push_fields(&self, words: &mut Vec<u32>) {
        words.push(self.unknown_1);
        words.push(self.unknown_2);
        words.push(self.unknown_3);
        words.push(self.unknown_4);
        words.push(self.unknown_5);
        assert(final(words)@ =~= old(words)@ + self.fields());
    }

    fn from_fields(w: &[u32]) -> (r: Self) {
        let r = Block4 { unknown_1: w[0], unknown_2: w[1], unknown_3: w[2], unknown_4: w[3], unknown_5: w[4] };
        assert(r.fields() =~= w@);
        r
    }

    proof fn lemma_width(r: &Self) {}

    proof fn lemma_injective(a: &Self, b: &Self) {
        assert(a.fields()[0] == b.fields()[0] && a.fields()[1] == b.fields()[1] && a.fields()[2] == b.fields()[2]);
        assert(a.fields()[3] == b.fields()[3] && a.fields()[4] == b.fields()[4]);
    }
}

impl PopfxRecord for Block5 {
    open spec fn width() -> nat { 7 }

    open spec fn fields(&self) -> Seq<u32> {
        seq![self.unknown_1, self.unknown_2, self.unknown_3, self.unknown_4, self.unknown_5, self.unknown_6, self.unknown_7]
    }

    fn field_count() -> (n: usize) { 7 }

    fn push_fields(&self, words: &mut Vec<u32>) {
        words.push(self.unknown_1);
        words.push(self.unknown_2);
        words.push(self.unknown_3);
        words.push(self.unknown_4);
        words.push(self.unknown_5);
        words.push(self.unknown_6);
        words.push(self.unknown_7);
        assert(final(words)@ =~= old(words)@ + self.fields());
    }

    fn from_fields(w: &[u32]) -> (r: Self) {
        let r = Block5 {
            unknown_1: w[0],
            unknown_2: w[1],
            unknown_3: w[2],
            unknown_4: w[3],
            unknown_5: w[4],
            unknown_6: w[5],
            unknown_7: w[6],
        };
        assert(r.fields() =~= w@);
        r
    }

    proof fn lemma_width(r: &Self) {}

    proof fn lemma_injective(a: &Self, b: &Self) {
        assert(a.fields()[0] == b.fields()[0] && a.fields()[1] == b.fields()[1] && a.fields()[2] == b.fields()[2]);
        assert(a.fields()[3] == b.fields()[3] && a.fields()[4] == b.fields()[4] && a.fields()[5] == b.fields()[5]);
        assert(a.fields()[6] == b.fields()[6]);
    }
}

impl PopfxRecord for Block6 {
    open spec fn width() -> nat { 5 }

    open spec fn fields(&self) -> Seq<u32> {
        seq![self.unknown_1, self.unknown_2, self.unknown_3, self.unknown_4, self.unknown_5]
    }

    fn field_count() -> (n: usize) { 5 }

    fn push_fields(&self, words: &mut Vec<u32>) {
        words.push(self.unknown_1);
        words.push(self.unknown_2);
        words.push(self.unknown_3);
        words.push(self.unknown_4);
        words.push(self.unknown_5);
        assert(final(words)@ =~= old(words)@ + self.fields());
    }

    fn from_fields(w: &[u32]) -> (r: Self) {
        let r = Block6 { unknown_1: w[0], unknown_2: w[1], unknown_3: w[2], unknown_4: w[3], unknown_5: w[4] };
        assert(r.fields() =~= w@);
        r
    }

    proof fn lemma_width(r: &Self) {}

    proof fn lemma_injective(a: &Self, b: &Self) {
        assert(a.fields()[0] == b.fields()[0] && a.fields()[1] == b.fields()[1] && a.fields()[2] == b.fields()[2]);
        assert(a.fields()[3] == b.fields()[3] && a.fields()[4] == b.fields()[4]);
    }
}

impl PopfxRecord for Block7 {
    open spec fn width() -> nat { 2 }

    open spec fn fields(&self) -> Seq<u32> {
        seq![self.unknown_1, self.unknown_2]
    }

    fn field_count() -> (n: usize) { 2 }

    fn push_fields(&self, words: &mut Vec<u32>) {
        words.push(self.unknown_1);
        words.push(self.unknown_2);
        assert(final(words)@ =~= old(words)@ + self.fields());
    }

    fn from_fields(w: &[u32]) -> (r: Self) {
        let r = Block7 { unknown_1: w[0], unknown_2: w[1] };
        assert(r.fields() =~= w@);
        r
    }

    proof fn lemma_width(r: &Self) {}

    proof fn lemma_injective(a: &Self, b: &Self) {
        assert(a.fields()[0] == b.fields()[0] && a.fields()[1] == b.fields()[1]);
    }
}

impl PopfxRecord for Block8 {
    open spec fn width() -> nat { 5 }

    open spec fn fields(&self) -> Seq<u32> {
        seq![self.unknown_1, self.unknown_2, self.unknown_3, self.unknown_4, self.unknown_5]
    }

    fn field_count() -> (n: usize) { 5 }

    fn push_fields(&self, words: &mut Vec<u32>) {
        words.push(self.unknown_1);
        words.push(self.unknown_2);
        words.push(self.unknown_3);
        words.push(self.unknown_4);
        words.push(self.unknown_5);
        assert(final(words)@ =~= old(words)@ + self.fields());
    }

    fn from_fields(w: &[u32]) -> (r: Self) {
        let r = Block8 { unknown_1: w[0], unknown_2: w[1], unknown_3: w[2], unknown_4: w[3], unknown_5: w[4] };
        assert(r.fields() =~= w@);
        r
    }

    proof fn lemma_width(r: &Self) {}

    proof fn lemma_injective(a: &Self, b: &Self) {
        assert(a.fields()[0] == b.fields()[0] && a.fields()[1] == b.fields()[1] && a.fields()[2] == b.fields()[2]);
        assert(a.fields()[3] == b.fields()[3] && a.fields()[4] == b.fields()[4]);
    }
}

// ─── Layout ─────────────────────────────────────────────────────────────────

/// Errors of the POPFX codec.
#[derive(Debug, Clone, Copy, PartialEq, Eq, Structural)]
pub enum PopfxError {
    /// The data ends inside a value that is read.
    UnexpectedEof,
    /// The file does not start with `xfcp`.
    InvalidMagic,
    InvalidVersion { expected: u32, got: u32 },
    InvalidBlockSize { block: usize, expected: u32, got: u32 },
    /// A string is not valid UTF-8.
    Utf8,
}

/// The words of a sequence of records, one record after another.
pub open spec fn record_words<T: PopfxRecord>(recs: Seq<T>) -> Seq<u32> {
    Seq::new(T::width() * recs.len(), |q: int| recs[q / T::width() as int].fields()[q % T::width() as int])
}

/// The `n` little-endian words stored from byte `off`.
pub open spec fn words_at(d: Seq<u8>, off: int, n: nat) -> Seq<u32> {
    Seq::new(n, |j: int| le32(d, off + 4 * j) as u32)
}

/// `recs` are the `count` records of `T` stored from byte `off`.
pub open spec fn records_read<T: PopfxRecord>(recs: Seq<T>, d: Seq<u8>, off: int, count: int) -> bool {
    &&& recs.len() == count
    &&& forall|i: int| 0 <= i < count ==> #[trigger] recs[i].fields() == words_at(d, off + 4 * T::width() * i, T::width())
}

/// Reading `count` records of `width` words from `off` stays within the
/// data (nothing is read when there are none).
pub open spec fn records_fit(len: int, off: int, count: int, width: int) -> bool {
    count == 0 || off + 4 * width * count <= len
}

pub open spec fn table_count(d: Seq<u8>, k: int) -> int { le32(d, 8 + 12 * k) }
pub open spec fn table_offset(d: Seq<u8>, k: int) -> int { le32(d, 12 + 12 * k) }
pub open spec fn table_size(d: Seq<u8>, k: int) -> int { le32(d, 16 + 12 * k) }
pub open spec fn strings_offset(d: Seq<u8>) -> int { le32(d, 104) }

/// The data starts with `xfcp`.
pub open spec fn magic_ok(d: Seq<u8>) -> bool {
    d[0] == 0x78 && d[1] == 0x66 && d[2] == 0x63 && d[3] == 0x70
}

/// The first fault of the table entries from `k` on.
pub open spec fn table_fault(d: Seq<u8>, k: int) -> Option<PopfxError>
    decreases 8 - k,
{
    if k >= 8 {
        if d.len() < 108 { Some(PopfxError::UnexpectedEof) } else { None }
    } else if d.len() < 20 + 12 * k {
        Some(PopfxError::UnexpectedEof)
    } else if table_size(d, k) != block_size(k) {
        Some(PopfxError::InvalidBlockSize { block: (k + 1) as usize, expected: block_size(k), got: table_size(d, k) as u32 })
    } else {
        table_fault(d, k + 1)
    }
}

/// The first fault of the header, in reading order.
pub open spec fn header_fault(d: Seq<u8>) -> Option<PopfxError> {
    if d.len() < 4 {
        Some(PopfxError::UnexpectedEof)
    } else if !magic_ok(d) {
        Some(PopfxError::InvalidMagic)
    } else if d.len() < 8 {
        Some(PopfxError::UnexpectedEof)
    } else if le32(d, 4) != 1 {
        Some(PopfxError::InvalidVersion { expected: 1, got: le32(d, 4) as u32 })
    } else {
        table_fault(d, 0)
    }
}

/// The string section: everything from its offset to the end.
pub open spec fn string_section(d: Seq<u8>) -> Seq<u8> {
    d.subrange(strings_offset(d), d.len() as int)
}

/// The first NUL byte at or after `p`, or the end.
pub open spec fn nul_from(s: Seq<u8>, p: int) -> int
    decreases s.len() - p,
{
    if p < 0 || p >= s.len() || s[p] == 0 {
        p
    } else {
        nul_from(s, p + 1)
    }
}

/// The bytes of the NUL-terminated string at `off`; empty past the end.
pub open spec fn c_string(s: Seq<u8>, off: int) -> Seq<u8> {
    if off >= s.len() {
        Seq::empty()
    } else {
        s.subrange(off, nul_from(s, off))
    }
}

/// The bytes of the string that record `i` of the third table names.
pub open spec fn block3_string(d: Seq<u8>, i: int) -> Seq<u8> {
    c_string(string_section(d), le32(d, table_offset(d, 2) + 12 * i + 8))
}

/// The first fault of the third table from record `i` on: a record cut short
/// or a string that is not UTF-8.
pub open spec fn block3_fault_from(d: Seq<u8>, i: int) -> Option<PopfxError>
    decreases table_count(d, 2) - i,
{
    if i < 0 || i >= table_count(d, 2) {
        None
    } else if table_offset(d, 2) + 12 * (i + 1) > d.len() {
        Some(PopfxError::UnexpectedEof)
    } else if !valid_utf8(block3_string(d, i)) {
        Some(PopfxError::Utf8)
    } else {
        block3_fault_from(d, i + 1)
    }
}

/// The first fault of decoding, in reading order.
pub open spec fn popfx_fault(d: Seq<u8>) -> Option<PopfxError> {
    let len = d.len() as int;
    if header_fault(d) is Some {
        header_fault(d)
    } else if !records_fit(len, table_offset(d, 0), table_count(d, 0), 6)
        || !records_fit(len, table_offset(d, 1), table_count(d, 1), 2) {
        Some(PopfxError::UnexpectedEof)
    } else if block3_fault_from(d, 0) is Some {
        block3_fault_from(d, 0)
    } else if !records_fit(len, table_offset(d, 3), table_count(d, 3), 5)
        || !records_fit(len, table_offset(d, 4), table_count(d, 4), 7)
        || !records_fit(len, table_offset(d, 5), table_count(d, 5), 5)
        || !records_fit(len, table_offset(d, 6), table_count(d, 6), 2)
        || !records_fit(len, table_offset(d, 7), table_count(d, 7), 5) {
        Some(PopfxError::UnexpectedEof)
    } else {
        None
    }
}

/// Data whose string section starts within it whenever decoding gets that far.
pub open spec fn popfx_decodable(d: Seq<u8>) -> bool {
    header_fault(d) is None
        && records_fit(d.len() as int, table_offset(d, 0), table_count(d, 0), 6)
        && records_fit(d.len() as int, table_offset(d, 1), table_count(d, 1), 2)
        ==> strings_offset(d) <= d.len()
}

/// `obj` holds the tables that `d` describes.
pub open spec fn popfx_read(obj: PopcapRenderEffectObject, d: Seq<u8>) -> bool {
    &&& records_read(obj.block_1@, d, table_offset(d, 0), table_count(d, 0))
    &&& records_read(obj.block_2@, d, table_offset(d, 1), table_count(d, 1))
    &&& obj.block_3@.len() == table_count(d, 2)
    &&& forall|i: int| 0 <= i < table_count(d, 2) ==> {
        &&& #[trigger] obj.block_3@[i].unknown_2 == le32(d, table_offset(d, 2) + 12 * i + 4)
        &&& obj.block_3@[i].string@ == decode_utf8(block3_string(d, i))
    }
    &&& records_read(obj.block_4@, d, table_offset(d, 3), table_count(d, 3))
    &&& records_read(obj.block_5@, d, table_offset(d, 4), table_count(d, 4))
    &&& records_read(obj.block_6@, d, table_offset(d, 5), table_count(d, 5))
    &&& records_read(obj.block_7@, d, table_offset(d, 6), table_count(d, 6))
    &&& records_read(obj.block_8@, d, table_offset(d, 7), table_count(d, 7))
}

// ─── Decoding ───────────────────────────────────────────────────────────────

/// Reads `count` records of `T` from byte `off`.
fn read_records<T: PopfxRecord>(data: &[u8], off: u32, count: u32) -> (res: Option<Vec<T>>)
    ensures
        res is Some <==> records_fit(data@.len() as int, off as int, count as int, T::width() as int),
        res matches Some(v) ==> records_read(v@, data@, off as int, count as int),
{
    let mut v: Vec<T> = Vec::new();
    if count == 0 {
        return Some(v);
    }
    let w = T::field_count();
    let len = data.len();
    proof {
        assert(4 * (w as u64) * (count as u64) <= 28 * 0xFFFF_FFFF) by (nonlinear_arith)
            requires w <= 7, count <= 0xFFFF_FFFF;
    }
    if (off as u64) + 4 * (w as u64) * (count as u64) > (len as u64) {
        return None;
    }
    let mut i: u32 = 0;
    while i < count
        invariant
            i <= count,
            w == T::width(),
            1 <= w <= 7,
            len == data@.len(),
            off + 4 * w * count <= len,
            v@.len() == i,
            forall|k: int| 0 <= k < i ==> #[trigger] v@[k].fields() == words_at(data@, off + 4 * T::width() * k, T::width()),
        decreases count - i,
    {
        proof {
            assert(4 * w * i + 4 * w <= 4 * w * count) by (nonlinear_arith)
                requires i < count, w >= 1;
        }
        let at: usize = off as usize + 4 * w * (i as usize);
        let mut ws: Vec<u32> = Vec::new();
        let mut j: usize = 0;
        while j < w
            invariant
                j <= w,
                w == T::width(),
                at + 4 * w <= len,
                len == data@.len(),
                ws@ == words_at(data@, at as int, j as nat),
            decreases w - j,
        {
            let x = read_le32(data, at + 4 * j);
            ws.push(x);
            j = j + 1;
            assert(ws@ =~= words_at(data@, at as int, j as nat));
        }
        let r = T::from_fields(ws.as_slice());
        v.push(r);
        proof {
            assert(v@[i as int].fields() == words_at(data@, off + 4 * T::width() * i, T::width()));
        }
        i = i + 1;
    }
    Some(v)
}

/// The NUL-terminated string at `offset` of `buf` (empty past the end).
fn read_string_from_buffer(buf: &[u8], offset: usize) -> (res: Result<String, PopfxError>)
    ensures
        res is Ok <==> valid_utf8(c_string(buf@, offset as int)),
        res matches Ok(s) ==> s@ == decode_utf8(c_string(buf@, offset as int)),
        res matches Err(e) ==> e == PopfxError::Utf8,
{
    if offset >= buf.len() {
        proof {
            assert(c_string(buf@, offset as int) =~= Seq::<u8>::empty());
            assert(valid_utf8(Seq::<u8>::empty()));
            assert(decode_utf8(Seq::<u8>::empty()) =~= Seq::<char>::empty());
        }
        return Ok(String::new());
    }
    let mut end = offset;
    while end < buf.len() && buf[end] != 0
        invariant
            offset <= end <= buf@.len(),
            nul_from(buf@, offset as int) == nul_from(buf@, end as int),
        decreases buf@.len() - end,
    {
        end = end + 1;
    }
    let bytes = vstd::slice::slice_to_vec(vstd::slice::slice_subrange(buf, offset, end));
    match string_from_utf8(bytes) {
        Some(s) => Ok(s),
        None => Err(PopfxError::Utf8),
    }
}

fn read_block3(data: &[u8], off: u32, count: u32, section: &[u8]) -> (res: Result<Vec<Block3>, PopfxError>)
    requires
        off == table_offset(data@, 2),
        count == table_count(data@, 2),
        section@ == string_section(data@),
    ensures
        res is Err <==> block3_fault_from(data@, 0) is Some,
        res matches Err(e) ==> block3_fault_from(data@, 0) == Some(e),
        res matches Ok(v) ==> {
            &&& v@.len() == count
            &&& forall|i: int| 0 <= i < count ==> {
                &&& #[trigger] v@[i].unknown_2 == le32(data@, off + 12 * i + 4)
                &&& v@[i].string@ == decode_utf8(block3_string(data@, i))
            }
        },
{
    let mut v: Vec<Block3> = Vec::new();
    let len = data.len() as u64;
    let mut i: u32 = 0;
    while i < count
        invariant
            i <= count,
            off == table_offset(data@, 2),
            count == table_count(data@, 2),
            section@ == string_section(data@),
            len == data@.len(),
            len <= usize::MAX,
            block3_fault_from(data@, 0) == block3_fault_from(data@, i as int),
            v@.len() == i,
            forall|k: int| 0 <= k < i ==> {
                &&& #[trigger] v@[k].unknown_2 == le32(data@, off + 12 * k + 4)
                &&& v@[k].string@ == decode_utf8(block3_string(data@, k))
            },
        decreases count - i,
    {
        let at: u64 = (off as u64) + 12 * (i as u64);
        if at + 12 > len {
            return Err(PopfxError::UnexpectedEof);
        }
        let unknown_2 = read_le32(data, (at + 4) as usize);
        let str_offset = read_le32(data, (at + 8) as usize);
        assert(str_offset == le32(data@, off + 12 * i + 8));
        assert(c_string(section@, str_offset as int) == block3_string(data@, i as int));
        assert(block3_fault_from(data@, i as int) == (if !valid_utf8(block3_string(data@, i as int)) {
            Some(PopfxError::Utf8)
        } else {
            block3_fault_from(data@, i + 1)
        }));
        match read_string_from_buffer(section, str_offset as usize) {
            Ok(s) => {
                v.push(Block3 { unknown_2, string: s });
            },
            Err(e) => {
                return Err(e);
            },
        }
        i = i + 1;
    }
    Ok(v)
}

/// Checks the header, in reading order.
fn check_header(data: &[u8]) -> (res: Result<(), PopfxError>)
    ensures
        res is Err <==> header_fault(data@) is Some,
        res matches Err(e) ==> header_fault(data@) == Some(e),
        res is Ok ==> data@.len() >= 108,
{
    let len = data.len();
    if len < 4 {
        return Err(PopfxError::UnexpectedEof);
    }
    if !(data[0] == 0x78 && data[1] == 0x66 && data[2] == 0x63 && data[3] == 0x70) {
        return Err(PopfxError::InvalidMagic);
    }
    if len < 8 {
        return Err(PopfxError::UnexpectedEof);
    }
    let version = read_le32(data, 4);
    if version != 1 {
        return Err(PopfxError::InvalidVersion { expected: 1, got: version });
    }
    let mut k: usize = 0;
    while k < 8
        invariant
            k <= 8,
            len == data@.len(),
            header_fault(data@) == table_fault(data@, k as int),
        decreases 8 - k,
    {
        if len < 20 + 12 * k {
            return Err(PopfxError::UnexpectedEof);
        }
        let size = read_le32(data, 16 + 12 * k);
        let expected = block_size_exec(k);
        if size != expected {
            return Err(PopfxError::InvalidBlockSize { block: k + 1, expected, got: size });
        }
        k = k + 1;
    }
    if len < 108 {
        return Err(PopfxError::UnexpectedEof);
    }
    Ok(())
}

/// Decodes a POPFX file.
pub fn decode_popfx(data: &[u8]) -> (res: Result<PopcapRenderEffectObject, PopfxError>)
    requires
        popfx_decodable(data@),
    ensures
        res is Err <==> popfx_fault(data@) is Some,
        res matches Err(e) ==> popfx_fault(data@) == Some(e),
        res matches Ok(obj) ==> popfx_read(obj, data@),
{
    match check_header(data) {
        Ok(()) => {},
        Err(e) => {
            return Err(e);
        },
    }
    let block_1 = match read_records::<Block1>(data, read_le32(data, 12), read_le32(data, 8)) {
        Some(v) => v,
        None => {
            return Err(PopfxError::UnexpectedEof);
        },
    };
    let block_2 = match read_records::<Block2>(data, read_le32(data, 24), read_le32(data, 20)) {
        Some(v) => v,
        None => {
            return Err(PopfxError::UnexpectedEof);
        },
    };
    let strings_at = read_le32(data, 104) as usize;
    let section = vstd::slice::slice_subrange(data, strings_at, data.len());
    let block_3 = match read_block3(data, read_le32(data, 36), read_le32(data, 32), section) {
        Ok(v) => v,
        Err(e) => {
            return Err(e);
        },
    };
    let block_4 = match read_records::<Block4>(data, read_le32(data, 48), read_le32(data, 44)) {
        Some(v) => v,
        None => {
            return Err(PopfxError::UnexpectedEof);
        },
    };
    let block_5 = match read_records::<Block5>(data, read_le32(data, 60), read_le32(data, 56)) {
        Some(v) => v,
        None => {
            return Err(PopfxError::UnexpectedEof);
        },
    };
    let block_6 = match read_records::<Block6>(data, read_le32(data, 72), read_le32(data, 68)) {
        Some(v) => v,
        None => {
            return Err(PopfxError::UnexpectedEof);
        },
    };
    let block_7 = match read_records::<Block7>(data, read_le32(data, 84), read_le32(data, 80)) {
        Some(v) => v,
        None => {
            return Err(PopfxError::UnexpectedEof);
        },
    };
    let block_8 = match read_records::<Block8>(data, read_le32(data, 96), read_le32(data, 92)) {
        Some(v) => v,
        None => {
            return Err(PopfxError::UnexpectedEof);
        },
    };
    Ok(PopcapRenderEffectObject { block_1, block_2, block_3, block_4, block_5, block_6, block_7, block_8 })
}

// ─── Encoding contract ──────────────────────────────────────────────────────

/// The strings of the third table.
pub open spec fn block3_strings(b3: Seq<Block3>) -> Seq<Seq<char>> {
    Seq::new(b3.len(), |i: int| b3[i].string@)
}

/// The first index from `j` on holding `x`, or the length.
pub open spec fn find_from(strs: Seq<Seq<char>>, x: Seq<char>, j: int) -> int
    decreases strs.len() - j,
{
    if j < 0 || j >= strs.len() {
        strs.len() as int
    } else if strs[j] == x {
        j
    } else {
        find_from(strs, x, j + 1)
    }
}

/// The index of the first occurrence of string `i`.
pub open spec fn first_index(strs: Seq<Seq<char>>, i: int) -> int {
    find_from(strs, strs[i], 0)
}

/// The string section: each distinct string once, in order of first
/// occurrence, as UTF-8 followed by a NUL byte.
pub open spec fn string_table(strs: Seq<Seq<char>>) -> Seq<u8>
    decreases strs.len(),
{
    if strs.len() == 0 {
        Seq::empty()
    } else {
        let n = strs.len() - 1;
        let prev = string_table(strs.drop_last());
        if first_index(strs, n) == n {
            prev + encode_utf8(strs[n]) + seq![0u8]
        } else {
            prev
        }
    }
}

/// Where string `i` starts in the string section: where its first
/// occurrence was stored.
pub open spec fn string_offset(strs: Seq<Seq<char>>, i: int) -> int {
    string_table(strs.take(first_index(strs, i))).len() as int
}

/// The record counts of the eight tables.
pub open spec fn table_counts(obj: PopcapRenderEffectObject) -> Seq<u32> {
    seq![
        obj.block_1@.len() as u32,
        obj.block_2@.len() as u32,
        obj.block_3@.len() as u32,
        obj.block_4@.len() as u32,
        obj.block_5@.len() as u32,
        obj.block_6@.len() as u32,
        obj.block_7@.len() as u32,
        obj.block_8@.len() as u32
    ]
}

/// Where table `k` ends: the tables follow the 108-byte header in order.
pub open spec fn table_end(counts: Seq<u32>, k: int) -> int
    decreases k,
{
    if k <= 0 {
        108
    } else {
        table_end(counts, k - 1) + counts[k - 1] * block_size(k - 1)
    }
}

/// The offset recorded for table `k`; 0 for a table with no records.
pub open spec fn table_start(counts: Seq<u32>, k: int) -> u32 {
    if counts[k] > 0 { table_end(counts, k) as u32 } else { 0 }
}

/// The header words after the magic: version, the eight table entries and
/// the string section offset.
pub open spec fn header_words(counts: Seq<u32>) -> Seq<u32> {
    seq![1u32] + Seq::new(24, |q: int| table_word(counts, q)) + seq![table_end(counts, 8) as u32]
}

/// Word `q` of the third table: for each record its string's byte length,
/// its value and its string's offset.
pub open spec fn block3_word(b3: Seq<Block3>, q: int) -> u32 {
    let i = q / 3;
    if q % 3 == 0 {
        encode_utf8(b3[i].string@).len() as u32
    } else if q % 3 == 1 {
        b3[i].unknown_2
    } else {
        string_offset(block3_strings(b3), i) as u32
    }
}

/// The words of the third table.
pub open spec fn block3_words(b3: Seq<Block3>) -> Seq<u32> {
    Seq::new(3 * b3.len(), |q: int| block3_word(b3, q))
}

/// Word `q` of the table entries: count, offset and record size of each table.
pub open spec fn table_word(counts: Seq<u32>, q: int) -> u32 {
    let k = q / 3;
    if q % 3 == 0 { counts[k] } else if q % 3 == 1 { table_start(counts, k) } else { block_size(k) }
}

/// Little-endian bytes of a sequence of words.
pub open spec fn le32s(ws: Seq<u32>) -> Seq<u8> {
    Seq::new(4 * ws.len(), |p: int| le32_bytes(ws[p / 4] as int)[p % 4])
}

/// All words of a file after the magic.
#[verifier::opaque]
pub open spec fn popfx_words(obj: PopcapRenderEffectObject) -> Seq<u32> {
    header_words(table_counts(obj)) + record_words(obj.block_1@) + record_words(obj.block_2@)
        + block3_words(obj.block_3@) + record_words(obj.block_4@) + record_words(obj.block_5@)
        + record_words(obj.block_6@) + record_words(obj.block_7@) + record_words(obj.block_8@)
}

/// The bytes of the POPFX file of `obj`.
#[verifier::opaque]
pub open spec fn popfx_bytes(obj: PopcapRenderEffectObject) -> Seq<u8> {
    seq![0x78u8, 0x66u8, 0x63u8, 0x70u8] + le32s(popfx_words(obj)) + string_table(block3_strings(obj.block_3@))
}

/// Objects whose tables fit the 32-bit counts and offsets of the format.
pub open spec fn popfx_encodable(obj: PopcapRenderEffectObject) -> bool {
    &&& obj.block_1@.len() <= u32::MAX
    &&& obj.block_2@.len() <= u32::MAX
    &&& obj.block_3@.len() <= u32::MAX
    &&& obj.block_4@.len() <= u32::MAX
    &&& obj.block_5@.len() <= u32::MAX
    &&& obj.block_6@.len() <= u32::MAX
    &&& obj.block_7@.len() <= u32::MAX
    &&& obj.block_8@.len() <= u32::MAX
    &&& table_end(table_counts(obj), 8) <= u32::MAX
}

// ─── Encoding ───────────────────────────────────────────────────────────────

/// `find_from` stops at the first match at or after `m`.
proof fn lemma_find_from(strs: Seq<Seq<char>>, x: Seq<char>, m: int, j: int)
    requires
        0 <= m <= j,
        forall|k: int| m <= k < j ==> strs[k] != x,
        (j < strs.len() && strs[j] == x) || j == strs.len(),
    ensures
        find_from(strs, x, m) == j,
    decreases j - m,
{
    if m < j {
        lemma_find_from(strs, x, m + 1, j);
    }
}

/// A search from `m` lands at or after `m`.
proof fn lemma_find_lower(strs: Seq<Seq<char>>, x: Seq<char>, m: int)
    requires
        0 <= m <= strs.len(),
    ensures
        m <= find_from(strs, x, m) <= strs.len(),
    decreases strs.len() - m,
{
    if m < strs.len() && strs[m] != x {
        lemma_find_lower(strs, x, m + 1);
    }
}

/// A search that succeeds within a prefix gives the same index on the prefix.
proof fn lemma_find_prefix(strs: Seq<Seq<char>>, n: int, x: Seq<char>, m: int)
    requires
        0 <= m <= n,
        n <= strs.len(),
        find_from(strs, x, m) < n,
    ensures
        find_from(strs.take(n), x, m) == find_from(strs, x, m),
    decreases n - m,
{
    let p = strs.take(n);
    if m == n {
        lemma_find_lower(strs, x, m);
    } else if strs[m] == x {
        assert(p[m] == x);
    } else {
        assert(p[m] != x);
        lemma_find_lower(strs, x, m + 1);
        lemma_find_prefix(strs, n, x, m + 1);
    }
}

/// The first occurrence of string `i` is at most `i`.
proof fn lemma_first_index_bound(strs: Seq<Seq<char>>, i: int)
    requires
        0 <= i < strs.len(),
    ensures
        0 <= first_index(strs, i) <= i,
        strs[first_index(strs, i)] == strs[i],
{
    lemma_find_bound(strs, strs[i], 0, i);
}

proof fn lemma_find_bound(strs: Seq<Seq<char>>, x: Seq<char>, m: int, i: int)
    requires
        0 <= m <= i < strs.len(),
        strs[i] == x,
    ensures
        m <= find_from(strs, x, m) <= i,
        strs[find_from(strs, x, m)] == x,
    decreases i - m,
{
    if strs[m] != x {
        lemma_find_bound(strs, x, m + 1, i);
    }
}

/// The string section and the offset of each string of the third table.
fn build_string_table(b3: &Vec<Block3>) -> (res: (Vec<u8>, Vec<u32>))
    ensures
        res.0@ == string_table(block3_strings(b3@)),
        res.1@.len() == b3@.len(),
        forall|i: int| 0 <= i < b3@.len() ==> #[trigger] res.1@[i] == string_offset(block3_strings(b3@), i) as u32,
{
    let ghost strs = block3_strings(b3@);
    let mut section: Vec<u8> = Vec::new();
    let mut offs: Vec<u32> = Vec::new();
    let n = b3.len();
    let mut i: usize = 0;
    while i < n
        invariant
            i <= n,
            n == b3@.len(),
            strs == block3_strings(b3@),
            section@ == string_table(strs.take(i as int)),
            offs@.len() == i,
            forall|k: int| 0 <= k < i ==> #[trigger] offs@[k] == string_offset(strs, k) as u32,
        decreases n - i,
    {
        let mut j: usize = 0;
        while j < i && b3[j].string != b3[i].string
            invariant
                j <= i < n,
                n == b3@.len(),
                strs == block3_strings(b3@),
                forall|k: int| 0 <= k < j ==> strs[k] != strs[i as int],
            decreases i - j,
        {
            j = j + 1;
        }
        let ghost prefix = strs.take(i + 1);
        proof {
            if j < i {
                assert(strs[j as int] == strs[i as int]);
            }
            lemma_find_from(strs, strs[i as int], 0, j as int);
            assert(first_index(strs, i as int) == j);
            lemma_find_prefix(strs, i + 1, strs[i as int], 0);
            assert(prefix.len() == i + 1);
            assert(prefix[i as int] == strs[i as int]);
            assert(first_index(prefix, i as int) == j);
            assert(prefix.drop_last() =~= strs.take(i as int));
        }
        if j < i {
            let o = offs[j];
            proof {
                lemma_find_from(strs, strs[j as int], 0, j as int);
                assert(first_index(strs, j as int) == j);
            }
            offs.push(o);
        } else {
            let o = section.len() as u32;
            let bytes = b3[i].string.as_str().as_bytes();
            let mut copy = vstd::slice::slice_to_vec(bytes);
            section.append(&mut copy);
            section.push(0);
            offs.push(o);
        }
        i = i + 1;
    }
    proof {
        assert(strs.take(n as int) =~= strs);
    }
    (section, offs)
}

/// Appends each word as four little-endian bytes.
fn push_words(out: &mut Vec<u8>, words: &[u32])
    ensures
        final(out)@ == old(out)@ + le32s(words@),
{
    let mut i: usize = 0;
    while i < words.len()
        invariant
            i <= words@.len(),
            out@ == old(out)@ + le32s(words@.take(i as int)),
        decreases words@.len() - i,
    {
        let ghost before = out@;
        push_le32(out, words[i]);
        i = i + 1;
        proof {
            assert(le32s(words@.take(i as int)) =~= le32s(words@.take(i - 1)) + le32_bytes(words@[i - 1] as int));
        }
    }
    proof {
        assert(words@.take(words@.len() as int) =~= words@);
    }
}

/// Appends the words of each record in order.
fn push_records<T: PopfxRecord>(words: &mut Vec<u32>, recs: &Vec<T>)
    ensures
        final(words)@ == old(words)@ + record_words(recs@),
{
    let n = recs.len();
    let mut i: usize = 0;
    while i < n
        invariant
            i <= n,
            n == recs@.len(),
            words@ == old(words)@ + record_words(recs@.take(i as int)),
        decreases n - i,
    {
        recs[i].push_fields(words);
        proof {
            let w = T::width() as int;
            T::lemma_width(&recs@[i as int]);
            let a = record_words(recs@.take(i as int));
            let b = record_words(recs@.take(i + 1));
            assert forall|q: int| 0 <= q < b.len() implies #[trigger] b[q] == (a + recs@[i as int].fields())[q] by {
                assert(b.len() == w * (i + 1));
                assert(a.len() == w * i);
                vstd::arithmetic::div_mod::lemma_fundamental_div_mod(q, w);
                let d = q / w;
                let r = q % w;
                if q < w * i {
                    assert(0 <= d < i) by (nonlinear_arith) requires q == w * d + r, 0 <= r < w, q < w * i, 0 <= q, w > 0;
                } else {
                    assert(i * w <= q < i * w + w) by (nonlinear_arith) requires q < w * (i + 1), w * i <= q;
                    vstd::arithmetic::div_mod::lemma_fundamental_div_mod_converse(q, w, i as int, q - i * w);
                    assert(q - w * i == q - i * w) by (nonlinear_arith);
                }
            }
            assert(w * (i + 1) == w * i + w) by (nonlinear_arith);
            assert(b =~= a + recs@[i as int].fields());
        }
        i = i + 1;
    }
    proof {
        assert(recs@.take(n as int) =~= recs@);
    }
}

/// Table ends grow with the table index.
proof fn lemma_table_end_mono(counts: Seq<u32>, k: int)
    requires
        0 <= k <= 8,
    ensures
        108 <= table_end(counts, k) <= table_end(counts, 8),
    decreases 8 - k,
{
    lemma_table_end_lower(counts, k);
    if k < 8 {
        lemma_table_end_mono(counts, k + 1);
        assert(counts[k] * block_size(k) >= 0) by (nonlinear_arith);
    }
}

proof fn lemma_table_end_lower(counts: Seq<u32>, k: int)
    requires
        0 <= k <= 8,
    ensures
        108 <= table_end(counts, k),
    decreases k,
{
    if k > 0 {
        lemma_table_end_lower(counts, k - 1);
        assert(counts[k - 1] * block_size(k - 1) >= 0) by (nonlinear_arith);
    }
}

/// The header words after the magic.
fn header_words_exec(counts: &[u32; 8]) -> (words: Vec<u32>)
    requires
        table_end(counts@, 8) <= u32::MAX,
    ensures
        words@ == header_words(counts@),
{
    let mut words: Vec<u32> = Vec::new();
    words.push(1);
    let mut cur: u32 = 108;
    let mut k: usize = 0;
    while k < 8
        invariant
            k <= 8,
            table_end(counts@, 8) <= u32::MAX,
            cur == table_end(counts@, k as int),
            words@ == seq![1u32] + Seq::new(3 * k as nat, |q: int| table_word(counts@, q)),
        decreases 8 - k,
    {
        let c = counts[k];
        let size = block_size_exec(k);
        let start = if c > 0 { cur } else { 0 };
        words.push(c);
        words.push(start);
        words.push(size);
        proof {
            lemma_table_end_mono(counts@, k + 1);
            assert(words@ =~= seq![1u32] + Seq::new(3 * (k + 1) as nat, |q: int| table_word(counts@, q)));
        }
        cur = cur + c * size;
        k = k + 1;
    }
    words.push(cur);
    words
}

/// Encodes a POPFX file.
pub fn encode_popfx(obj: &PopcapRenderEffectObject) -> (out: Vec<u8>)
    requires
        popfx_encodable(*obj),
    ensures
        out@ == popfx_bytes(*obj),
{
    let (mut section, offs) = build_string_table(&obj.block_3);
    let counts: [u32; 8] = [
        obj.block_1.len() as u32,
        obj.block_2.len() as u32,
        obj.block_3.len() as u32,
        obj.block_4.len() as u32,
        obj.block_5.len() as u32,
        obj.block_6.len() as u32,
        obj.block_7.len() as u32,
        obj.block_8.len() as u32,
    ];
    assert(counts@ =~= table_counts(*obj));
    let mut words = header_words_exec(&counts);
    push_records(&mut words, &obj.block_1);
    push_records(&mut words, &obj.block_2);
    let ghost base = words@;
    let b3 = &obj.block_3;
    let mut i: usize = 0;
    while i < b3.len()
        invariant
            i <= b3@.len(),
            offs@.len() == b3@.len(),
            forall|k: int| 0 <= k < b3@.len() ==> #[trigger] offs@[k] == string_offset(block3_strings(b3@), k) as u32,
            words@ == base + Seq::new(3 * i as nat, |q: int| block3_word(b3@, q)),
        decreases b3@.len() - i,
    {
        let len = b3[i].string.as_str().as_bytes().len() as u32;
        words.push(len);
        words.push(b3[i].unknown_2);
        words.push(offs[i]);
        proof {
            assert(block3_word(b3@, 3 * i) == len);
            assert(block3_word(b3@, 3 * i + 1) == b3@[i as int].unknown_2);
            assert(block3_word(b3@, 3 * i + 2) == offs@[i as int]);
            assert(words@ =~= base + Seq::new(3 * (i + 1) as nat, |q: int| block3_word(b3@, q)));
        }
        i = i + 1;
    }
    push_records(&mut words, &obj.block_4);
    push_records(&mut words, &obj.block_5);
    push_records(&mut words, &obj.block_6);
    push_records(&mut words, &obj.block_7);
    push_records(&mut words, &obj.block_8);
    assert(words@ =~= popfx_words(*obj)) by {
        reveal(popfx_words);
    }
    let mut out: Vec<u8> = Vec::new();
    out.push(0x78);
    out.push(0x66);
    out.push(0x63);
    out.push(0x70);
    push_words(&mut out, words.as_slice());
    out.append(&mut section);
    assert(out@ =~= popfx_bytes(*obj)) by {
        reveal(popfx_bytes);
    }
    out
}

// ─── Round trip ─────────────────────────────────────────────────────────────

/// The characters of `s` include no NUL.
pub open spec fn no_nul(s: Seq<char>) -> bool {
    forall|i: int| 0 <= i < s.len() ==> #[trigger] (s[i] as u32) != 0
}

/// The UTF-8 encoding of a non-NUL character has no zero byte.
pub(crate) proof fn lemma_scalar_nonzero(c: u32)
    requires
        c != 0,
    ensures
        forall|j: int| 0 <= j < vstd::utf8::encode_scalar(c).len() ==> #[trigger] vstd::utf8::encode_scalar(c)[j] != 0,
{
    use_nonzero_bytes(c);
}

proof fn use_nonzero_bytes(c: u32)
    requires
        c != 0,
    ensures
        vstd::utf8::has_width_1_encoding(c) ==> vstd::utf8::leading_byte_width_1(c) != 0,
        vstd::utf8::leading_byte_width_2(c) != 0,
        vstd::utf8::leading_byte_width_3(c) != 0,
        vstd::utf8::leading_byte_width_4(c) != 0,
        vstd::utf8::last_continuation_byte(c) != 0,
        vstd::utf8::second_last_continuation_byte(c) != 0,
        vstd::utf8::third_last_continuation_byte(c) != 0,
{
    assert(vstd::utf8::has_width_1_encoding(c) ==> vstd::utf8::leading_byte_width_1(c) != 0) by (bit_vector)
        requires c != 0;
    assert(vstd::utf8::leading_byte_width_2(c) != 0) by (bit_vector);
    assert(vstd::utf8::leading_byte_width_3(c) != 0) by (bit_vector);
    assert(vstd::utf8::leading_byte_width_4(c) != 0) by (bit_vector);
    assert(vstd::utf8::last_continuation_byte(c) != 0) by (bit_vector);
    assert(vstd::utf8::second_last_continuation_byte(c) != 0) by (bit_vector);
    assert(vstd::utf8::third_last_continuation_byte(c) != 0) by (bit_vector);
}

/// The UTF-8 encoding of a string with no NUL has no zero byte.
proof fn lemma_encode_nonzero(s: Seq<char>)
    requires
        no_nul(s),
    ensures
        forall|j: int| 0 <= j < encode_utf8(s).len() ==> #[trigger] encode_utf8(s)[j] != 0,
    decreases s.len(),
{
    if s.len() > 0 {
        assert((s[0] as u32) != 0);
        lemma_scalar_nonzero(s[0] as u32);
        assert(no_nul(s.drop_first()));
        lemma_encode_nonzero(s.drop_first());
        let e = vstd::utf8::encode_scalar(s[0] as u32);
        assert(encode_utf8(s) == e + encode_utf8(s.drop_first()));
        assert forall|j: int| 0 <= j < encode_utf8(s).len() implies #[trigger] encode_utf8(s)[j] != 0 by {
            if j < e.len() {
                assert(encode_utf8(s)[j] == e[j]);
            } else {
                assert(encode_utf8(s)[j] == encode_utf8(s.drop_first())[j - e.len()]);
            }
        }
    }
}

/// Scanning non-zero bytes up to a zero byte stops there.
proof fn lemma_nul_from(s: Seq<u8>, p: int, e: int)
    requires
        0 <= p <= e < s.len(),
        s[e] == 0,
        forall|j: int| p <= j < e ==> #[trigger] s[j] != 0,
    ensures
        nul_from(s, p) == e,
    decreases e - p,
{
    if p < e {
        lemma_nul_from(s, p + 1, e);
    }
}

/// The words after the magic read back from the encoded bytes.
proof fn lemma_le32s_read(d: Seq<u8>, ws: Seq<u32>, tail: Seq<u8>, q: int)
    requires
        d == seq![0x78u8, 0x66u8, 0x63u8, 0x70u8] + le32s(ws) + tail,
        0 <= q < ws.len(),
    ensures
        le32(d, 4 + 4 * q) == ws[q],
{
    let b = le32_bytes(ws[q] as int);
    assert forall|r: int| 0 <= r < 4 implies d[4 + 4 * q + r] == #[trigger] b[r] by {
        assert(le32s(ws)[4 * q + r] == b[r]);
    }
    crate::bytes::lemma_le32_roundtrip(ws[q] as int);
}

/// The string section grows by appending: an earlier prefix's section is a
/// prefix of a later one's.
proof fn lemma_table_prefix(strs: Seq<Seq<char>>, m: int, n: int)
    requires
        0 <= m <= n <= strs.len(),
    ensures
        string_table(strs.take(m)).len() <= string_table(strs.take(n)).len(),
        string_table(strs.take(n)).subrange(0, string_table(strs.take(m)).len() as int) == string_table(strs.take(m)),
    decreases n - m,
{
    if m < n {
        lemma_table_prefix(strs, m, n - 1);
        let p = strs.take(n);
        assert(p.drop_last() =~= strs.take(n - 1));
        let a = string_table(strs.take(m));
        let b = string_table(strs.take(n - 1));
        let c = string_table(p);
        assert(c.subrange(0, b.len() as int) =~= b);
        assert(c.subrange(0, a.len() as int) =~= b.subrange(0, a.len() as int));
    }
}

/// The first occurrence of a string is stored, NUL-terminated, at its offset.
proof fn lemma_stored_at(strs: Seq<Seq<char>>, i: int)
    requires
        0 <= i < strs.len(),
    ensures
        ({
            let f = first_index(strs, i);
            let t = string_table(strs);
            let o = string_offset(strs, i);
            &&& 0 <= o
            &&& o + encode_utf8(strs[i]).len() + 1 <= t.len()
            &&& t.subrange(o, o + encode_utf8(strs[i]).len()) == encode_utf8(strs[i])
            &&& t[o + encode_utf8(strs[i]).len()] == 0
        }),
{
    let f = first_index(strs, i);
    lemma_first_index_bound(strs, i);
    let x = strs[i];
    let p = strs.take(f + 1);
    lemma_find_prefix(strs, f + 1, x, 0);
    assert(p[f] == x);
    assert(first_index(p, f) == f) by {
        assert(first_index(strs, f) == f) by {
            lemma_find_lower(strs, x, 0);
        }
    }
    assert(p.drop_last() =~= strs.take(f));
    let a = string_table(strs.take(f));
    let e = encode_utf8(x);
    assert(string_table(p) == a + e + seq![0u8]);
    lemma_table_prefix(strs, f + 1, strs.len() as int);
    assert(strs.take(strs.len() as int) =~= strs);
    let t = string_table(strs);
    assert(t.subrange(0, string_table(p).len() as int) == string_table(p));
    assert(t.subrange(a.len() as int, (a.len() + e.len()) as int) =~= e) by {
        assert forall|j: int| 0 <= j < e.len() implies #[trigger] t.subrange(a.len() as int, (a.len() + e.len()) as int)[j] == e[j] by {
            assert(t[a.len() + j] == t.subrange(0, string_table(p).len() as int)[a.len() + j]);
            assert(string_table(p)[a.len() + j] == e[j]);
        }
    }
    assert(t[(a.len() + e.len()) as int] == t.subrange(0, string_table(p).len() as int)[(a.len() + e.len()) as int]);
}

/// Word `q` after the magic.
pub open spec fn word_at(d: Seq<u8>, q: int) -> int {
    le32(d, 4 + 4 * q)
}

/// `a` holds the same tables as `b`.
pub open spec fn same_tables(a: PopcapRenderEffectObject, b: PopcapRenderEffectObject) -> bool {
    &&& a.block_1@ == b.block_1@
    &&& a.block_2@ == b.block_2@
    &&& a.block_3@.len() == b.block_3@.len()
    &&& forall|i: int| 0 <= i < a.block_3@.len() ==> {
        &&& #[trigger] a.block_3@[i].unknown_2 == b.block_3@[i].unknown_2
        &&& a.block_3@[i].string@ == b.block_3@[i].string@
    }
    &&& a.block_4@ == b.block_4@
    &&& a.block_5@ == b.block_5@
    &&& a.block_6@ == b.block_6@
    &&& a.block_7@ == b.block_7@
    &&& a.block_8@ == b.block_8@
}

/// The bytes of an encoded object: every word reads back, and the string
/// section follows the words.
proof fn lemma_layout(obj: PopcapRenderEffectObject)
    ensures
        ({
            let d = popfx_bytes(obj);
            let w = popfx_words(obj);
            &&& d.len() == 4 + 4 * w.len() + string_table(block3_strings(obj.block_3@)).len()
            &&& d[0] == 0x78u8 && d[1] == 0x66u8 && d[2] == 0x63u8 && d[3] == 0x70u8
            &&& forall|q: int| 0 <= q < w.len() ==> #[trigger] word_at(d, q) == w[q]
            &&& d.subrange((4 + 4 * w.len()) as int, d.len() as int) == string_table(block3_strings(obj.block_3@))
        }),
{
    reveal(popfx_bytes);
    let d = popfx_bytes(obj);
    let w = popfx_words(obj);
    let t = string_table(block3_strings(obj.block_3@));
    assert forall|q: int| 0 <= q < w.len() implies #[trigger] word_at(d, q) == w[q] by {
        lemma_le32s_read(d, w, t, q);
    }
    assert(d.subrange((4 + 4 * w.len()) as int, d.len() as int) =~= t);
}

/// Records read back from their words are the records written.
proof fn lemma_records_back<T: PopfxRecord>(d: Seq<u8>, w: Seq<u32>, recs: Seq<T>, base: int, off: int, got: Seq<T>)
    requires
        forall|q: int| 0 <= q < w.len() ==> #[trigger] word_at(d, q) == w[q],
        0 <= base,
        base + T::width() * recs.len() <= w.len(),
        forall|x: int| 0 <= x < T::width() * recs.len() ==> #[trigger] w[base + x] == record_words(recs)[x],
        recs.len() > 0 ==> off == 4 + 4 * base,
        records_read(got, d, off, recs.len() as int),
    ensures
        got == recs,
{
    assert forall|i: int| 0 <= i < recs.len() implies #[trigger] got[i] == recs[i] by {
        let n = T::width() as int;
        T::lemma_width(&recs[i]);
        T::lemma_width(&got[i]);
        assert forall|j: int| 0 <= j < n implies #[trigger] got[i].fields()[j] == recs[i].fields()[j] by {
            let x = n * i + j;
            assert(0 <= x < n * recs.len()) by (nonlinear_arith)
                requires x == n * i + j, 0 <= j < n, 0 <= i < recs.len();
            vstd::arithmetic::div_mod::lemma_fundamental_div_mod_converse(x, n, i, j);
            assert(x == i * n + j) by (nonlinear_arith) requires x == n * i + j;
            assert(off + 4 * n * i + 4 * j == 4 + 4 * (base + x)) by (nonlinear_arith)
                requires off == 4 + 4 * base, x == n * i + j;
            assert(word_at(d, base + x) == w[base + x]);
            assert(got[i].fields()[j] == words_at(d, off + 4 * n * i, n as nat)[j]);
        }
        assert(got[i].fields() =~= recs[i].fields());
        T::lemma_injective(&got[i], &recs[i]);
    }
    assert(got =~= recs);
}

proof fn lemma_tables_ok(d: Seq<u8>, k: int)
    requires
        0 <= k <= 8,
        d.len() >= 108,
        forall|m: int| k <= m < 8 ==> #[trigger] table_size(d, m) == block_size(m),
    ensures
        table_fault(d, k) is None,
    decreases 8 - k,
{
    if k < 8 {
        assert(table_size(d, k) == block_size(k));
        lemma_tables_ok(d, k + 1);
    }
}

/// Record `i` of the third table is whole and names a UTF-8 string.
pub open spec fn block3_record_ok(d: Seq<u8>, i: int) -> bool {
    table_offset(d, 2) + 12 * (i + 1) <= d.len() && valid_utf8(block3_string(d, i))
}

proof fn lemma_block3_ok(d: Seq<u8>, m: int)
    requires
        0 <= m,
        forall|i: int| m <= i < table_count(d, 2) ==> #[trigger] block3_record_ok(d, i),
    ensures
        block3_fault_from(d, m) is None,
    decreases table_count(d, 2) - m,
{
    if m < table_count(d, 2) {
        assert(block3_record_ok(d, m));
        lemma_block3_ok(d, m + 1);
    }
}

/// The string of record `i` of the third table reads back from the section.
proof fn lemma_string_back(b3: Seq<Block3>, i: int)
    requires
        0 <= i < b3.len(),
        no_nul(b3[i].string@),
    ensures
        ({
            let strs = block3_strings(b3);
            let t = string_table(strs);
            let o = string_offset(strs, i);
            &&& 0 <= o < t.len()
            &&& c_string(t, o) == encode_utf8(b3[i].string@)
            &&& valid_utf8(c_string(t, o))
            &&& decode_utf8(c_string(t, o)) == b3[i].string@
        }),
{
    let strs = block3_strings(b3);
    let t = string_table(strs);
    let o = string_offset(strs, i);
    let s = b3[i].string@;
    assert(strs[i] == s);
    lemma_stored_at(strs, i);
    let e = encode_utf8(s);
    lemma_encode_nonzero(s);
    assert forall|j: int| o <= j < o + e.len() implies #[trigger] t[j] != 0 by {
        assert(t.subrange(o, o + e.len())[j - o] == e[j - o]);
    }
    lemma_nul_from(t, o, o + e.len());
    assert(c_string(t, o) =~= e);
    vstd::utf8::encode_utf8_valid_utf8(s);
    vstd::utf8::encode_utf8_decode_utf8(s);
}

/// Index of the first word of table `k` after the magic.
pub open spec fn word_base(c: Seq<u32>, k: int) -> int {
    (table_end(c, k) - 4) / 4
}

/// The counts of an encodable object are its table lengths.
proof fn lemma_counts(obj: PopcapRenderEffectObject)
    requires
        popfx_encodable(obj),
    ensures
        ({
            let c = table_counts(obj);
            &&& c[0] == obj.block_1@.len() && c[1] == obj.block_2@.len()
            &&& c[2] == obj.block_3@.len() && c[3] == obj.block_4@.len()
            &&& c[4] == obj.block_5@.len() && c[5] == obj.block_6@.len()
            &&& c[6] == obj.block_7@.len() && c[7] == obj.block_8@.len()
        }),
{
}

/// `n` records of table `k` take `4 * block_width(k) * n` bytes.
proof fn lemma_size_times(n: int, k: int)
    requires
        0 <= k < 8,
    ensures
        n * block_size(k) == (if k == 0 { 24 * n } else if k == 1 { 8 * n } else if k == 2 { 12 * n }
            else if k == 3 { 20 * n } else if k == 4 { 28 * n } else if k == 5 { 20 * n }
            else if k == 6 { 8 * n } else { 20 * n }),
{
    let b = block_size(k);
    if k == 0 { assert(n * b == 24 * n) by (nonlinear_arith) requires b == 24; }
    else if k == 1 { assert(n * b == 8 * n) by (nonlinear_arith) requires b == 8; }
    else if k == 2 { assert(n * b == 12 * n) by (nonlinear_arith) requires b == 12; }
    else if k == 3 { assert(n * b == 20 * n) by (nonlinear_arith) requires b == 20; }
    else if k == 4 { assert(n * b == 28 * n) by (nonlinear_arith) requires b == 28; }
    else if k == 5 { assert(n * b == 20 * n) by (nonlinear_arith) requires b == 20; }
    else if k == 6 { assert(n * b == 8 * n) by (nonlinear_arith) requires b == 8; }
    else { assert(n * b == 20 * n) by (nonlinear_arith) requires b == 20; }
}

/// Where each table's words begin among the words of an encoded object.
#[verifier::spinoff_prover]
#[verifier::rlimit(40)]
proof fn lemma_word_bases(obj: PopcapRenderEffectObject)
    requires
        popfx_encodable(obj),
    ensures
        ({
            let c = table_counts(obj);
            let w = popfx_words(obj);
            &&& word_base(c, 0) == 26
            &&& word_base(c, 1) == word_base(c, 0) + record_words(obj.block_1@).len()
            &&& word_base(c, 2) == word_base(c, 1) + record_words(obj.block_2@).len()
            &&& word_base(c, 3) == word_base(c, 2) + block3_words(obj.block_3@).len()
            &&& word_base(c, 4) == word_base(c, 3) + record_words(obj.block_4@).len()
            &&& word_base(c, 5) == word_base(c, 4) + record_words(obj.block_5@).len()
            &&& word_base(c, 6) == word_base(c, 5) + record_words(obj.block_6@).len()
            &&& word_base(c, 7) == word_base(c, 6) + record_words(obj.block_7@).len()
            &&& word_base(c, 8) == word_base(c, 7) + record_words(obj.block_8@).len()
            &&& word_base(c, 8) == w.len()
            &&& forall|k: int| 0 <= k <= 8 ==> #[trigger] table_end(c, k) == 4 + 4 * word_base(c, k)
        }),
{
    reveal(popfx_words);
    let c = table_counts(obj);
    lemma_counts(obj);
    assert(table_end(c, 0) == 108);
    lemma_size_times(c[0] as int, 0);
    lemma_size_times(c[1] as int, 1);
    lemma_size_times(c[2] as int, 2);
    lemma_size_times(c[3] as int, 3);
    lemma_size_times(c[4] as int, 4);
    lemma_size_times(c[5] as int, 5);
    lemma_size_times(c[6] as int, 6);
    lemma_size_times(c[7] as int, 7);
    assert(table_end(c, 1) == table_end(c, 0) + 24 * c[0]);
    assert(table_end(c, 2) == table_end(c, 1) + 8 * c[1]);
    assert(table_end(c, 3) == table_end(c, 2) + 12 * c[2]);
    assert(table_end(c, 4) == table_end(c, 3) + 20 * c[3]);
    assert(table_end(c, 5) == table_end(c, 4) + 28 * c[4]);
    assert(table_end(c, 6) == table_end(c, 5) + 20 * c[5]);
    assert(table_end(c, 7) == table_end(c, 6) + 8 * c[6]);
    assert(table_end(c, 8) == table_end(c, 7) + 20 * c[7]);
    assert forall|k: int| 0 <= k <= 8 implies #[trigger] table_end(c, k) == 4 + 4 * word_base(c, k) by {
        assert(k == 0 || k == 1 || k == 2 || k == 3 || k == 4 || k == 5 || k == 6 || k == 7 || k == 8);
    }
}

/// The words of table `k` sit at its base among the words of an encoded object.
proof fn lemma_table_words(obj: PopcapRenderEffectObject)
    requires
        popfx_encodable(obj),
    ensures
        ({
            let c = table_counts(obj);
            let w = popfx_words(obj);
            &&& forall|q: int| 0 <= q < 26 ==> #[trigger] w[q] == header_words(c)[q]
            &&& forall|x: int| 0 <= x < record_words(obj.block_1@).len() ==> #[trigger] w[word_base(c, 0) + x] == record_words(obj.block_1@)[x]
            &&& forall|x: int| 0 <= x < record_words(obj.block_2@).len() ==> #[trigger] w[word_base(c, 1) + x] == record_words(obj.block_2@)[x]
            &&& forall|x: int| 0 <= x < block3_words(obj.block_3@).len() ==> #[trigger] w[word_base(c, 2) + x] == block3_words(obj.block_3@)[x]
            &&& forall|x: int| 0 <= x < record_words(obj.block_4@).len() ==> #[trigger] w[word_base(c, 3) + x] == record_words(obj.block_4@)[x]
            &&& forall|x: int| 0 <= x < record_words(obj.block_5@).len() ==> #[trigger] w[word_base(c, 4) + x] == record_words(obj.block_5@)[x]
            &&& forall|x: int| 0 <= x < record_words(obj.block_6@).len() ==> #[trigger] w[word_base(c, 5) + x] == record_words(obj.block_6@)[x]
            &&& forall|x: int| 0 <= x < record_words(obj.block_7@).len() ==> #[trigger] w[word_base(c, 6) + x] == record_words(obj.block_7@)[x]
            &&& forall|x: int| 0 <= x < record_words(obj.block_8@).len() ==> #[trigger] w[word_base(c, 7) + x] == record_words(obj.block_8@)[x]
        }),
{
    reveal(popfx_words);
    lemma_word_bases(obj);
}

/// The header of an encoded object reads back: no fault, the counts, the
/// offsets and the string section.
proof fn lemma_header_back(obj: PopcapRenderEffectObject)
    requires
        popfx_encodable(obj),
    ensures
        ({
            let d = popfx_bytes(obj);
            let c = table_counts(obj);
            &&& header_fault(d) is None
            &&& forall|k: int| 0 <= k < 8 ==> #[trigger] table_count(d, k) == c[k]
            &&& forall|k: int| 0 <= k < 8 ==> #[trigger] table_offset(d, k) == table_start(c, k)
            &&& strings_offset(d) == table_end(c, 8)
            &&& string_section(d) == string_table(block3_strings(obj.block_3@))
        }),
{
    let d = popfx_bytes(obj);
    let w = popfx_words(obj);
    let c = table_counts(obj);
    let h = header_words(c);
    lemma_layout(obj);
    lemma_word_bases(obj);
    lemma_table_words(obj);
    assert(word_at(d, 0) == 1);
    assert forall|k: int| 0 <= k < 8 implies #[trigger] table_count(d, k) == c[k] by {
        assert(table_count(d, k) == word_at(d, 1 + 3 * k));
        assert(table_word(c, 3 * k) == c[k]);
    }
    assert forall|k: int| 0 <= k < 8 implies #[trigger] table_offset(d, k) == table_start(c, k) by {
        assert(table_offset(d, k) == word_at(d, 2 + 3 * k));
        assert(table_word(c, 3 * k + 1) == table_start(c, k));
    }
    assert forall|k: int| 0 <= k < 8 implies #[trigger] table_size(d, k) == block_size(k) by {
        assert(table_size(d, k) == word_at(d, 3 + 3 * k));
        assert(table_word(c, 3 * k + 2) == block_size(k));
    }
    assert(strings_offset(d) == word_at(d, 25));
    assert(h[25] == table_end(c, 8) as u32);
    assert(strings_offset(d) == table_end(c, 8));
    lemma_tables_ok(d, 0);
    assert(d.len() >= 108);
    assert(d[0] == 0x78u8 && d[1] == 0x66u8 && d[2] == 0x63u8 && d[3] == 0x70u8);
    assert(le32(d, 4) == 1);
    assert(header_fault(d) is None);
    assert(string_section(d) == string_table(block3_strings(obj.block_3@)));
}

/// Record `i` of the third table reads back as `b3[i]`.
pub open spec fn block3_back_ok(d: Seq<u8>, b3: Seq<Block3>, i: int) -> bool {
    &&& block3_record_ok(d, i)
    &&& le32(d, table_offset(d, 2) + 12 * i + 4) == b3[i].unknown_2
    &&& decode_utf8(block3_string(d, i)) == b3[i].string@
}

/// The records of the third table of an encoded object read back.
proof fn lemma_block3_back(obj: PopcapRenderEffectObject)
    requires
        popfx_encodable(obj),
        forall|i: int| 0 <= i < obj.block_3@.len() ==> no_nul(#[trigger] obj.block_3@[i].string@),
        string_table(block3_strings(obj.block_3@)).len() <= u32::MAX,
    ensures
        ({
            let d = popfx_bytes(obj);
            let b3 = obj.block_3@;
            &&& table_count(d, 2) == b3.len()
            &&& forall|i: int| 0 <= i < b3.len() ==> #[trigger] block3_back_ok(d, b3, i)
        }),
{
    let d = popfx_bytes(obj);
    let w = popfx_words(obj);
    let b3 = obj.block_3@;
    let strs = block3_strings(b3);
    let c = table_counts(obj);
    lemma_layout(obj);
    lemma_counts(obj);
    lemma_word_bases(obj);
    lemma_table_words(obj);
    lemma_header_back(obj);
    let r3 = block3_words(b3);
    let base2 = word_base(c, 2);
    assert forall|i: int| 0 <= i < b3.len() implies #[trigger] block3_back_ok(d, b3, i) by {
        lemma_table_end_mono(c, 2);
        assert(table_offset(d, 2) == 4 + 4 * base2);
        assert(le32(d, table_offset(d, 2) + 12 * i + 8) == word_at(d, base2 + (3 * i + 2)));
        assert(le32(d, table_offset(d, 2) + 12 * i + 4) == word_at(d, base2 + (3 * i + 1)));
        assert(w[base2 + (3 * i + 2)] == r3[3 * i + 2]);
        assert(w[base2 + (3 * i + 1)] == r3[3 * i + 1]);
        assert(block3_word(b3, 3 * i + 2) == string_offset(strs, i) as u32);
        assert(block3_word(b3, 3 * i + 1) == b3[i].unknown_2);
        lemma_string_back(b3, i);
    }
    assert(table_count(d, 2) == c[2]);
    assert(table_count(d, 2) == b3.len());
}

/// Decoding the encoding of an object meets no fault, provided its strings
/// hold no NUL and its string section is addressable with 32-bit offsets.
proof fn lemma_roundtrip_no_fault(obj: PopcapRenderEffectObject)
    requires
        popfx_encodable(obj),
        forall|i: int| 0 <= i < obj.block_3@.len() ==> no_nul(#[trigger] obj.block_3@[i].string@),
        string_table(block3_strings(obj.block_3@)).len() <= u32::MAX,
    ensures
        popfx_decodable(popfx_bytes(obj)),
        popfx_fault(popfx_bytes(obj)) is None,
{
    let d = popfx_bytes(obj);
    let w = popfx_words(obj);
    let c = table_counts(obj);
    lemma_layout(obj);
    lemma_counts(obj);
    lemma_word_bases(obj);
    lemma_header_back(obj);
    lemma_block3_back(obj);
    assert forall|i: int| 0 <= i < table_count(d, 2) implies #[trigger] block3_record_ok(d, i) by {
        assert(block3_back_ok(d, obj.block_3@, i));
    }
    lemma_block3_ok(d, 0);
}

/// The record tables of an encoded object read back.
#[verifier::spinoff_prover]
#[verifier::rlimit(50)]
proof fn lemma_roundtrip_records(obj: PopcapRenderEffectObject, got: PopcapRenderEffectObject)
    requires
        popfx_encodable(obj),
        popfx_read(got, popfx_bytes(obj)),
    ensures
        got.block_1@ == obj.block_1@,
        got.block_2@ == obj.block_2@,
        got.block_4@ == obj.block_4@,
        got.block_5@ == obj.block_5@,
        got.block_6@ == obj.block_6@,
        got.block_7@ == obj.block_7@,
        got.block_8@ == obj.block_8@,
{
    let d = popfx_bytes(obj);
    let w = popfx_words(obj);
    let c = table_counts(obj);
    lemma_layout(obj);
    lemma_counts(obj);
    lemma_word_bases(obj);
    lemma_table_words(obj);
    lemma_header_back(obj);
    lemma_records_back(d, w, obj.block_1@, word_base(c, 0), table_offset(d, 0), got.block_1@);
    lemma_records_back(d, w, obj.block_2@, word_base(c, 1), table_offset(d, 1), got.block_2@);
    lemma_records_back(d, w, obj.block_4@, word_base(c, 3), table_offset(d, 3), got.block_4@);
    lemma_records_back(d, w, obj.block_5@, word_base(c, 4), table_offset(d, 4), got.block_5@);
    lemma_records_back(d, w, obj.block_6@, word_base(c, 5), table_offset(d, 5), got.block_6@);
    lemma_records_back(d, w, obj.block_7@, word_base(c, 6), table_offset(d, 6), got.block_7@);
    lemma_records_back(d, w, obj.block_8@, word_base(c, 7), table_offset(d, 7), got.block_8@);
}

/// Decoding the encoding of an object gives back its tables, provided its
/// strings hold no NUL (decoding ends a string at the first NUL) and its
/// string section is addressable with 32-bit offsets.
#[verifier::spinoff_prover]
pub proof fn lemma_popfx_roundtrip(obj: PopcapRenderEffectObject, got: PopcapRenderEffectObject)
    requires
        popfx_encodable(obj),
        forall|i: int| 0 <= i < obj.block_3@.len() ==> no_nul(#[trigger] obj.block_3@[i].string@),
        string_table(block3_strings(obj.block_3@)).len() <= u32::MAX,
    ensures
        popfx_decodable(popfx_bytes(obj)),
        popfx_fault(popfx_bytes(obj)) is None,
        popfx_read(got, popfx_bytes(obj)) ==> same_tables(got, obj),
{
    lemma_roundtrip_no_fault(obj);
    let d = popfx_bytes(obj);
    if popfx_read(got, d) {
        lemma_roundtrip_records(obj, got);
        lemma_block3_back(obj);
        assert forall|i: int| 0 <= i < got.block_3@.len() implies {
            &&& #[trigger] got.block_3@[i].unknown_2 == obj.block_3@[i].unknown_2
            &&& got.block_3@[i].string@ == obj.block_3@[i].string@
        } by {
            assert(table_count(d, 2) == obj.block_3@.len());
            assert(i < obj.block_3@.len());
            assert(block3_back_ok(d, obj.block_3@, i));
            assert(got.block_3@[i].unknown_2 == le32(d, table_offset(d, 2) + 12 * i + 4));
            assert(got.block_3@[i].string@ == decode_utf8(block3_string(d, i)));
        }
    }
}

} // verus!
