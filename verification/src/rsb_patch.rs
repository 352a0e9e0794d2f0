//! RSBPatch containers: a 48-byte header (magic `PBSR`, version 1.2, sizes,
//! the MD5 of the RSB before patching), an optional VCDIFF delta of the RSB
//! header at 0x30, then one entry per packet: a 152-byte record (delta size
//! at 4, NUL-padded name at 8, MD5 at 136) followed by the packet's delta.
use vstd::prelude::*;
use crate::bytes::{as_i32, le32, read_le_i32};
use crate::text::{signed_decimal, push_signed_decimal, string_from_utf8_lossy, utf8_lossy};

verus! {

/// Errors of reading an RSBPatch container.
#[derive(Debug)]
pub enum RsbPatchError {
    /// The data ends inside a value that is read.
    UnexpectedEof,
    InvalidFile(String),
}

/// The fixed header of an RSBPatch container.
#[derive(Debug, Clone)]
pub struct RsbPatchHeader {
    pub rsb_after_size: i32,
    pub rsb_head_size: i32,
    pub md5_before: [u8; 16],
    pub rsg_number: i32,
    pub rsb_need_patch: bool,
}

/// The record before each packet's delta.
#[derive(Debug, Clone)]
pub struct RsbPatchPacketInfo {
    pub packet_patch_size: i32,
    pub packet_name: String,
    pub md5_packet: [u8; 16],
}

/// Signed little-endian 32-bit value at `o`.
pub open spec fn i32_at(d: Seq<u8>, o: int) -> i32 {
    as_i32(le32(d, o)) as i32
}

/// The data holds `PBSR` at `p`.
pub open spec fn pbsr_at(d: Seq<u8>, p: int) -> bool {
    d[p] == 0x50 && d[p + 1] == 0x42 && d[p + 2] == 0x53 && d[p + 3] == 0x52
}

/// The first fault of reading a header from `p`, in reading order: `Some(None)`
/// when the data ends inside a value, `Some(Some(m))` for an invalid file
/// with message `m`.
pub open spec fn header_fault(d: Seq<u8>, p: int) -> Option<Option<Seq<char>>> {
    let len = d.len() as int;
    if len - p < 4 {
        Some(None)
    } else if !pbsr_at(d, p) {
        Some(Some("Invalid Magic: Not a PBSR file"@))
    } else if len - p < 12 {
        Some(None)
    } else if i32_at(d, p + 4) != 1 || i32_at(d, p + 8) != 2 {
        Some(Some("Unsupported version: "@ + signed_decimal(i32_at(d, p + 4) as int) + "."@
            + signed_decimal(i32_at(d, p + 8) as int)))
    } else if len - p < 40 || 0x30 > len {
        Some(None)
    } else {
        None
    }
}

/// Where reading a header from `p` leaves the position: after the magic or
/// the versions when those are invalid, at the end when the data ends early,
/// and at 0x30 on success.
pub open spec fn header_end(d: Seq<u8>, p: int) -> int {
    match header_fault(d, p) {
        Some(None) => d.len() as int,
        Some(Some(_)) => if !pbsr_at(d, p) { p + 4 } else { p + 12 },
        None => 0x30,
    }
}

/// Index of the first NUL among the 128 name bytes from `o`, or 128.
pub open spec fn name_len(d: Seq<u8>, o: int, n: int) -> int
    decreases 128 - n,
{
    if n >= 128 || d[o + n] == 0 {
        n
    } else {
        name_len(d, o, n + 1)
    }
}

/// Reads RSBPatch containers held in memory.
pub struct RsbPatchReader {
    data: Vec<u8>,
    pos: u64,
}

impl RsbPatchReader {
    /// The bytes being read.
    pub closed spec fn bytes(&self) -> Seq<u8> {
        self.data@
    }

    /// The read position.
    pub closed spec fn position(&self) -> int {
        self.pos as int
    }

    /// The position lies within the data.
    pub closed spec fn wf(&self) -> bool {
        self.pos <= self.data@.len()
    }

    /// A reader at the start of `data`.
    pub fn new(data: Vec<u8>) -> (r: Self)
        ensures
            r.wf(),
            r.bytes() == data@,
            r.position() == 0,
    {
        RsbPatchReader { data, pos: 0 }
    }

    /// Reads the header from the current position (the magic, the versions,
    /// the size after patching and padding), then from its fixed offsets the
    /// header delta size (0x14), the MD5 (0x18), the RSG number (0x28) and
    /// whether the header needs patching (0x2C holds 1).
    pub fn read_header(&mut self) -> (res: Result<RsbPatchHeader, RsbPatchError>)
        requires
            old(self).wf(),
        ensures
            final(self).wf(),
            final(self).bytes() == old(self).bytes(),
            final(self).position() == header_end(old(self).bytes(), old(self).position()),
            res is Ok <==> header_fault(old(self).bytes(), old(self).position()) is None,
            res matches Err(e) ==> match header_fault(old(self).bytes(), old(self).position()) {
                Some(None) => e is UnexpectedEof,
                Some(Some(m)) => e matches RsbPatchError::InvalidFile(s) && s@ == m,
                None => false,
            },
            res matches Ok(h) ==> {
                let d = old(self).bytes();
                let p = old(self).position();
                &&& h.rsb_after_size == i32_at(d, p + 12)
                &&& h.rsb_head_size == i32_at(d, 0x14)
                &&& h.md5_before@ == d.subrange(0x18, 0x28)
                &&& h.rsg_number == i32_at(d, 0x28)
                &&& h.rsb_need_patch == (i32_at(d, 0x2C) == 1)
            },
    {
        let len = self.data.len() as u64;
        let p = self.pos;
        let d = self.data.as_slice();
        if len - p < 4 {
            self.pos = len;
            return Err(RsbPatchError::UnexpectedEof);
        }
        let q = p as usize;
        if !(d[q] == 0x50 && d[q + 1] == 0x42 && d[q + 2] == 0x53 && d[q + 3] == 0x52) {
            self.pos = p + 4;
            return Err(RsbPatchError::InvalidFile(String::from_str("Invalid Magic: Not a PBSR file")));
        }
        if len - p < 12 {
            self.pos = len;
            return Err(RsbPatchError::UnexpectedEof);
        }
        let version1 = read_le_i32(d, q + 4);
        let version2 = read_le_i32(d, q + 8);
        if version1 != 1 || version2 != 2 {
            self.pos = p + 12;
            let mut m = String::from_str("Unsupported version: ");
            push_signed_decimal(&mut m, version1 as i64);
            m.append(".");
            push_signed_decimal(&mut m, version2 as i64);
            return Err(RsbPatchError::InvalidFile(m));
        }
        if len - p < 40 || 0x30 > len {
            self.pos = len;
            return Err(RsbPatchError::UnexpectedEof);
        }
        let rsb_after_size = read_le_i32(d, q + 12);
        let rsb_head_size = read_le_i32(d, 0x14);
        let mut md5_before = [0u8; 16];
        let mut i: usize = 0;
        while i < 16
            invariant
                i <= 16,
                d@.len() >= 0x30,
                md5_before@.len() == 16,
                forall|k: int| 0 <= k < i ==> #[trigger] md5_before@[k] == d@[0x18 + k],
            decreases 16 - i,
        {
            md5_before[i] = d[0x18 + i];
            i = i + 1;
        }
        assert(md5_before@ =~= d@.subrange(0x18, 0x28));
        let rsg_number = read_le_i32(d, 0x28);
        let flag = read_le_i32(d, 0x2C);
        self.pos = 0x30;
        Ok(RsbPatchHeader { rsb_after_size, rsb_head_size, md5_before, rsg_number, rsb_need_patch: flag == 1 })
    }

    /// The delta of the RSB header, stored at 0x30, when the header needs
    /// patching and has a positive delta size.
    pub fn extract_header_diff(&mut self, header: &RsbPatchHeader) -> (res: Result<Option<Vec<u8>>, RsbPatchError>)
        requires
            old(self).wf(),
        ensures
            final(self).wf(),
            final(self).bytes() == old(self).bytes(),
            ({
                let d = old(self).bytes();
                let n = header.rsb_head_size as int;
                if !header.rsb_need_patch || n <= 0 {
                    res matches Ok(None) && final(self).position() == old(self).position()
                } else if 0x30 + n > d.len() {
                    res matches Err(RsbPatchError::UnexpectedEof) && final(self).position() == d.len()
                } else {
                    res matches Ok(Some(v)) && v@ == d.subrange(0x30, 0x30 + n) && final(self).position() == 0x30 + n
                }
            }),
    {
        if !header.rsb_need_patch || header.rsb_head_size <= 0 {
            return Ok(None);
        }
        let n = header.rsb_head_size as u64;
        let len = self.data.len() as u64;
        if 0x30 + n > len {
            self.pos = len;
            return Err(RsbPatchError::UnexpectedEof);
        }
        let v = vstd::slice::slice_to_vec(vstd::slice::slice_subrange(self.data.as_slice(), 0x30, (0x30 + n) as usize));
        self.pos = 0x30 + n;
        Ok(Some(v))
    }

    /// The record of the next packet and the position of its delta; nothing
    /// at the end of the data or when less than a whole record is left (the
    /// position then moves to the end).
    pub fn next_packet_info(&mut self) -> (res: Result<Option<(RsbPatchPacketInfo, u64)>, RsbPatchError>)
        requires
            old(self).wf(),
        ensures
            final(self).wf(),
            final(self).bytes() == old(self).bytes(),
            ({
                let d = old(self).bytes();
                let p = old(self).position();
                if p >= d.len() {
                    res matches Ok(None) && final(self).position() == p
                } else if p + 152 > d.len() {
                    res matches Ok(None) && final(self).position() == d.len()
                } else {
                    &&& res matches Ok(Some((info, at)))
                    &&& at == p + 152
                    &&& final(self).position() == p + 152
                    &&& info.packet_patch_size == i32_at(d, p + 4)
                    &&& info.packet_name@ == utf8_lossy(d.subrange(p + 8, p + 8 + name_len(d, p + 8, 0)))
                    &&& info.md5_packet@ == d.subrange(p + 136, p + 152)
                }
            }),
    {
        let len = self.data.len() as u64;
        let p = self.pos;
        if p >= len {
            return Ok(None);
        }
        if len - p < 152 {
            self.pos = len;
            return Ok(None);
        }
        let d = self.data.as_slice();
        let dl = d.len();
        let q = p as usize;
        let packet_patch_size = read_le_i32(d, q + 4);
        let mut n: usize = 0;
        while n < 128 && d[q + 8 + n] != 0
            invariant
                n <= 128,
                dl == d@.len(),
                q + 152 <= d@.len(),
                name_len(d@, q + 8, 0) == name_len(d@, q + 8, n as int),
            decreases 128 - n,
        {
            n = n + 1;
        }
        let packet_name = string_from_utf8_lossy(vstd::slice::slice_subrange(d, q + 8, q + 8 + n));
        let mut md5_packet = [0u8; 16];
        let mut i: usize = 0;
        while i < 16
            invariant
                i <= 16,
                dl == d@.len(),
                q + 152 <= d@.len(),
                md5_packet@.len() == 16,
                forall|k: int| 0 <= k < i ==> #[trigger] md5_packet@[k] == d@[q + 136 + k],
            decreases 16 - i,
        {
            md5_packet[i] = d[q + 136 + i];
            i = i + 1;
        }
        assert(md5_packet@ =~= d@.subrange(q + 136, q + 152));
        self.pos = p + 152;
        Ok(Some((RsbPatchPacketInfo { packet_patch_size, packet_name, md5_packet }, p + 152)))
    }

    /// The next `size` bytes (a packet's delta).
    pub fn extract_packet_diff(&mut self, size: i32) -> (res: Result<Vec<u8>, RsbPatchError>)
        requires
            old(self).wf(),
            size >= 0,
        ensures
            final(self).wf(),
            final(self).bytes() == old(self).bytes(),
            ({
                let d = old(self).bytes();
                let p = old(self).position();
                if p + size > d.len() {
                    res matches Err(RsbPatchError::UnexpectedEof) && final(self).position() == d.len()
                } else {
                    res matches Ok(v) && v@ == d.subrange(p, p + size) && final(self).position() == p + size
                }
            }),
    {
        let len = self.data.len() as u64;
        let p = self.pos;
        let n = size as u64;
        if len - p < n {
            self.pos = len;
            return Err(RsbPatchError::UnexpectedEof);
        }
        let v = vstd::slice::slice_to_vec(vstd::slice::slice_subrange(self.data.as_slice(), p as usize, (p + n) as usize));
        self.pos = p + n;
        Ok(v)
    }
}

} // verus!
