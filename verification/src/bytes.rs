//! Bounds-checked readers over raw byte buffers.
//!
//! The inventory and object readers never chase raw pointers: the caller
//! captures an OS- or file-provided buffer once, and everything here indexes
//! into it by offset, big-endian as the container formats record their
//! fields.  Each reader has an exact specification counterpart.

use vstd::prelude::*;

verus! {

/// The big-endian 16-bit value at `off`.
pub open spec fn be_u16_at(s: Seq<u8>, off: int) -> u16
    recommends
        0 <= off,
        off + 2 <= s.len(),
{
    (s[off] as int * 0x100 + s[off + 1] as int) as u16
}

/// The big-endian 32-bit value at `off`.
pub open spec fn be_u32_at(s: Seq<u8>, off: int) -> u32
    recommends
        0 <= off,
        off + 4 <= s.len(),
{
    (s[off] as int * 0x100_0000 + s[off + 1] as int * 0x1_0000 + s[off + 2] as int * 0x100 + s[off
        + 3] as int) as u32
}

/// The big-endian 64-bit value at `off`.
pub open spec fn be_u64_at(s: Seq<u8>, off: int) -> u64
    recommends
        0 <= off,
        off + 8 <= s.len(),
{
    (be_u32_at(s, off) as int * 0x1_0000_0000 + be_u32_at(s, off + 4) as int) as u64
}

/// The index of the first NUL byte at or after `start`, or the length of
/// the sequence when there is none.
pub open spec fn find_nul_from(s: Seq<u8>, start: int) -> int
    recommends
        0 <= start <= s.len(),
    decreases s.len() - start,
    when 0 <= start <= s.len()
{
    if start >= s.len() {
        start
    } else if s[start] == 0 {
        start
    } else {
        find_nul_from(s, start + 1)
    }
}

/// Read the big-endian 16-bit value at `off`.
pub fn read_be_u16(s: &[u8], off: usize) -> (r: u16)
    requires
        off + 2 <= s@.len(),
    ensures
        r == be_u16_at(s@, off as int),
{
    (s[off] as u16) * 0x100 + (s[off + 1] as u16)
}

/// Read the big-endian 32-bit value at `off`.
pub fn read_be_u32(s: &[u8], off: usize) -> (r: u32)
    requires
        off + 4 <= s@.len(),
    ensures
        r == be_u32_at(s@, off as int),
{
    (s[off] as u32) * 0x100_0000 + (s[off + 1] as u32) * 0x1_0000 + (s[off + 2] as u32) * 0x100 + (
    s[off + 3] as u32)
}

/// Read the big-endian 64-bit value at `off`.
pub fn read_be_u64(s: &[u8], off: usize) -> (r: u64)
    requires
        off + 8 <= s@.len(),
    ensures
        r == be_u64_at(s@, off as int),
{
    let n: usize = s.len();
    proof {
        assert(off + 8 <= n);
    }
    (read_be_u32(s, off) as u64) * 0x1_0000_0000 + (read_be_u32(s, off + 4) as u64)
}

/// Find the first NUL byte at or after `start`; the length of the buffer
/// stands for "none".
pub fn find_nul(s: &[u8], start: usize) -> (r: usize)
    requires
        start <= s@.len(),
    ensures
        r == find_nul_from(s@, start as int),
        start <= r <= s@.len(),
{
    let n = s.len();
    let mut i = start;
    while i < n
        invariant
            start <= i <= n,
            n == s@.len(),
            find_nul_from(s@, start as int) == find_nul_from(s@, i as int),
        decreases n - i,
    {
        if s[i] == 0 {
            return i;
        }
        i = i + 1;
    }
    i
}

/// Copy the byte range `start..end` out of the buffer.
pub fn copy_range(s: &[u8], start: usize, end: usize) -> (r: Vec<u8>)
    requires
        start <= end <= s@.len(),
    ensures
        r@ == s@.subrange(start as int, end as int),
{
    let mut out: Vec<u8> = Vec::new();
    let mut i = start;
    while i < end
        invariant
            start <= i <= end <= s@.len(),
            out@ =~= s@.subrange(start as int, i as int),
        decreases end - i,
    {
        out.push(s[i]);
        proof {
            assert(out@ =~= s@.subrange(start as int, i + 1));
        }
        i = i + 1;
    }
    out
}

} // verus!
