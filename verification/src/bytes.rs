//! Fixed-width unsigned numbers read out of a file's bytes.
//!
//! Every structure of the container is located by a byte position and built
//! from little-endian numbers of two, four or eight bytes. The functions here
//! define those numbers over the sequence of bytes and read them from a slice.

use vstd::prelude::*;

verus! {

/// The `n` bytes that start at position `off` all lie inside `file`.
pub open spec fn in_bounds(file: Seq<u8>, off: int, n: int) -> bool {
    0 <= off && 0 <= n && off + n <= file.len()
}

/// The little-endian number held by the two bytes at `off`.
pub open spec fn u16_at(file: Seq<u8>, off: int) -> int {
    file[off] as int + 0x100 * (file[off + 1] as int)
}

/// The little-endian number held by the four bytes at `off`.
pub open spec fn u32_at(file: Seq<u8>, off: int) -> int {
    u16_at(file, off) + 0x1_0000 * u16_at(file, off + 2)
}

/// The little-endian number held by the eight bytes at `off`.
pub open spec fn u64_at(file: Seq<u8>, off: int) -> int {
    u32_at(file, off) + 0x1_0000_0000 * u32_at(file, off + 4)
}

/// The big-endian number held by the four bytes at `off`.
pub open spec fn u32_be_at(file: Seq<u8>, off: int) -> int {
    0x100_0000 * (file[off] as int) + 0x1_0000 * (file[off + 1] as int) + 0x100 * (file[off + 2] as int)
        + file[off + 3] as int
}

/// `len` rounded up to the next multiple of eight.
pub open spec fn pad8(len: int) -> int {
    (len + 7) / 8 * 8
}

/// Rounding up to a multiple of eight adds what is missing to the next
/// multiple, which is less than eight.
pub proof fn lemma_pad8(len: int)
    requires
        len >= 0,
    ensures
        pad8(len) == if len % 8 == 0 {
            len
        } else {
            len + 8 - len % 8
        },
{
}

/// The position of the first byte equal to `byte` in `[pos, end)`, or `end` if
/// there is none.
pub open spec fn first_of(file: Seq<u8>, byte: u8, pos: int, end: int) -> int
    decreases end - pos,
{
    if pos >= end {
        end
    } else if file[pos] == byte {
        pos
    } else {
        first_of(file, byte, pos + 1, end)
    }
}

/// `first_of` finds the first occurrence: no byte before the position it
/// gives equals `byte`, and the byte at that position does, unless the
/// position is `end`.
pub proof fn lemma_first_of(file: Seq<u8>, byte: u8, pos: int, end: int)
    requires
        pos <= end,
    ensures
        pos <= first_of(file, byte, pos, end) <= end,
        first_of(file, byte, pos, end) < end ==> file[first_of(file, byte, pos, end)] == byte,
        forall|k: int| pos <= k < first_of(file, byte, pos, end) ==> file[k] != byte,
    decreases end - pos,
{
    if pos < end && file[pos] != byte {
        lemma_first_of(file, byte, pos + 1, end);
    }
}

/// The zero-terminated string that starts at `start` and ends before `end` is
/// exactly `name`.
pub open spec fn name_is(file: Seq<u8>, start: int, end: int, name: Seq<u8>) -> bool {
    &&& 0 <= start
    &&& start + name.len() < end
    &&& end <= file.len()
    &&& file.subrange(start, start + name.len()) == name
    &&& file[start + name.len()] == 0
    &&& forall|k: int| 0 <= k < name.len() ==> name[k] != 0
}

/// The length of a slice is a machine-sized number.
pub proof fn lemma_len_fits(file: &[u8])
    ensures
        file@.len() <= usize::MAX,
{
    assert(file@.len() == file.len());
}

/// Tells whether `n` bytes starting at `off` lie inside the file.
pub fn fits(file: &[u8], off: u64, n: u64) -> (ok: bool)
    ensures
        ok == in_bounds(file@, off as int, n as int),
        file@.len() <= usize::MAX,
{
    let len: u64 = file.len() as u64;
    off <= len && n <= len - off
}

/// Reads the two-byte little-endian number at `off`.
pub fn get_u16(file: &[u8], off: usize) -> (v: u16)
    requires
        in_bounds(file@, off as int, 2),
    ensures
        v == u16_at(file@, off as int),
{
    let lo: u16 = file[off] as u16;
    let hi: u16 = file[off + 1] as u16;
    lo + 0x100 * hi
}

/// Reads the four-byte little-endian number at `off`.
pub fn get_u32(file: &[u8], off: usize) -> (v: u32)
    requires
        in_bounds(file@, off as int, 4),
    ensures
        v == u32_at(file@, off as int),
{
    assert(file@.len() == file.len());
    let lo: u32 = get_u16(file, off) as u32;
    let hi: u32 = get_u16(file, off + 2) as u32;
    lo + 0x1_0000 * hi
}

/// Reads the eight-byte little-endian number at `off`.
pub fn get_u64(file: &[u8], off: usize) -> (v: u64)
    requires
        in_bounds(file@, off as int, 8),
    ensures
        v == u64_at(file@, off as int),
{
    assert(file@.len() == file.len());
    let lo: u64 = get_u32(file, off) as u64;
    let hi: u64 = get_u32(file, off + 4) as u64;
    lo + 0x1_0000_0000 * hi
}

/// Reads the four-byte big-endian number at `off`.
pub fn get_u32_be(file: &[u8], off: usize) -> (v: u32)
    requires
        in_bounds(file@, off as int, 4),
    ensures
        v == u32_be_at(file@, off as int),
{
    let b0: u32 = file[off] as u32;
    let b1: u32 = file[off + 1] as u32;
    let b2: u32 = file[off + 2] as u32;
    let b3: u32 = file[off + 3] as u32;
    0x100_0000 * b0 + 0x1_0000 * b1 + 0x100 * b2 + b3
}

/// Finds the first byte equal to `byte` in `[pos, end)`.
pub fn find_byte(file: &[u8], byte: u8, pos: usize, end: usize) -> (at: usize)
    requires
        pos <= end <= file@.len(),
    ensures
        at == first_of(file@, byte, pos as int, end as int),
        pos <= at <= end,
        at < end ==> file@[at as int] == byte,
        forall|k: int| pos <= k < at ==> file@[k] != byte,
{
    proof {
        lemma_first_of(file@, byte, pos as int, end as int);
    }
    let mut i: usize = pos;
    while i < end && file[i] != byte
        invariant
            pos <= i <= end <= file@.len(),
            first_of(file@, byte, pos as int, end as int) == first_of(file@, byte, i as int, end as int),
        decreases end - i,
    {
        i = i + 1;
    }
    i
}

/// Tells whether the zero-terminated string at `start`, which must end before
/// `end`, is `name`.
pub fn name_matches(file: &[u8], start: u64, end: u64, name: &[u8]) -> (same: bool)
    ensures
        same == name_is(file@, start as int, end as int, name@),
{
    let n: usize = name.len();
    if end > file.len() as u64 || start >= end || end - start <= n as u64 {
        return false;
    }
    let base: usize = start as usize;
    assert(file@.len() == file.len());
    let mut k: usize = 0;
    while k < n
        invariant
            k <= n,
            n == name@.len(),
            base == start,
            base + n < end <= file@.len() <= usize::MAX,
            forall|j: int| 0 <= j < k ==> name@[j] != 0 && file@[base + j] == name@[j],
        decreases n - k,
    {
        if name[k] == 0 || file[base + k] != name[k] {
            proof {
                if file@[base + k] != name@[k as int] {
                    assert(file@.subrange(start as int, start + n)[k as int] == file@[base + k]);
                }
            }
            return false;
        }
        k = k + 1;
    }
    proof {
        assert(file@.subrange(start as int, start + n) =~= name@);
    }
    file[base + n] == 0
}

} // verus!
