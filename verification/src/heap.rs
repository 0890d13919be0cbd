//! The global heap: collections of objects that values of variable length
//! refer to.
//!
//! A collection starts with a sixteen-byte head (signature, version, size of
//! the whole collection) and then holds its objects. Each object has a
//! sixteen-byte head (index, reference count, size) followed by its data,
//! padded to a multiple of eight bytes. An object with index zero marks the
//! unused rest of the collection.

use vstd::prelude::*;

use crate::bytes::{fits, get_u16, get_u64, in_bounds, lemma_pad8, pad8, u16_at, u64_at};
use crate::result::{Error, FormatError};
use crate::tree::tag_at;

verus! {

/// The data of one heap object: where it starts and how many bytes it holds.
#[derive(Clone, Copy, Debug, PartialEq, Eq, Structural)]
pub struct HeapObject {
    pub start: usize,
    pub size: usize,
}

/// The object with the given index among the objects stored in `[pos, end)`.
/// A collection that ends, or reaches its unused rest, before the object is
/// found does not hold what the file says it holds; nor does one in which an
/// object reaches beyond the collection's end.
pub open spec fn object_from(file: Seq<u8>, pos: int, end: int, index: int) -> Result<
    HeapObject,
    Error,
>
    decreases end - pos,
{
    let size = u64_at(file, pos + 8) as nat;
    if end - pos < 16 || u16_at(file, pos) == 0 || size > end - pos - 16 {
        Err(Error::FormatError(FormatError::Malformed))
    } else if u16_at(file, pos) == index {
        Ok(HeapObject { start: (pos + 16) as usize, size: size as usize })
    } else if pad8(size as int) > end - pos - 16 {
        Err(Error::FormatError(FormatError::Malformed))
    } else {
        object_from(file, pos + 16 + pad8(size as int), end, index)
    }
}

/// The object with the given index in the collection at `addr`.
pub open spec fn heap_object(file: Seq<u8>, addr: int, index: int) -> Result<HeapObject, Error> {
    if !in_bounds(file, addr, 16) {
        Err(Error::IoError)
    } else if !tag_at(file, addr, 0x47, 0x43, 0x4f, 0x4c) {
        Err(Error::FormatError(FormatError::Malformed))
    } else if file[addr + 4] != 1 {
        Err(Error::FormatError(FormatError::Unsupported))
    } else if !in_bounds(file, addr, u64_at(file, addr + 8)) {
        Err(Error::IoError)
    } else if u64_at(file, addr + 8) < 16 {
        Err(Error::FormatError(FormatError::Malformed))
    } else {
        object_from(file, addr + 16, addr + u64_at(file, addr + 8), index)
    }
}

/// Finds the object with the given index in the collection at `addr`.
pub fn find_heap_object(file: &[u8], addr: u64, index: u32) -> (r: Result<HeapObject, Error>)
    ensures
        r == heap_object(file@, addr as int, index as int),
        r matches Ok(o) ==> in_bounds(file@, o.start as int, o.size as int),
{
    if !fits(file, addr, 16) {
        return Err(Error::IoError);
    }
    let base: usize = addr as usize;
    if file[base] != 0x47 || file[base + 1] != 0x43 || file[base + 2] != 0x4f || file[base + 3]
        != 0x4c {
        return Err(Error::FormatError(FormatError::Malformed));
    }
    if file[base + 4] != 1 {
        return Err(Error::FormatError(FormatError::Unsupported));
    }
    let size: u64 = get_u64(file, base + 8);
    if !fits(file, addr, size) {
        return Err(Error::IoError);
    }
    if size < 16 {
        return Err(Error::FormatError(FormatError::Malformed));
    }
    let end: usize = base + size as usize;
    let mut pos: usize = base + 16;
    while end - pos >= 16
        invariant
            pos <= end <= file@.len() <= usize::MAX,
            heap_object(file@, addr as int, index as int) == object_from(
                file@,
                pos as int,
                end as int,
                index as int,
            ),
        decreases end - pos,
    {
        let id: u16 = get_u16(file, pos);
        let len: u64 = get_u64(file, pos + 8);
        if id == 0 || len > (end - pos - 16) as u64 {
            return Err(Error::FormatError(FormatError::Malformed));
        }
        if id as u32 == index {
            return Ok(HeapObject { start: pos + 16, size: len as usize });
        }
        let room: usize = end - pos - 16;
        let size: usize = len as usize;
        let pad: usize = if size % 8 == 0 {
            0
        } else {
            8 - size % 8
        };
        proof {
            lemma_pad8(size as int);
        }
        if pad > room - size {
            return Err(Error::FormatError(FormatError::Malformed));
        }
        pos = pos + 16 + size + pad;
    }
    Err(Error::FormatError(FormatError::Malformed))
}

} // verus!
