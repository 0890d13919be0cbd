//! Decoding of stored records.
//!
//! A dataset keeps its records either in one contiguous run of bytes or in
//! chunks of equal size that an index tree locates. Only the records of the
//! requested window are read, and only the chunks that hold them are unpacked.

use vstd::prelude::*;
use vstd::slice::{slice_subrange, slice_to_vec};

use crate::bytes::{fits, get_u32, get_u32_be, get_u64, in_bounds, u32_at, u32_be_at, u64_at};
use crate::dataset::{DatasetDescriptor, DescriptorView, Field, Filter, Storage, CLASS_FLOAT};
use crate::event::RawRecord;
use crate::header::prepend;
use crate::inflate::{check_inflated, checked_inflated, inflate, zlib_inflated};
use crate::result::{viewed, DecodeError, Error, FormatError};
use crate::tree::{all_leaves, keys_within, read_leaves, Leaf};

verus! {

/// One stored chunk: the index of its first record, the number of bytes it
/// occupies in the file, the mask of the filters that were left out when it
/// was written, and its address.
#[derive(Clone, Copy, Debug, PartialEq, Eq, Structural)]
pub struct Chunk {
    pub first: u64,
    pub size: u32,
    pub mask: u32,
    pub address: u64,
}

/// The chunk that a leaf of the chunk index describes.
pub open spec fn chunk_at(file: Seq<u8>, leaf: Leaf) -> Chunk {
    Chunk {
        first: u64_at(file, leaf.key + 8) as u64,
        size: u32_at(file, leaf.key as int) as u32,
        mask: u32_at(file, leaf.key + 4) as u32,
        address: leaf.child,
    }
}

/// The chunks listed by the index tree at `index`, in the order of the tree.
pub open spec fn chunk_index(file: Seq<u8>, index: u64) -> Result<Seq<Chunk>, Error> {
    match all_leaves(file, index as int, 1, 24) {
        Err(e) => Err(e),
        Ok(leaves) => Ok(Seq::new(leaves.len(), |i: int| chunk_at(file, leaves[i]))),
    }
}

/// The index of the first chunk at or after `from` whose first record is
/// `first`, or the number of chunks if there is none.
pub open spec fn index_of_chunk(chunks: Seq<Chunk>, first: int, from: int) -> int
    decreases chunks.len() - from,
{
    if from < 0 || from >= chunks.len() {
        chunks.len() as int
    } else if chunks[from].first == first {
        from
    } else {
        index_of_chunk(chunks, first, from + 1)
    }
}

/// `index_of_chunk` finds the first chunk that starts at `first`: no chunk
/// between `from` and the index it gives starts there, and the chunk at that
/// index does, unless the index is the number of chunks.
pub proof fn lemma_index_of_chunk(chunks: Seq<Chunk>, first: int, from: int)
    requires
        0 <= from <= chunks.len(),
    ensures
        from <= index_of_chunk(chunks, first, from) <= chunks.len(),
        index_of_chunk(chunks, first, from) < chunks.len() ==> chunks[index_of_chunk(
            chunks,
            first,
            from,
        )].first == first,
        forall|k: int| from <= k < index_of_chunk(chunks, first, from) ==> chunks[k].first != first,
    decreases chunks.len() - from,
{
    if from < chunks.len() && chunks[from].first != first {
        lemma_index_of_chunk(chunks, first, from + 1);
    }
}

/// What keeps a field from being read as a column of an event table: a width
/// other than four bytes, a class other than floating point, or a place
/// outside the record.
pub open spec fn field_fault(f: Field, stride: u32) -> Option<Error> {
    if f.size != 4 {
        Some(Error::FormatError(FormatError::FieldWidth))
    } else if f.class != CLASS_FLOAT {
        Some(Error::ParseError)
    } else if f.offset + 4 > stride {
        Some(Error::FormatError(FormatError::Malformed))
    } else {
        None
    }
}

/// The fault of the first faulty field at or after `from`, if any.
pub open spec fn first_fault(fields: Seq<Field>, stride: u32, from: int) -> Option<Error>
    decreases fields.len() - from,
{
    if from < 0 || from >= fields.len() {
        None
    } else if field_fault(fields[from], stride) is Some {
        field_fault(fields[from], stride)
    } else {
        first_fault(fields, stride, from + 1)
    }
}

/// The storage is chunked with chunks of no records.
pub open spec fn empty_chunks(storage: Storage) -> bool {
    storage matches Storage::Chunked { chunk_len, .. } && chunk_len == 0
}

/// What keeps a dataset from being decoded as an event table: a number of
/// fields other than four, a faulty field, chunks of no records, or a filter
/// that cannot be undone.
pub open spec fn shape_fault(d: DescriptorView) -> Option<Error> {
    if d.fields.len() != 4 {
        Some(Error::FormatError(FormatError::FieldCount))
    } else if first_fault(d.fields, d.stride, 0) is Some {
        first_fault(d.fields, d.stride, 0)
    } else if empty_chunks(d.storage) {
        Some(Error::FormatError(FormatError::Malformed))
    } else if d.filter is Other {
        Some(Error::DecodeError(DecodeError::UnsupportedFilter))
    } else {
        None
    }
}

/// The column that field `f` holds in the record that starts at `base`.
pub open spec fn column(bytes: Seq<u8>, base: int, f: Field) -> u32 {
    if f.big_endian {
        u32_be_at(bytes, base + f.offset) as u32
    } else {
        u32_at(bytes, base + f.offset) as u32
    }
}

/// The record that starts at `base`, column by column in the declared order
/// of the fields.
pub open spec fn raw_record(bytes: Seq<u8>, base: int, fields: Seq<Field>) -> RawRecord {
    RawRecord(
        column(bytes, base, fields[0]),
        column(bytes, base, fields[1]),
        column(bytes, base, fields[2]),
        column(bytes, base, fields[3]),
    )
}

/// The unpacked content of chunk `c` of a dataset whose chunks hold
/// `chunk_len` records each.
///
/// The stored bytes are unpacked where the dataset is deflated and the chunk's
/// mask does not exempt it. The content must hold all records of a chunk.
pub open spec fn chunk_data(file: Seq<u8>, d: DescriptorView, chunk_len: u32, c: Chunk) -> Result<
    Seq<u8>,
    Error,
> {
    let want = chunk_len * d.stride;
    let stored = file.subrange(c.address as int, c.address + c.size);
    if !in_bounds(file, c.address as int, c.size as int) {
        Err(Error::IoError)
    } else if want > usize::MAX {
        Err(Error::DecodeError(DecodeError::TruncatedChunk))
    } else if d.filter is Deflate && c.mask % 2 == 0 {
        checked_inflated(zlib_inflated(stored, want as nat), want)
    } else if c.size < want {
        Err(Error::DecodeError(DecodeError::TruncatedChunk))
    } else {
        Ok(stored)
    }
}

/// The unpacked content of the chunk whose first record is `first`.
pub open spec fn chunk_starting(
    file: Seq<u8>,
    d: DescriptorView,
    chunks: Seq<Chunk>,
    chunk_len: u32,
    first: int,
) -> Result<Seq<u8>, Error> {
    let k = index_of_chunk(chunks, first, 0);
    if k >= chunks.len() {
        Err(Error::DecodeError(DecodeError::MissingChunk))
    } else {
        chunk_data(file, d, chunk_len, chunks[k])
    }
}

/// Record number `i` of the dataset, as stored.
///
/// In a contiguous run, record `i` starts `i` record sizes behind the run's
/// address. In chunked storage it stands in the chunk that starts at the last
/// multiple of the chunk length at or below `i`, as many records behind the
/// chunk's start as `i` lies behind that multiple.
#[verifier::opaque]
pub open spec fn stored_record(file: Seq<u8>, d: DescriptorView, i: int) -> Result<RawRecord, Error> {
    match d.storage {
        Storage::Contiguous { address, size } => {
            if (i + 1) * d.stride > size {
                Err(Error::DecodeError(DecodeError::TruncatedChunk))
            } else if !in_bounds(file, address + i * d.stride, d.stride as int) {
                Err(Error::IoError)
            } else {
                Ok(raw_record(file, address + i * d.stride, d.fields))
            }
        },
        Storage::Chunked { index, chunk_len } => match chunk_index(file, index) {
            Err(e) => Err(e),
            Ok(chunks) => match chunk_starting(file, d, chunks, chunk_len, i - i % (chunk_len as int)) {
                Err(e) => Err(e),
                Ok(data) => Ok(raw_record(data, (i % (chunk_len as int)) * d.stride, d.fields)),
            },
        },
    }
}

/// The records `lo`, `lo + 1`, ... up to but not including `hi`, in that
/// order; the error of the first of them that cannot be read.
pub open spec fn decode_range(file: Seq<u8>, d: DescriptorView, lo: int, hi: int) -> Result<
    Seq<RawRecord>,
    Error,
>
    decreases hi - lo,
{
    if lo >= hi {
        Ok(Seq::empty())
    } else {
        match stored_record(file, d, lo) {
            Err(e) => Err(e),
            Ok(r) => prepend(seq![r], decode_range(file, d, lo + 1, hi)),
        }
    }
}

/// The index of the first record of the window: `skip`, or the number of
/// records if that is less.
pub open spec fn window_start(len: u64, skip: usize) -> int {
    if skip > len {
        len as int
    } else {
        skip as int
    }
}

/// The index behind the last record of the window: `skip + take`, or the
/// number of records if that is less.
pub open spec fn window_end(len: u64, skip: usize, take: usize) -> int {
    if skip + take > len {
        len as int
    } else {
        skip + take
    }
}

/// The records of the window that skips `skip` records and then takes at most
/// `take`, for a dataset that has the shape of an event table.
pub open spec fn decode_window(file: Seq<u8>, d: DescriptorView, skip: usize, take: usize) -> Result<
    Seq<RawRecord>,
    Error,
> {
    match shape_fault(d) {
        Some(e) => Err(e),
        None => decode_range(file, d, window_start(d.len, skip), window_end(d.len, skip, take)),
    }
}

/// Reads the chunks that the index tree at `index` lists.
pub fn read_chunk_index(file: &[u8], index: u64) -> (r: Result<Vec<Chunk>, Error>)
    ensures
        viewed(r) == chunk_index(file@, index),
{
    let leaves: Vec<Leaf> = read_leaves(file, index, 1, 24)?;
    let mut out: Vec<Chunk> = Vec::new();
    let mut i: usize = 0;
    proof {
        crate::bytes::lemma_len_fits(file);
    }
    while i < leaves.len()
        invariant
            i <= leaves@.len(),
            file@.len() <= usize::MAX,
            keys_within(file@, leaves@, 24),
            out@ =~= Seq::new(i as nat, |k: int| chunk_at(file@, leaves@[k])),
        decreases leaves@.len() - i,
    {
        let leaf: Leaf = leaves[i];
        let chunk = Chunk {
            first: get_u64(file, leaf.key + 8),
            size: get_u32(file, leaf.key),
            mask: get_u32(file, leaf.key + 4),
            address: leaf.child,
        };
        out.push(chunk);
        i = i + 1;
    }
    Ok(out)
}

/// Finds the first chunk whose first record is `first`.
pub fn find_chunk(chunks: &Vec<Chunk>, first: u64) -> (r: Option<Chunk>)
    ensures
        0 <= index_of_chunk(chunks@, first as int, 0) <= chunks@.len(),
        match r {
            Some(c) => index_of_chunk(chunks@, first as int, 0) < chunks@.len() && c
                == chunks@[index_of_chunk(chunks@, first as int, 0)],
            None => index_of_chunk(chunks@, first as int, 0) == chunks@.len(),
        },
        r matches Some(c) ==> c.first == first,
        forall|k: int|
            0 <= k < index_of_chunk(chunks@, first as int, 0) ==> chunks@[k].first != first,
{
    let mut i: usize = 0;
    while i < chunks.len()
        invariant
            i <= chunks@.len(),
            index_of_chunk(chunks@, first as int, 0) == index_of_chunk(
                chunks@,
                first as int,
                i as int,
            ),
        decreases chunks@.len() - i,
    {
        if chunks[i].first == first {
            proof {
                lemma_index_of_chunk(chunks@, first as int, 0);
            }
            return Some(chunks[i]);
        }
        i = i + 1;
    }
    proof {
        lemma_index_of_chunk(chunks@, first as int, 0);
    }
    None
}

/// Checks that the dataset has the shape of an event table.
pub fn check_shape(d: &DatasetDescriptor) -> (r: Result<(), Error>)
    ensures
        match r {
            Ok(_) => shape_fault(d@) is None,
            Err(e) => shape_fault(d@) == Some(e),
        },
{
    if d.fields.len() != 4 {
        return Err(Error::FormatError(FormatError::FieldCount));
    }
    let mut i: usize = 0;
    while i < 4
        invariant
            i <= 4,
            d.fields@.len() == 4,
            first_fault(d.fields@, d.stride, 0) == first_fault(d.fields@, d.stride, i as int),
        decreases 4 - i,
    {
        let f: Field = d.fields[i];
        if f.size != 4 {
            return Err(Error::FormatError(FormatError::FieldWidth));
        }
        if f.class != CLASS_FLOAT {
            return Err(Error::ParseError);
        }
        if f.offset > d.stride || d.stride - f.offset < 4 {
            return Err(Error::FormatError(FormatError::Malformed));
        }
        i = i + 1;
    }
    match d.storage {
        Storage::Chunked { index: _, chunk_len } => {
            if chunk_len == 0 {
                return Err(Error::FormatError(FormatError::Malformed));
            }
        },
        _ => {},
    }
    match d.filter {
        Filter::Other { id: _ } => Err(Error::DecodeError(DecodeError::UnsupportedFilter)),
        _ => Ok(()),
    }
}

/// Reads the column that field `f` holds in the record that starts at `base`.
pub(crate) fn read_column(bytes: &[u8], base: usize, f: &Field) -> (v: u32)
    requires
        in_bounds(bytes@, base + f.offset, 4),
    ensures
        v == column(bytes@, base as int, *f),
{
    proof {
        crate::bytes::lemma_len_fits(bytes);
    }
    let at: usize = base + f.offset as usize;
    if f.big_endian {
        get_u32_be(bytes, at)
    } else {
        get_u32(bytes, at)
    }
}

/// Reads the record that starts at `base`.
pub(crate) fn read_record(bytes: &[u8], base: usize, fields: &Vec<Field>, stride: u32) -> (r: RawRecord)
    requires
        fields@.len() == 4,
        first_fault(fields@, stride, 0) is None,
        in_bounds(bytes@, base as int, stride as int),
    ensures
        r == raw_record(bytes@, base as int, fields@),
{
    proof {
        reveal_with_fuel(first_fault, 5);
    }
    RawRecord(
        read_column(bytes, base, &fields[0]),
        read_column(bytes, base, &fields[1]),
        read_column(bytes, base, &fields[2]),
        read_column(bytes, base, &fields[3]),
    )
}

/// Loads the unpacked content of one chunk.
pub fn load_chunk(file: &[u8], d: &DatasetDescriptor, chunk_len: u32, c: &Chunk) -> (r: Result<
    Vec<u8>,
    Error,
>)
    ensures
        viewed(r) == chunk_data(file@, d@, chunk_len, *c),
        r matches Ok(v) ==> v@.len() >= chunk_len * d.stride,
{
    assert(chunk_len * d.stride <= 0xffff_ffff * 0xffff_ffff) by (nonlinear_arith)
        requires
            0 <= chunk_len <= 0xffff_ffff,
            0 <= d.stride <= 0xffff_ffff,
    ;
    let want: u64 = (chunk_len as u64) * (d.stride as u64);
    if !fits(file, c.address, c.size as u64) {
        return Err(Error::IoError);
    }
    if want > usize::MAX as u64 {
        return Err(Error::DecodeError(DecodeError::TruncatedChunk));
    }
    let stored: &[u8] = slice_subrange(
        file,
        c.address as usize,
        c.address as usize + c.size as usize,
    );
    let deflated: bool = match d.filter {
        Filter::Deflate => true,
        _ => false,
    };
    if deflated && c.mask % 2 == 0 {
        check_inflated(inflate(stored, want as usize), want as usize)
    } else if (c.size as u64) < want {
        Err(Error::DecodeError(DecodeError::TruncatedChunk))
    } else {
        Ok(slice_to_vec(stored))
    }
}

/// Decodes the records `lo` up to `hi` of a dataset stored in one run.
fn decode_contiguous(
    file: &[u8],
    d: &DatasetDescriptor,
    address: u64,
    size: u64,
    lo: u64,
    hi: u64,
) -> (r: Result<Vec<RawRecord>, Error>)
    requires
        shape_fault(d@) is None,
        d.storage == (Storage::Contiguous { address, size }),
        lo <= hi,
    ensures
        viewed(r) == decode_range(file@, d@, lo as int, hi as int),
{
    let mut out: Vec<RawRecord> = Vec::new();
    let mut i: u64 = lo;
    while i < hi
        invariant
            lo <= i <= hi,
            shape_fault(d@) is None,
            d.storage == (Storage::Contiguous { address, size }),
            decode_range(file@, d@, lo as int, hi as int) == prepend(
                out@,
                decode_range(file@, d@, i as int, hi as int),
            ),
        decreases hi - i,
    {
        reveal(stored_record);
        assert((i + 1) * d.stride <= 0x1_0000_0000_0000_0000 * 0xffff_ffff) by (nonlinear_arith)
            requires
                0 <= i + 1 <= 0x1_0000_0000_0000_0000,
                0 <= d.stride <= 0xffff_ffff,
        ;
        assert((i + 1) * d.stride == i * d.stride + d.stride) by (nonlinear_arith);
        let need: u128 = (i as u128 + 1) * (d.stride as u128);
        if need > size as u128 {
            return Err(Error::DecodeError(DecodeError::TruncatedChunk));
        }
        let end: u128 = address as u128 + need;
        if end > file.len() as u128 {
            return Err(Error::IoError);
        }
        let base: usize = (end - d.stride as u128) as usize;
        let rec: RawRecord = read_record(file, base, &d.fields, d.stride);
        proof {
            match decode_range(file@, d@, i + 1, hi as int) {
                Ok(t) => {
                    assert(out@ + (seq![rec] + t) =~= out@.push(rec) + t);
                },
                Err(_) => {},
            }
        }
        out.push(rec);
        i = i + 1;
    }
    proof {
        assert(out@ + Seq::<RawRecord>::empty() =~= out@);
    }
    Ok(out)
}

/// Decodes the records `lo` up to `hi` of a dataset stored in chunks.
fn decode_chunked(
    file: &[u8],
    d: &DatasetDescriptor,
    index: u64,
    chunk_len: u32,
    lo: u64,
    hi: u64,
) -> (r: Result<Vec<RawRecord>, Error>)
    requires
        shape_fault(d@) is None,
        d.storage == (Storage::Chunked { index, chunk_len }),
        lo <= hi,
    ensures
        viewed(r) == decode_range(file@, d@, lo as int, hi as int),
{
    let mut out: Vec<RawRecord> = Vec::new();
    if lo >= hi {
        return Ok(out);
    }
    proof {
        reveal(stored_record);
    }
    let chunks: Vec<Chunk> = read_chunk_index(file, index)?;
    let mut data: Vec<u8> = Vec::new();
    let mut loaded: bool = false;
    let mut current: u64 = 0;
    let mut i: u64 = lo;
    while i < hi
        invariant
            lo <= i <= hi,
            chunk_len > 0,
            shape_fault(d@) is None,
            d.storage == (Storage::Chunked { index, chunk_len }),
            chunk_index(file@, index) == Ok::<Seq<Chunk>, Error>(chunks@),
            loaded ==> chunk_starting(file@, d@, chunks@, chunk_len, current as int) == Ok::<
                Seq<u8>,
                Error,
            >(data@) && data@.len() >= chunk_len * d.stride,
            decode_range(file@, d@, lo as int, hi as int) == prepend(
                out@,
                decode_range(file@, d@, i as int, hi as int),
            ),
        decreases hi - i,
    {
        proof {
            reveal(stored_record);
            vstd::arithmetic::div_mod::lemma_mod_decreases(i as nat, chunk_len as nat);
        }
        let place: u64 = i % (chunk_len as u64);
        let first: u64 = i - place;
        if !loaded || current != first {
            let chunk: Chunk = match find_chunk(&chunks, first) {
                Some(c) => c,
                None => {
                    return Err(Error::DecodeError(DecodeError::MissingChunk));
                },
            };
            data = load_chunk(file, d, chunk_len, &chunk)?;
            current = first;
            loaded = true;
        }
        assert((place + 1) * d.stride <= chunk_len * d.stride) by (nonlinear_arith)
            requires
                0 <= place + 1 <= chunk_len,
                0 <= d.stride,
        ;
        assert(chunk_len * d.stride <= 0xffff_ffff * 0xffff_ffff) by (nonlinear_arith)
            requires
                0 <= chunk_len <= 0xffff_ffff,
                0 <= d.stride <= 0xffff_ffff,
        ;
        assert((place + 1) * d.stride == place * d.stride + d.stride) by (nonlinear_arith);
        let base: u64 = place * (d.stride as u64);
        let rec: RawRecord = read_record(data.as_slice(), base as usize, &d.fields, d.stride);
        proof {
            match decode_range(file@, d@, i + 1, hi as int) {
                Ok(t) => {
                    assert(out@ + (seq![rec] + t) =~= out@.push(rec) + t);
                },
                Err(_) => {},
            }
        }
        out.push(rec);
        i = i + 1;
    }
    proof {
        assert(out@ + Seq::<RawRecord>::empty() =~= out@);
    }
    Ok(out)
}

/// Decodes the window of the dataset that skips `skip` records and then
/// takes at most `take`.
///
/// The dataset must have the shape of an event table: four fields, each a
/// four-byte floating-point number inside the record. Records before the
/// window are not read, and chunks outside it are not unpacked.
pub fn decode(file: &[u8], d: &DatasetDescriptor, skip: usize, take: usize) -> (r: Result<
    Vec<RawRecord>,
    Error,
>)
    ensures
        viewed(r) == decode_window(file@, d@, skip, take),
{
    check_shape(d)?;
    let lo: u64 = if skip as u64 > d.len {
        d.len
    } else {
        skip as u64
    };
    let hi: u64 = if take as u64 > d.len - lo {
        d.len
    } else {
        lo + take as u64
    };
    match d.storage {
        Storage::Contiguous { address, size } => decode_contiguous(file, d, address, size, lo, hi),
        Storage::Chunked { index, chunk_len } => decode_chunked(file, d, index, chunk_len, lo, hi),
    }
}

} // verus!
