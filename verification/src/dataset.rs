//! Dataset descriptors: what the object header of a dataset says about the
//! number of its records, their type and the place where they are stored.

use vstd::prelude::*;

use crate::bytes::{
    find_byte,
    first_of,
    get_u16,
    get_u32,
    get_u64,
    lemma_len_fits,
    pad8,
    u16_at,
    u32_at,
    u64_at,
};
use crate::group::{resolve, resolve_path};
use crate::header::{
    find_kind,
    header_messages,
    index_of_kind,
    is_shared,
    lemma_header_found,
    placed,
    prepend,
    read_header,
    shared,
    Message,
    KIND_DATASPACE,
    KIND_DATATYPE,
    KIND_FILTERS,
    KIND_LAYOUT,
};
use crate::result::{viewed, Error, FormatError};

verus! {

/// Type class of integers.
pub const CLASS_FIXED: u8 = 0;

/// Type class of floating-point numbers.
pub const CLASS_FLOAT: u8 = 1;

/// Type class of fixed-length strings.
pub const CLASS_STRING: u8 = 3;

/// Type class of records with named fields.
pub const CLASS_COMPOUND: u8 = 6;

/// Type class of values of variable length.
pub const CLASS_VARIABLE: u8 = 9;

/// Identifier of the deflate filter.
pub const FILTER_DEFLATE: u16 = 1;

/// One field of a record type: the place of its name in the file, its type
/// class, its width in bytes, its byte offset inside a record, and its byte
/// order.
#[derive(Clone, Copy, Debug, PartialEq, Eq, Structural)]
pub struct Field {
    pub name_start: usize,
    pub name_len: usize,
    pub class: u8,
    pub size: u32,
    pub offset: u32,
    pub big_endian: bool,
}

/// Where the records of a dataset are stored: in one run of bytes, or in
/// chunks of `chunk_len` records each that a tree indexes.
#[derive(Clone, Copy, Debug, PartialEq, Eq, Structural)]
pub enum Storage {
    Contiguous { address: u64, size: u64 },
    Chunked { index: u64, chunk_len: u32 },
}

/// The filter through which the chunks of a dataset were written. A pipeline
/// of several filters, or a single filter other than deflate, is reported as
/// `Other` with the identifier of its first filter.
#[derive(Clone, Copy, Debug, PartialEq, Eq, Structural)]
pub enum Filter {
    Unfiltered,
    Deflate,
    Other { id: u16 },
}

/// The description of one dataset: the number of its records, the size of one
/// record in bytes, the fields of a record in declared order, and the storage.
pub struct DescriptorView {
    pub len: u64,
    pub stride: u32,
    pub fields: Seq<Field>,
    pub storage: Storage,
    pub filter: Filter,
}

/// The description of one dataset, as read from a file.
#[derive(Debug)]
pub struct DatasetDescriptor {
    pub len: u64,
    pub stride: u32,
    pub fields: Vec<Field>,
    pub storage: Storage,
    pub filter: Filter,
}

impl View for DatasetDescriptor {
    type V = DescriptorView;

    open spec fn view(&self) -> DescriptorView {
        DescriptorView {
            len: self.len,
            stride: self.stride,
            fields: self.fields@,
            storage: self.storage,
            filter: self.filter,
        }
    }
}

/// The number of records that the dataspace message declares. The dataset
/// must have exactly one dimension.
pub open spec fn extent(file: Seq<u8>, m: Message) -> Result<u64, Error> {
    if is_shared(m) {
        Err(Error::FormatError(FormatError::Unsupported))
    } else if m.size < 4 {
        Err(Error::FormatError(FormatError::Malformed))
    } else if file[m.start as int] != 1 && file[m.start as int] != 2 {
        Err(Error::FormatError(FormatError::Unsupported))
    } else if file[m.start + 1] != 1 {
        Err(Error::FormatError(FormatError::Unsupported))
    } else {
        let dims: int = if file[m.start as int] == 1 {
            8
        } else {
            4
        };
        if m.size < dims + 8 {
            Err(Error::FormatError(FormatError::Malformed))
        } else {
            Ok(u64_at(file, m.start + dims) as u64)
        }
    }
}

/// The number of bytes that describe a type of the given class behind the
/// eight bytes that every type description starts with, or -1 for a class
/// that a field cannot have here.
pub open spec fn class_properties(class: u8) -> int {
    if class == CLASS_FIXED {
        4
    } else if class == CLASS_FLOAT {
        12
    } else if class == CLASS_STRING {
        0
    } else {
        -1
    }
}

/// The number of bytes between the end of a member's padded name and the
/// description of the member's type.
pub open spec fn member_gap(version: u8) -> int {
    if version == 1 {
        32
    } else {
        4
    }
}

/// The `count` members of a record type whose descriptions start at `pos` and
/// end before `end`.
pub open spec fn members(file: Seq<u8>, pos: int, end: int, version: u8, count: nat) -> Result<
    Seq<Field>,
    Error,
>
    decreases count,
{
    if count == 0 {
        Ok(Seq::empty())
    } else {
        let nul = first_of(file, 0, pos, end);
        let head = pos + pad8(nul - pos + 1) + member_gap(version);
        if nul >= end || head + 8 > end {
            Err(Error::FormatError(FormatError::Malformed))
        } else if class_properties(file[head] % 16) < 0 {
            Err(Error::FormatError(FormatError::Unsupported))
        } else if head + 8 + class_properties(file[head] % 16) > end {
            Err(Error::FormatError(FormatError::Malformed))
        } else {
            prepend(
                seq![
                    Field {
                        name_start: pos as usize,
                        name_len: (nul - pos) as usize,
                        class: file[head] % 16,
                        size: u32_at(file, head + 4) as u32,
                        offset: u32_at(file, pos + pad8(nul - pos + 1)) as u32,
                        big_endian: file[head + 1] % 2 == 1,
                    },
                ],
                members(
                    file,
                    head + 8 + class_properties(file[head] % 16),
                    end,
                    version,
                    (count - 1) as nat,
                ),
            )
        }
    }
}

/// The record size and the fields that the datatype message declares. The
/// type must be a record type in version 1 or 2 of its description.
pub open spec fn record_type(file: Seq<u8>, m: Message) -> Result<(u32, Seq<Field>), Error> {
    if is_shared(m) {
        Err(Error::FormatError(FormatError::Unsupported))
    } else if m.size < 8 {
        Err(Error::FormatError(FormatError::Malformed))
    } else if file[m.start as int] % 16 != CLASS_COMPOUND {
        Err(Error::FormatError(FormatError::Unsupported))
    } else if file[m.start as int] / 16 != 1 && file[m.start as int] / 16 != 2 {
        Err(Error::FormatError(FormatError::Unsupported))
    } else {
        match members(
            file,
            m.start + 8,
            m.start + m.size,
            file[m.start as int] / 16,
            u16_at(file, m.start + 1) as nat,
        ) {
            Err(e) => Err(e),
            Ok(fields) => Ok((u32_at(file, m.start + 4) as u32, fields)),
        }
    }
}

/// The storage that the layout message declares for records of `stride`
/// bytes. The message must be in version 3.
pub open spec fn storage_of(file: Seq<u8>, m: Message, stride: u32) -> Result<Storage, Error> {
    if is_shared(m) {
        Err(Error::FormatError(FormatError::Unsupported))
    } else if m.size < 2 {
        Err(Error::FormatError(FormatError::Malformed))
    } else if file[m.start as int] != 3 {
        Err(Error::FormatError(FormatError::Unsupported))
    } else if file[m.start + 1] == 1 {
        if m.size < 18 {
            Err(Error::FormatError(FormatError::Malformed))
        } else {
            Ok(
                Storage::Contiguous {
                    address: u64_at(file, m.start + 2) as u64,
                    size: u64_at(file, m.start + 10) as u64,
                },
            )
        }
    } else if file[m.start + 1] == 2 {
        if m.size < 19 {
            Err(Error::FormatError(FormatError::Malformed))
        } else if file[m.start + 2] != 2 {
            Err(Error::FormatError(FormatError::Unsupported))
        } else if u32_at(file, m.start + 11) == 0 || u32_at(file, m.start + 15) != stride {
            Err(Error::FormatError(FormatError::Malformed))
        } else {
            Ok(
                Storage::Chunked {
                    index: u64_at(file, m.start + 3) as u64,
                    chunk_len: u32_at(file, m.start + 11) as u32,
                },
            )
        }
    } else {
        Err(Error::FormatError(FormatError::Unsupported))
    }
}

/// The filter that the filter message declares.
pub open spec fn filter_of(file: Seq<u8>, m: Message) -> Result<Filter, Error> {
    if is_shared(m) {
        Err(Error::FormatError(FormatError::Unsupported))
    } else if m.size < 2 {
        Err(Error::FormatError(FormatError::Malformed))
    } else if file[m.start as int] != 1 && file[m.start as int] != 2 {
        Err(Error::FormatError(FormatError::Unsupported))
    } else if file[m.start + 1] == 0 {
        Ok(Filter::Unfiltered)
    } else {
        let at: int = if file[m.start as int] == 1 {
            8
        } else {
            2
        };
        if m.size < at + 2 {
            Err(Error::FormatError(FormatError::Malformed))
        } else if file[m.start + 1] == 1 && u16_at(file, m.start + at) == FILTER_DEFLATE {
            Ok(Filter::Deflate)
        } else {
            Ok(Filter::Other { id: u16_at(file, m.start + at) as u16 })
        }
    }
}

/// The filter of a dataset with the given messages: none where no filter
/// message exists.
pub open spec fn filter_among(file: Seq<u8>, msgs: Seq<Message>) -> Result<Filter, Error> {
    let f = index_of_kind(msgs, KIND_FILTERS, 0);
    if f >= msgs.len() {
        Ok(Filter::Unfiltered)
    } else {
        filter_of(file, msgs[f])
    }
}

/// The description of the dataset whose object header is at `addr`.
pub open spec fn dataset_at(file: Seq<u8>, addr: u64) -> Result<DescriptorView, Error> {
    match header_messages(file, addr as int) {
        Err(e) => Err(e),
        Ok(msgs) => {
            let s = index_of_kind(msgs, KIND_DATASPACE, 0);
            let t = index_of_kind(msgs, KIND_DATATYPE, 0);
            let l = index_of_kind(msgs, KIND_LAYOUT, 0);
            if s >= msgs.len() || t >= msgs.len() || l >= msgs.len() {
                Err(Error::FormatError(FormatError::NotADataset))
            } else {
                match extent(file, msgs[s]) {
                    Err(e) => Err(e),
                    Ok(len) => match record_type(file, msgs[t]) {
                        Err(e) => Err(e),
                        Ok((stride, fields)) => match storage_of(file, msgs[l], stride) {
                            Err(e) => Err(e),
                            Ok(storage) => match filter_among(file, msgs) {
                                Err(e) => Err(e),
                                Ok(filter) => Ok(
                                    DescriptorView { len, stride, fields, storage, filter },
                                ),
                            },
                        },
                    },
                }
            }
        },
    }
}

/// The description of the dataset that the slash-separated `path` leads to
/// from the object at `root`.
pub open spec fn dataset_by_path(file: Seq<u8>, root: u64, path: Seq<u8>) -> Result<
    DescriptorView,
    Error,
> {
    match resolve_path(file, root, path) {
        Err(e) => Err(e),
        Ok(addr) => dataset_at(file, addr),
    }
}

/// Reading the members of a record type never reports that something is not
/// found.
pub proof fn lemma_members_found(file: Seq<u8>, pos: int, end: int, version: u8, count: nat)
    ensures
        members(file, pos, end, version, count) != Err::<Seq<Field>, Error>(Error::NotFound),
    decreases count,
{
    if count > 0 {
        let nul = first_of(file, 0, pos, end);
        let head = pos + pad8(nul - pos + 1) + member_gap(version);
        lemma_members_found(
            file,
            head + 8 + class_properties(file[head] % 16),
            end,
            version,
            (count - 1) as nat,
        );
    }
}

/// Reading the description of a dataset never reports that something is not
/// found: once a path has led to an object, the dataset there is described,
/// or the file ends early or does not conform.
pub proof fn lemma_dataset_found(file: Seq<u8>, addr: u64)
    ensures
        dataset_at(file, addr) != Err::<DescriptorView, Error>(Error::NotFound),
{
    lemma_header_found(file, addr as int);
    match header_messages(file, addr as int) {
        Err(_) => {},
        Ok(msgs) => {
            let t = index_of_kind(msgs, KIND_DATATYPE, 0);
            if t < msgs.len() {
                let m = msgs[t];
                lemma_members_found(
                    file,
                    m.start + 8,
                    m.start + m.size,
                    file[m.start as int] / 16,
                    u16_at(file, m.start + 1) as nat,
                );
            }
        },
    }
}

/// Reads the number of records from a dataspace message.
pub(crate) fn read_extent(file: &[u8], m: &Message) -> (r: Result<u64, Error>)
    requires
        placed(file@, *m),
    ensures
        r == extent(file@, *m),
{
    proof {
        lemma_len_fits(file);
    }
    if shared(m) {
        return Err(Error::FormatError(FormatError::Unsupported));
    }
    if m.size < 4 {
        return Err(Error::FormatError(FormatError::Malformed));
    }
    let version: u8 = file[m.start];
    if version != 1 && version != 2 {
        return Err(Error::FormatError(FormatError::Unsupported));
    }
    if file[m.start + 1] != 1 {
        return Err(Error::FormatError(FormatError::Unsupported));
    }
    let dims: usize = if version == 1 {
        8
    } else {
        4
    };
    if m.size < dims + 8 {
        return Err(Error::FormatError(FormatError::Malformed));
    }
    Ok(get_u64(file, m.start + dims))
}

/// Reads the members of a record type.
pub(crate) fn read_members(file: &[u8], pos: usize, end: usize, version: u8, count: u16) -> (r: Result<
    Vec<Field>,
    Error,
>)
    requires
        pos <= end <= file@.len(),
        end - pos <= 0xffff,
    ensures
        viewed(r) == members(file@, pos as int, end as int, version, count as nat),
{
    let mut out: Vec<Field> = Vec::new();
    let mut p: usize = pos;
    let mut left: u16 = count;
    while left > 0
        invariant
            pos <= p <= end <= file@.len(),
            end - pos <= 0xffff,
            members(file@, pos as int, end as int, version, count as nat) == prepend(
                out@,
                members(file@, p as int, end as int, version, left as nat),
            ),
        decreases left,
    {
        let nul: usize = find_byte(file, 0, p, end);
        if nul >= end {
            return Err(Error::FormatError(FormatError::Malformed));
        }
        let padded: usize = (nul - p + 8) / 8 * 8;
        let gap: usize = if version == 1 {
            32
        } else {
            4
        };
        if end - p < padded + gap + 8 {
            return Err(Error::FormatError(FormatError::Malformed));
        }
        let head: usize = p + padded + gap;
        let class: u8 = file[head] % 16;
        let props: usize = if class == CLASS_FIXED {
            4
        } else if class == CLASS_FLOAT {
            12
        } else if class == CLASS_STRING {
            0
        } else {
            return Err(Error::FormatError(FormatError::Unsupported));
        };
        if end - head < 8 + props {
            return Err(Error::FormatError(FormatError::Malformed));
        }
        let field = Field {
            name_start: p,
            name_len: nul - p,
            class,
            size: get_u32(file, head + 4),
            offset: get_u32(file, p + padded),
            big_endian: file[head + 1] % 2 == 1,
        };
        proof {
            let rest = members(file@, head + 8 + props, end as int, version, (left - 1) as nat);
            match rest {
                Ok(t) => {
                    assert(out@ + (seq![field] + t) =~= out@.push(field) + t);
                },
                Err(_) => {},
            }
        }
        out.push(field);
        p = head + 8 + props;
        left = left - 1;
    }
    proof {
        assert(out@ + Seq::<Field>::empty() =~= out@);
    }
    Ok(out)
}

/// Reads the record size and the fields from a datatype message.
pub(crate) fn read_record_type(file: &[u8], m: &Message) -> (r: Result<(u32, Vec<Field>), Error>)
    requires
        placed(file@, *m),
    ensures
        match r {
            Ok((stride, fields)) => record_type(file@, *m) == Ok::<(u32, Seq<Field>), Error>(
                (stride, fields@),
            ),
            Err(e) => record_type(file@, *m) == Err::<(u32, Seq<Field>), Error>(e),
        },
{
    proof {
        lemma_len_fits(file);
    }
    if shared(m) {
        return Err(Error::FormatError(FormatError::Unsupported));
    }
    if m.size < 8 {
        return Err(Error::FormatError(FormatError::Malformed));
    }
    let first: u8 = file[m.start];
    if first % 16 != CLASS_COMPOUND {
        return Err(Error::FormatError(FormatError::Unsupported));
    }
    let version: u8 = first / 16;
    if version != 1 && version != 2 {
        return Err(Error::FormatError(FormatError::Unsupported));
    }
    let count: u16 = get_u16(file, m.start + 1);
    let stride: u32 = get_u32(file, m.start + 4);
    let fields: Vec<Field> = read_members(file, m.start + 8, m.start + m.size, version, count)?;
    Ok((stride, fields))
}

/// Reads the storage from a layout message.
pub(crate) fn read_storage(file: &[u8], m: &Message, stride: u32) -> (r: Result<Storage, Error>)
    requires
        placed(file@, *m),
    ensures
        r == storage_of(file@, *m, stride),
{
    proof {
        lemma_len_fits(file);
    }
    if shared(m) {
        return Err(Error::FormatError(FormatError::Unsupported));
    }
    if m.size < 2 {
        return Err(Error::FormatError(FormatError::Malformed));
    }
    if file[m.start] != 3 {
        return Err(Error::FormatError(FormatError::Unsupported));
    }
    let class: u8 = file[m.start + 1];
    if class == 1 {
        if m.size < 18 {
            return Err(Error::FormatError(FormatError::Malformed));
        }
        Ok(
            Storage::Contiguous {
                address: get_u64(file, m.start + 2),
                size: get_u64(file, m.start + 10),
            },
        )
    } else if class == 2 {
        if m.size < 19 {
            return Err(Error::FormatError(FormatError::Malformed));
        }
        if file[m.start + 2] != 2 {
            return Err(Error::FormatError(FormatError::Unsupported));
        }
        let chunk_len: u32 = get_u32(file, m.start + 11);
        if chunk_len == 0 || get_u32(file, m.start + 15) != stride {
            return Err(Error::FormatError(FormatError::Malformed));
        }
        Ok(Storage::Chunked { index: get_u64(file, m.start + 3), chunk_len })
    } else {
        Err(Error::FormatError(FormatError::Unsupported))
    }
}

/// Reads the filter from a filter message.
pub(crate) fn read_filter(file: &[u8], m: &Message) -> (r: Result<Filter, Error>)
    requires
        placed(file@, *m),
    ensures
        r == filter_of(file@, *m),
{
    proof {
        lemma_len_fits(file);
    }
    if shared(m) {
        return Err(Error::FormatError(FormatError::Unsupported));
    }
    if m.size < 2 {
        return Err(Error::FormatError(FormatError::Malformed));
    }
    let version: u8 = file[m.start];
    if version != 1 && version != 2 {
        return Err(Error::FormatError(FormatError::Unsupported));
    }
    let count: u8 = file[m.start + 1];
    if count == 0 {
        return Ok(Filter::Unfiltered);
    }
    let at: usize = if version == 1 {
        8
    } else {
        2
    };
    if m.size < at + 2 {
        return Err(Error::FormatError(FormatError::Malformed));
    }
    let id: u16 = get_u16(file, m.start + at);
    if count == 1 && id == FILTER_DEFLATE {
        Ok(Filter::Deflate)
    } else {
        Ok(Filter::Other { id })
    }
}

/// Reads the description of the dataset whose object header is at `addr`.
pub fn read_dataset(file: &[u8], addr: u64) -> (r: Result<DatasetDescriptor, Error>)
    ensures
        viewed(r) == dataset_at(file@, addr),
{
    let msgs: Vec<Message> = read_header(file, addr)?;
    let space: Option<Message> = find_kind(&msgs, KIND_DATASPACE);
    let datatype: Option<Message> = find_kind(&msgs, KIND_DATATYPE);
    let layout: Option<Message> = find_kind(&msgs, KIND_LAYOUT);
    let filters: Option<Message> = find_kind(&msgs, KIND_FILTERS);
    match (space, datatype, layout) {
        (Some(s), Some(t), Some(l)) => {
            let len: u64 = read_extent(file, &s)?;
            let (stride, fields) = read_record_type(file, &t)?;
            let storage: Storage = read_storage(file, &l, stride)?;
            let filter: Filter = match filters {
                Some(f) => read_filter(file, &f)?,
                None => Filter::Unfiltered,
            };
            Ok(DatasetDescriptor { len, stride, fields, storage, filter })
        },
        _ => Err(Error::FormatError(FormatError::NotADataset)),
    }
}

/// Resolves the slash-separated `path` from the object at `root` and reads
/// the description of the dataset found there.
pub fn read_dataset_by_path(file: &[u8], root: u64, path: &[u8]) -> (r: Result<
    DatasetDescriptor,
    Error,
>)
    ensures
        viewed(r) == dataset_by_path(file@, root, path@),
{
    let addr: u64 = resolve(file, root, path)?;
    read_dataset(file, addr)
}

} // verus!
