//! Attributes: the named values attached to an object.
//!
//! Each attribute is one message of the object's header. The message gives the
//! sizes of the attribute's name, of its type description and of its extent,
//! and then holds these three parts and the value, one after another.

use vstd::prelude::*;
use vstd::slice::{slice_subrange, slice_to_vec};

use crate::bytes::{
    find_byte,
    first_of,
    get_u16,
    get_u32,
    get_u64,
    in_bounds,
    lemma_len_fits,
    name_is,
    name_matches,
    pad8,
    u16_at,
    u32_at,
    u64_at,
};
use crate::dataset::{CLASS_STRING, CLASS_VARIABLE};
use crate::group::{resolve, resolve_path};
use crate::header::{
    header_messages,
    is_shared,
    placed,
    read_header,
    shared,
    within,
    Message,
    KIND_ATTRIBUTE,
};
use crate::heap::{find_heap_object, heap_object, HeapObject};
use crate::result::{viewed, Error, FormatError};

verus! {

/// One attribute: where its name, its type description, its extent and its
/// value stand in the file.
#[derive(Clone, Copy, Debug, PartialEq, Eq, Structural)]
pub struct Attribute {
    pub name_start: usize,
    pub name_size: usize,
    pub type_start: usize,
    pub type_size: usize,
    pub space_start: usize,
    pub space_size: usize,
    pub data_start: usize,
    pub data_end: usize,
}

/// The room that a part of `size` bytes takes in an attribute message of the
/// given version: version 1 pads every part to a multiple of eight bytes.
pub open spec fn part_room(version: u8, size: int) -> int {
    if version == 1 {
        pad8(size)
    } else {
        size
    }
}

/// The length of the fixed head of an attribute message.
pub open spec fn attribute_head(version: u8) -> int {
    if version == 3 {
        9
    } else {
        8
    }
}

/// The attribute that message `m` holds. The message must be in version 1, 2
/// or 3, and neither it nor its type or extent may be shared.
pub open spec fn attribute_of(file: Seq<u8>, m: Message) -> Result<Attribute, Error> {
    let version = file[m.start as int];
    let name_size = u16_at(file, m.start + 2);
    let type_size = u16_at(file, m.start + 4);
    let space_size = u16_at(file, m.start + 6);
    let name_start = m.start + attribute_head(version);
    let type_start = name_start + part_room(version, name_size);
    let space_start = type_start + part_room(version, type_size);
    let data_start = space_start + part_room(version, space_size);
    if is_shared(m) {
        Err(Error::FormatError(FormatError::Unsupported))
    } else if m.size < 8 {
        Err(Error::FormatError(FormatError::Malformed))
    } else if version < 1 || version > 3 {
        Err(Error::FormatError(FormatError::Unsupported))
    } else if version != 1 && file[m.start + 1] % 4 != 0 {
        Err(Error::FormatError(FormatError::Unsupported))
    } else if data_start > m.start + m.size {
        Err(Error::FormatError(FormatError::Malformed))
    } else {
        Ok(
            Attribute {
                name_start: name_start as usize,
                name_size: name_size as usize,
                type_start: type_start as usize,
                type_size: type_size as usize,
                space_start: space_start as usize,
                space_size: space_size as usize,
                data_start: data_start as usize,
                data_end: (m.start + m.size) as usize,
            },
        )
    }
}

/// The attribute is called `name`.
pub open spec fn attribute_is(file: Seq<u8>, a: Attribute, name: Seq<u8>) -> bool {
    name_is(file, a.name_start as int, a.name_start + a.name_size, name)
}

/// The first attribute called `name` among the messages from index `from` on.
/// An attribute message that cannot be read before that one is an error;
/// `NotFound` where no attribute has the name.
pub open spec fn attribute_named(file: Seq<u8>, msgs: Seq<Message>, name: Seq<u8>, from: int) -> Result<
    Attribute,
    Error,
>
    decreases msgs.len() - from,
{
    if from < 0 || from >= msgs.len() {
        Err(Error::NotFound)
    } else if msgs[from].kind != KIND_ATTRIBUTE {
        attribute_named(file, msgs, name, from + 1)
    } else {
        match attribute_of(file, msgs[from]) {
            Err(e) => Err(e),
            Ok(a) => if attribute_is(file, a, name) {
                Ok(a)
            } else {
                attribute_named(file, msgs, name, from + 1)
            },
        }
    }
}

/// The parts of the attribute lie inside the file, one after another.
pub open spec fn attribute_placed(file: Seq<u8>, a: Attribute) -> bool {
    &&& a.name_start + a.name_size <= a.type_start
    &&& a.type_start + a.type_size <= a.space_start
    &&& a.space_start + a.space_size <= a.data_start
    &&& a.data_start <= a.data_end <= file.len()
    &&& a.data_end - a.name_start <= 0xffff
}

/// What keeps the attribute from holding a single value: an extent that is
/// malformed, of an unknown version, or of one or more dimensions.
pub open spec fn scalar_fault(file: Seq<u8>, a: Attribute) -> Option<Error> {
    if a.space_size < 2 {
        Some(Error::FormatError(FormatError::Malformed))
    } else if file[a.space_start as int] != 1 && file[a.space_start as int] != 2 {
        Some(Error::FormatError(FormatError::Unsupported))
    } else if file[a.space_start + 1] != 0 {
        Some(Error::FormatError(FormatError::Unsupported))
    } else {
        None
    }
}

/// The string of at most `len` bytes that starts at `start`: its bytes up to
/// the first zero byte, or all `len` bytes.
pub open spec fn text_at(file: Seq<u8>, start: int, len: int) -> Seq<u8> {
    file.subrange(start, first_of(file, 0, start, start + len))
}

/// The value of an attribute whose type is a string of fixed length, stored
/// in the attribute itself. A string type padded with spaces is outside the
/// supported subset.
pub open spec fn fixed_string(file: Seq<u8>, a: Attribute) -> Result<Seq<u8>, Error> {
    let len = u32_at(file, a.type_start + 4);
    if file[a.type_start + 1] % 16 > 1 {
        Err(Error::FormatError(FormatError::Unsupported))
    } else if scalar_fault(file, a) is Some {
        Err(scalar_fault(file, a)->Some_0)
    } else if a.data_start + len > a.data_end {
        Err(Error::FormatError(FormatError::Malformed))
    } else {
        Ok(text_at(file, a.data_start as int, len))
    }
}

/// The value of an attribute whose type is a string of variable length: the
/// attribute holds the string's length and names the heap object that holds
/// its bytes. A string of length zero needs no heap object.
pub open spec fn heap_string(file: Seq<u8>, a: Attribute) -> Result<Seq<u8>, Error> {
    let len = u32_at(file, a.data_start as int);
    if scalar_fault(file, a) is Some {
        Err(scalar_fault(file, a)->Some_0)
    } else if a.data_end - a.data_start < 16 {
        Err(Error::FormatError(FormatError::Malformed))
    } else if len == 0 {
        Ok(Seq::empty())
    } else {
        match heap_object(file, u64_at(file, a.data_start + 4), u32_at(file, a.data_start + 12)) {
            Err(e) => Err(e),
            Ok(o) => if len > o.size {
                Err(Error::FormatError(FormatError::Malformed))
            } else {
                Ok(text_at(file, o.start as int, len))
            },
        }
    }
}

/// The bytes of the attribute's value where it is one string, of fixed or of
/// variable length: the bytes of the string up to its first zero byte or its
/// full length.
///
/// An attribute whose parts do not lie inside the file one after another is
/// malformed. A type of another class is not a string.
pub open spec fn string_value(file: Seq<u8>, a: Attribute) -> Result<Seq<u8>, Error> {
    if !attribute_placed(file, a) || a.type_size < 8 {
        Err(Error::FormatError(FormatError::Malformed))
    } else if file[a.type_start as int] % 16 == CLASS_STRING {
        fixed_string(file, a)
    } else if file[a.type_start as int] % 16 == CLASS_VARIABLE && file[a.type_start + 1] % 16 == 1 {
        heap_string(file, a)
    } else {
        Err(Error::FormatError(FormatError::NotAString))
    }
}

/// The attribute called `name` of the object whose header is at `addr`.
pub open spec fn attribute_at(file: Seq<u8>, addr: u64, name: Seq<u8>) -> Result<Attribute, Error> {
    match header_messages(file, addr as int) {
        Err(e) => Err(e),
        Ok(msgs) => attribute_named(file, msgs, name, 0),
    }
}

/// The attribute called `name` of the object that the slash-separated
/// `path` leads to from the object at `root`.
pub open spec fn attribute_by_path(file: Seq<u8>, root: u64, path: Seq<u8>, name: Seq<u8>) -> Result<
    Attribute,
    Error,
> {
    match resolve_path(file, root, path) {
        Err(e) => Err(e),
        Ok(addr) => attribute_at(file, addr, name),
    }
}

/// Reads the attribute that message `m` holds.
pub(crate) fn read_attribute(file: &[u8], m: &Message) -> (r: Result<Attribute, Error>)
    requires
        placed(file@, *m),
    ensures
        r == attribute_of(file@, *m),
        r matches Ok(a) ==> attribute_placed(file@, a),
{
    proof {
        lemma_len_fits(file);
    }
    if shared(m) {
        return Err(Error::FormatError(FormatError::Unsupported));
    }
    if m.size < 8 {
        return Err(Error::FormatError(FormatError::Malformed));
    }
    let version: u8 = file[m.start];
    if version < 1 || version > 3 {
        return Err(Error::FormatError(FormatError::Unsupported));
    }
    if version != 1 && file[m.start + 1] % 4 != 0 {
        return Err(Error::FormatError(FormatError::Unsupported));
    }
    let name_size: usize = get_u16(file, m.start + 2) as usize;
    let type_size: usize = get_u16(file, m.start + 4) as usize;
    let space_size: usize = get_u16(file, m.start + 6) as usize;
    let head: usize = if version == 3 {
        9
    } else {
        8
    };
    let name_room: usize = if version == 1 {
        (name_size + 7) / 8 * 8
    } else {
        name_size
    };
    let type_room: usize = if version == 1 {
        (type_size + 7) / 8 * 8
    } else {
        type_size
    };
    let space_room: usize = if version == 1 {
        (space_size + 7) / 8 * 8
    } else {
        space_size
    };
    if head + name_room + type_room + space_room > m.size {
        return Err(Error::FormatError(FormatError::Malformed));
    }
    let name_start: usize = m.start + head;
    let type_start: usize = name_start + name_room;
    let space_start: usize = type_start + type_room;
    Ok(
        Attribute {
            name_start,
            name_size,
            type_start,
            type_size,
            space_start,
            space_size,
            data_start: space_start + space_room,
            data_end: m.start + m.size,
        },
    )
}

/// Finds the first attribute called `name` among the messages of a header.
pub(crate) fn find_attribute(file: &[u8], msgs: &Vec<Message>, name: &[u8]) -> (r: Result<Attribute, Error>)
    requires
        within(file@, msgs@),
    ensures
        r == attribute_named(file@, msgs@, name@, 0),
        r matches Ok(a) ==> attribute_placed(file@, a),
{
    let mut i: usize = 0;
    while i < msgs.len()
        invariant
            i <= msgs@.len(),
            within(file@, msgs@),
            attribute_named(file@, msgs@, name@, 0) == attribute_named(
                file@,
                msgs@,
                name@,
                i as int,
            ),
        decreases msgs@.len() - i,
    {
        let m: Message = msgs[i];
        if m.kind == KIND_ATTRIBUTE {
            let a: Attribute = read_attribute(file, &m)?;
            if name_matches(file, a.name_start as u64, (a.name_start + a.name_size) as u64, name) {
                return Ok(a);
            }
        }
        i = i + 1;
    }
    Err(Error::NotFound)
}

/// Finds the attribute called `name` of the object whose header is at `addr`.
pub fn read_attribute_at(file: &[u8], addr: u64, name: &[u8]) -> (r: Result<Attribute, Error>)
    ensures
        r == attribute_at(file@, addr, name@),
        r matches Ok(a) ==> attribute_placed(file@, a),
{
    let msgs: Vec<Message> = read_header(file, addr)?;
    find_attribute(file, &msgs, name)
}

/// Finds the attribute called `name` of the object that `path` leads to.
pub fn read_attribute_by_path(file: &[u8], root: u64, path: &[u8], name: &[u8]) -> (r: Result<
    Attribute,
    Error,
>)
    ensures
        r == attribute_by_path(file@, root, path@, name@),
        r matches Ok(a) ==> attribute_placed(file@, a),
{
    let addr: u64 = resolve(file, root, path)?;
    read_attribute_at(file, addr, name)
}

/// Reads the value of an attribute that holds one string.
pub fn read_string(file: &[u8], a: &Attribute) -> (r: Result<Vec<u8>, Error>)
    ensures
        viewed(r) == string_value(file@, *a),
{
    proof {
        lemma_len_fits(file);
    }
    if a.data_end > file.len() || a.data_start > a.data_end || a.name_start > a.data_start
        || a.data_end - a.name_start > 0xffff {
        return Err(Error::FormatError(FormatError::Malformed));
    }
    if a.type_start < a.name_start || a.type_start - a.name_start < a.name_size || a.space_start
        < a.type_start || a.space_start - a.type_start < a.type_size || a.data_start
        < a.space_start || a.data_start - a.space_start < a.space_size {
        return Err(Error::FormatError(FormatError::Malformed));
    }
    if a.type_size < 8 {
        return Err(Error::FormatError(FormatError::Malformed));
    }
    let class: u8 = file[a.type_start] % 16;
    let kind: u8 = file[a.type_start + 1] % 16;
    if class == CLASS_STRING {
        if kind > 1 {
            return Err(Error::FormatError(FormatError::Unsupported));
        }
        check_scalar(file, a)?;
        let len: u32 = get_u32(file, a.type_start + 4);
        if len as u64 > (a.data_end - a.data_start) as u64 {
            return Err(Error::FormatError(FormatError::Malformed));
        }
        Ok(read_text(file, a.data_start, len as usize))
    } else if class == CLASS_VARIABLE && kind == 1 {
        check_scalar(file, a)?;
        if a.data_end - a.data_start < 16 {
            return Err(Error::FormatError(FormatError::Malformed));
        }
        let len: u32 = get_u32(file, a.data_start);
        if len == 0 {
            return Ok(Vec::new());
        }
        let heap: u64 = get_u64(file, a.data_start + 4);
        let index: u32 = get_u32(file, a.data_start + 12);
        let o: HeapObject = find_heap_object(file, heap, index)?;
        if len as u64 > o.size as u64 {
            return Err(Error::FormatError(FormatError::Malformed));
        }
        Ok(read_text(file, o.start, len as usize))
    } else {
        Err(Error::FormatError(FormatError::NotAString))
    }
}

/// Checks that the attribute holds a single value.
fn check_scalar(file: &[u8], a: &Attribute) -> (r: Result<(), Error>)
    requires
        attribute_placed(file@, *a),
    ensures
        match r {
            Ok(_) => scalar_fault(file@, *a) is None,
            Err(e) => scalar_fault(file@, *a) == Some(e),
        },
{
    proof {
        lemma_len_fits(file);
    }
    if a.space_size < 2 {
        return Err(Error::FormatError(FormatError::Malformed));
    }
    let version: u8 = file[a.space_start];
    if version != 1 && version != 2 {
        return Err(Error::FormatError(FormatError::Unsupported));
    }
    if file[a.space_start + 1] != 0 {
        return Err(Error::FormatError(FormatError::Unsupported));
    }
    Ok(())
}

/// Copies the string of at most `len` bytes that starts at `start`.
fn read_text(file: &[u8], start: usize, len: usize) -> (text: Vec<u8>)
    requires
        in_bounds(file@, start as int, len as int),
    ensures
        text@ == text_at(file@, start as int, len as int),
{
    proof {
        lemma_len_fits(file);
    }
    let end: usize = find_byte(file, 0, start, start + len);
    slice_to_vec(slice_subrange(file, start, end))
}

} // verus!
