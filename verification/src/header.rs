//! Object headers: the list of messages that describes one object.
//!
//! An object header (version 1) starts with a sixteen-byte prefix that gives
//! the number of messages and the size of the first block of messages. Each
//! message has an eight-byte head (kind, size, flags) followed by its data. A
//! message of the continuation kind names a further block of messages.

use vstd::prelude::*;

use crate::bytes::{fits, lemma_len_fits, get_u16, get_u32, get_u64, in_bounds, u16_at, u32_at, u64_at};
use crate::result::{viewed, Error, FormatError};

verus! {

/// Kind of the message that holds a dataset's extent.
pub const KIND_DATASPACE: u16 = 0x01;

/// Kind of the message that holds a dataset's element type.
pub const KIND_DATATYPE: u16 = 0x03;

/// Kind of the message that says where a dataset's elements are stored.
pub const KIND_LAYOUT: u16 = 0x08;

/// Kind of the message that lists the filters applied to a dataset's chunks.
pub const KIND_FILTERS: u16 = 0x0b;

/// Kind of the message that holds one attribute.
pub const KIND_ATTRIBUTE: u16 = 0x0c;

/// Kind of the message that names a further block of messages.
pub const KIND_CONTINUATION: u16 = 0x10;

/// Kind of the message that names a group's tree and heap.
pub const KIND_SYMBOL_TABLE: u16 = 0x11;

/// One message of an object header: its kind, its flags and the place of its
/// data in the file.
#[derive(Clone, Copy, Debug, PartialEq, Eq, Structural)]
pub struct Message {
    pub kind: u16,
    pub flags: u8,
    pub start: usize,
    pub size: usize,
}

/// The message whose head stands at `pos`.
pub open spec fn message_at(file: Seq<u8>, pos: int) -> Message {
    Message {
        kind: u16_at(file, pos) as u16,
        flags: file[pos + 4],
        start: (pos + 8) as usize,
        size: u16_at(file, pos + 2) as usize,
    }
}

/// `tail` with `head` put in front of it, where `tail` was read without error.
pub open spec fn prepend<T>(head: Seq<T>, tail: Result<Seq<T>, Error>) -> Result<Seq<T>, Error> {
    match tail {
        Ok(t) => Ok(head + t),
        Err(e) => Err(e),
    }
}

/// The messages stored in the block `[pos, end)`, at most `budget` of them.
///
/// A message that would reach beyond the block makes the block malformed.
pub open spec fn block_messages(file: Seq<u8>, pos: int, end: int, budget: nat) -> Result<
    Seq<Message>,
    Error,
>
    decreases budget,
{
    if budget == 0 || end - pos < 8 {
        Ok(Seq::empty())
    } else if pos + 8 + u16_at(file, pos + 2) > end {
        Err(Error::FormatError(FormatError::Malformed))
    } else {
        prepend(
            seq![message_at(file, pos)],
            block_messages(file, pos + 8 + u16_at(file, pos + 2), end, (budget - 1) as nat),
        )
    }
}

/// The messages `msgs` read so far, extended by the blocks that the
/// continuation messages from index `next` on refer to, with at most `budget`
/// further messages.
pub open spec fn follow(file: Seq<u8>, msgs: Seq<Message>, next: int, budget: nat) -> Result<
    Seq<Message>,
    Error,
>
    decreases budget, msgs.len() - next,
{
    if next < 0 || next >= msgs.len() {
        Ok(msgs)
    } else if msgs[next].kind != KIND_CONTINUATION {
        follow(file, msgs, next + 1, budget)
    } else if msgs[next].size < 16 {
        Err(Error::FormatError(FormatError::Malformed))
    } else {
        let off = u64_at(file, msgs[next].start as int);
        let len = u64_at(file, msgs[next].start + 8);
        if !in_bounds(file, off, len) {
            Err(Error::IoError)
        } else {
            match block_messages(file, off, off + len, budget) {
                Err(e) => Err(e),
                Ok(more) => if more.len() > budget {
                    Err(Error::FormatError(FormatError::Malformed))
                } else {
                    follow(file, msgs + more, next + 1, (budget - more.len()) as nat)
                },
            }
        }
    }
}

/// All messages of the object header at `addr`, in the order in which the
/// blocks are reached.
pub open spec fn header_messages(file: Seq<u8>, addr: int) -> Result<Seq<Message>, Error> {
    if !in_bounds(file, addr, 16) {
        Err(Error::IoError)
    } else if file[addr] != 1 {
        Err(Error::FormatError(FormatError::Unsupported))
    } else {
        let count = u16_at(file, addr + 2) as nat;
        let size = u32_at(file, addr + 8);
        if !in_bounds(file, addr + 16, size) {
            Err(Error::IoError)
        } else {
            match block_messages(file, addr + 16, addr + 16 + size, count) {
                Err(e) => Err(e),
                Ok(first) => if first.len() > count {
                    Err(Error::FormatError(FormatError::Malformed))
                } else {
                    follow(file, first, 0, (count - first.len()) as nat)
                },
            }
        }
    }
}

/// The data of the message lies inside the file, and its size is one that the
/// two size bytes of a message head can hold.
pub open spec fn placed(file: Seq<u8>, m: Message) -> bool {
    in_bounds(file, m.start as int, m.size as int) && m.size <= 0xffff
}

/// The data of every message lies inside the file.
pub open spec fn within(file: Seq<u8>, msgs: Seq<Message>) -> bool {
    forall|i: int| 0 <= i < msgs.len() ==> placed(file, #[trigger] msgs[i])
}

/// The second bit of a message's flags says that the data is stored elsewhere
/// and shared between objects.
pub open spec fn is_shared(m: Message) -> bool {
    (m.flags / 2) % 2 == 1
}

/// The index of the first message of kind `kind` at or after `from`, or the
/// number of messages if there is none.
pub open spec fn index_of_kind(msgs: Seq<Message>, kind: u16, from: int) -> int
    decreases msgs.len() - from,
{
    if from >= msgs.len() {
        msgs.len() as int
    } else if msgs[from].kind == kind {
        from
    } else {
        index_of_kind(msgs, kind, from + 1)
    }
}

/// `index_of_kind` finds the first message of the kind: no message between
/// `from` and the index it gives has that kind, and the message at that index
/// has it, unless the index is the number of messages.
pub proof fn lemma_index_of_kind(msgs: Seq<Message>, kind: u16, from: int)
    requires
        0 <= from <= msgs.len(),
    ensures
        from <= index_of_kind(msgs, kind, from) <= msgs.len(),
        index_of_kind(msgs, kind, from) < msgs.len() ==> msgs[index_of_kind(
            msgs,
            kind,
            from,
        )].kind == kind,
        forall|k: int| from <= k < index_of_kind(msgs, kind, from) ==> msgs[k].kind != kind,
    decreases msgs.len() - from,
{
    if from < msgs.len() && msgs[from].kind != kind {
        lemma_index_of_kind(msgs, kind, from + 1);
    }
}

/// Reading the messages of a block never reports that something is not found.
pub proof fn lemma_block_found(file: Seq<u8>, pos: int, end: int, budget: nat)
    ensures
        block_messages(file, pos, end, budget) != Err::<Seq<Message>, Error>(Error::NotFound),
    decreases budget,
{
    if !(budget == 0 || end - pos < 8) && !(pos + 8 + u16_at(file, pos + 2) > end) {
        lemma_block_found(file, pos + 8 + u16_at(file, pos + 2), end, (budget - 1) as nat);
    }
}

/// Following the continuation messages never reports that something is not
/// found.
pub proof fn lemma_follow_found(file: Seq<u8>, msgs: Seq<Message>, next: int, budget: nat)
    ensures
        follow(file, msgs, next, budget) != Err::<Seq<Message>, Error>(Error::NotFound),
    decreases budget, msgs.len() - next,
{
    if next < 0 || next >= msgs.len() {
    } else if msgs[next].kind != KIND_CONTINUATION {
        lemma_follow_found(file, msgs, next + 1, budget);
    } else if msgs[next].size >= 16 {
        let off = u64_at(file, msgs[next].start as int);
        let len = u64_at(file, msgs[next].start + 8);
        if in_bounds(file, off, len) {
            lemma_block_found(file, off, off + len, budget);
            match block_messages(file, off, off + len, budget) {
                Err(_) => {},
                Ok(more) => {
                    if more.len() <= budget {
                        lemma_follow_found(
                            file,
                            msgs + more,
                            next + 1,
                            (budget - more.len()) as nat,
                        );
                    }
                },
            }
        }
    }
}

/// Reading an object header never reports that something is not found: it
/// fails only where the file ends early or does not conform.
pub proof fn lemma_header_found(file: Seq<u8>, addr: int)
    ensures
        header_messages(file, addr) != Err::<Seq<Message>, Error>(Error::NotFound),
{
    if in_bounds(file, addr, 16) && file[addr] == 1 {
        let count = u16_at(file, addr + 2) as nat;
        let size = u32_at(file, addr + 8);
        if in_bounds(file, addr + 16, size) {
            lemma_block_found(file, addr + 16, addr + 16 + size, count);
            match block_messages(file, addr + 16, addr + 16 + size, count) {
                Err(_) => {},
                Ok(first) => {
                    if first.len() <= count {
                        lemma_follow_found(file, first, 0, (count - first.len()) as nat);
                    }
                },
            }
        }
    }
}

/// Reads the messages of one block.
pub(crate) fn read_block(file: &[u8], pos: usize, end: usize, budget: usize) -> (r: Result<
    Vec<Message>,
    Error,
>)
    requires
        pos <= end <= file@.len(),
    ensures
        viewed(r) == block_messages(file@, pos as int, end as int, budget as nat),
        r matches Ok(v) ==> v@.len() <= budget && within(file@, v@),
{
    let mut out: Vec<Message> = Vec::new();
    let mut p: usize = pos;
    let mut left: usize = budget;
    while left > 0 && end - p >= 8
        invariant
            pos <= p <= end <= file@.len(),
            left <= budget,
            out@.len() + left == budget,
            within(file@, out@),
            block_messages(file@, pos as int, end as int, budget as nat) == prepend(
                out@,
                block_messages(file@, p as int, end as int, left as nat),
            ),
        decreases left,
    {
        let kind: u16 = get_u16(file, p);
        let size: usize = get_u16(file, p + 2) as usize;
        if size > end - p - 8 {
            return Err(Error::FormatError(FormatError::Malformed));
        }
        let flags: u8 = file[p + 4];
        let m = Message { kind, flags, start: p + 8, size };
        proof {
            assert(m == message_at(file@, p as int));
            let rest = block_messages(file@, p + 8 + size, end as int, (left - 1) as nat);
            match rest {
                Ok(t) => {
                    assert(out@ + (seq![m] + t) =~= out@.push(m) + t);
                },
                Err(_) => {},
            }
        }
        out.push(m);
        p = p + 8 + size;
        left = left - 1;
    }
    proof {
        assert(out@ + Seq::<Message>::empty() =~= out@);
    }
    Ok(out)
}

/// Reads all messages of the object header at `addr`.
pub fn read_header(file: &[u8], addr: u64) -> (r: Result<Vec<Message>, Error>)
    ensures
        viewed(r) == header_messages(file@, addr as int),
        r matches Ok(v) ==> within( file@, v@, ),
{
    if !fits(file, addr, 16) {
        return Err(Error::IoError);
    }
    let base: usize = addr as usize;
    if file[base] != 1 {
        return Err(Error::FormatError(FormatError::Unsupported));
    }
    let count: usize = get_u16(file, base + 2) as usize;
    let size: u32 = get_u32(file, base + 8);
    if !fits(file, addr + 16, size as u64) {
        return Err(Error::IoError);
    }
    let mut msgs: Vec<Message> = read_block(file, base + 16, base + 16 + size as usize, count)?;
    let mut budget: usize = count - msgs.len();
    let mut next: usize = 0;
    proof {
        lemma_len_fits(file);
    }
    while next < msgs.len()
        invariant
            next <= msgs@.len(),
            file@.len() <= usize::MAX,
            within(file@, msgs@),
            header_messages(file@, addr as int) == follow(
                file@,
                msgs@,
                next as int,
                budget as nat,
            ),
        decreases budget, msgs@.len() - next,
    {
        let m: Message = msgs[next];
        if m.kind == KIND_CONTINUATION {
            if m.size < 16 {
                return Err(Error::FormatError(FormatError::Malformed));
            }
            let off: u64 = get_u64(file, m.start);
            let len: u64 = get_u64(file, m.start + 8);
            if !fits(file, off, len) {
                return Err(Error::IoError);
            }
            let mut more: Vec<Message> = read_block(
                file,
                off as usize,
                (off + len) as usize,
                budget,
            )?;
            budget = budget - more.len();
            msgs.append(&mut more);
        }
        next = next + 1;
    }
    Ok(msgs)
}

/// Tells whether the message's data is shared between objects.
pub fn shared(m: &Message) -> (b: bool)
    ensures
        b == is_shared(*m),
{
    (m.flags / 2) % 2 == 1
}

/// Finds the first message of the given kind.
pub fn find_kind(msgs: &Vec<Message>, kind: u16) -> (r: Option<Message>)
    ensures
        0 <= index_of_kind(msgs@, kind, 0) <= msgs@.len(),
        match r {
            Some(m) => index_of_kind(msgs@, kind, 0) < msgs@.len() && m == msgs@[index_of_kind(
                msgs@,
                kind,
                0,
            )] && m.kind == kind,
            None => index_of_kind(msgs@, kind, 0) == msgs@.len(),
        },
        forall|k: int| 0 <= k < index_of_kind(msgs@, kind, 0) ==> msgs@[k].kind != kind,
{
    let mut i: usize = 0;
    while i < msgs.len()
        invariant
            i <= msgs@.len(),
            index_of_kind(msgs@, kind, 0) == index_of_kind(msgs@, kind, i as int),
        decreases msgs@.len() - i,
    {
        if msgs[i].kind == kind {
            proof {
                lemma_index_of_kind(msgs@, kind, 0);
            }
            return Some(msgs[i]);
        }
        i = i + 1;
    }
    proof {
        lemma_index_of_kind(msgs@, kind, 0);
    }
    None
}

} // verus!
