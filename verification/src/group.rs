//! Groups: the named links from one object to others, and paths through them.
//!
//! A group's object header names an index tree and a heap. The tree's leaves
//! point to symbol nodes, each of which lists links; a link gives the place of
//! its zero-terminated name in the heap and the address of the object header
//! that it leads to.

use vstd::prelude::*;
use vstd::slice::slice_subrange;

use crate::bytes::{fits, get_u16, lemma_len_fits, get_u64, in_bounds, name_is, name_matches, u16_at, u64_at};
use crate::header::{
    find_kind,
    header_messages,
    index_of_kind,
    prepend,
    read_header,
    Message,
    KIND_SYMBOL_TABLE,
};
use crate::result::{viewed, Error, FormatError};
use crate::tree::{all_leaves, read_leaves, tag_at, Leaf};

verus! {

/// One link of a group: the offset of its name in the group's heap and the
/// address of the object header that it leads to.
#[derive(Clone, Copy, Debug, PartialEq, Eq, Structural)]
pub struct Link {
    pub name: u64,
    pub header: u64,
}

/// What a group holds: its links in the order of the index tree, and the part
/// of the file in which their names stand.
pub struct GroupView {
    pub links: Seq<Link>,
    pub names_start: u64,
    pub names_end: u64,
}

/// A group read from the file.
pub struct Group {
    pub links: Vec<Link>,
    pub names_start: u64,
    pub names_end: u64,
}

impl View for Group {
    type V = GroupView;

    open spec fn view(&self) -> GroupView {
        GroupView { links: self.links@, names_start: self.names_start, names_end: self.names_end }
    }
}

/// The addresses of a group's index tree and heap, taken from the messages of
/// its object header. An object without such a message is no group, so nothing
/// can be found in it.
pub open spec fn symbol_table(file: Seq<u8>, msgs: Seq<Message>) -> Result<(u64, u64), Error> {
    let i = index_of_kind(msgs, KIND_SYMBOL_TABLE, 0);
    if i >= msgs.len() {
        Err(Error::NotFound)
    } else if msgs[i].size < 16 {
        Err(Error::FormatError(FormatError::Malformed))
    } else {
        Ok((u64_at(file, msgs[i].start as int) as u64, u64_at(file, msgs[i].start + 8) as u64))
    }
}

/// The start and the end of the data segment of the heap at `addr`.
pub open spec fn heap_extent(file: Seq<u8>, addr: int) -> Result<(u64, u64), Error> {
    if !in_bounds(file, addr, 32) {
        Err(Error::IoError)
    } else if !tag_at(file, addr, 0x48, 0x45, 0x41, 0x50) {
        Err(Error::FormatError(FormatError::Malformed))
    } else if file[addr + 4] != 0 {
        Err(Error::FormatError(FormatError::Unsupported))
    } else if !in_bounds(file, u64_at(file, addr + 24), u64_at(file, addr + 8)) {
        Err(Error::IoError)
    } else {
        Ok((u64_at(file, addr + 24) as u64, (u64_at(file, addr + 24) + u64_at(file, addr + 8)) as u64))
    }
}

/// The link whose 40-byte entry stands at `pos`.
pub open spec fn link_at(file: Seq<u8>, pos: int) -> Link {
    Link { name: u64_at(file, pos) as u64, header: u64_at(file, pos + 8) as u64 }
}

/// The links listed by the symbol node at `addr`.
pub open spec fn node_links(file: Seq<u8>, addr: int) -> Result<Seq<Link>, Error> {
    if !in_bounds(file, addr, 8) {
        Err(Error::IoError)
    } else if !tag_at(file, addr, 0x53, 0x4e, 0x4f, 0x44) {
        Err(Error::FormatError(FormatError::Malformed))
    } else if file[addr + 4] != 1 {
        Err(Error::FormatError(FormatError::Unsupported))
    } else if !in_bounds(file, addr + 8, 40 * u16_at(file, addr + 6)) {
        Err(Error::IoError)
    } else {
        Ok(Seq::new(u16_at(file, addr + 6) as nat, |i: int| link_at(file, addr + 8 + 40 * i)))
    }
}

/// The links of the symbol nodes that the leaves from index `from` on point to.
pub open spec fn leaf_links(file: Seq<u8>, leaves: Seq<Leaf>, from: int) -> Result<Seq<Link>, Error>
    decreases leaves.len() - from,
{
    if from < 0 || from >= leaves.len() {
        Ok(Seq::empty())
    } else {
        match node_links(file, leaves[from].child as int) {
            Err(e) => Err(e),
            Ok(links) => prepend(links, leaf_links(file, leaves, from + 1)),
        }
    }
}

/// The group whose object header is at `addr`.
pub open spec fn group_at(file: Seq<u8>, addr: int) -> Result<GroupView, Error> {
    match header_messages(file, addr) {
        Err(e) => Err(e),
        Ok(msgs) => match symbol_table(file, msgs) {
            Err(e) => Err(e),
            Ok((tree, heap)) => match heap_extent(file, heap as int) {
                Err(e) => Err(e),
                Ok((names_start, names_end)) => match all_leaves(file, tree as int, 0, 8) {
                    Err(e) => Err(e),
                    Ok(leaves) => match leaf_links(file, leaves, 0) {
                        Err(e) => Err(e),
                        Ok(links) => Ok(GroupView { links, names_start, names_end }),
                    },
                },
            },
        },
    }
}

/// The link's name is `name`.
pub open spec fn link_named(file: Seq<u8>, group: GroupView, link: Link, name: Seq<u8>) -> bool {
    name_is(file, group.names_start + link.name, group.names_end as int, name)
}

/// The index of the first link called `name` at or after `from`, or the number
/// of links if there is none.
pub open spec fn index_of_name(file: Seq<u8>, group: GroupView, name: Seq<u8>, from: int) -> int
    decreases group.links.len() - from,
{
    if from < 0 || from >= group.links.len() {
        group.links.len() as int
    } else if link_named(file, group, group.links[from], name) {
        from
    } else {
        index_of_name(file, group, name, from + 1)
    }
}

/// `index_of_name` finds the first link of the name: no link between `from`
/// and the index it gives has that name, and the link at that index has it,
/// unless the index is the number of links.
pub proof fn lemma_index_of_name(file: Seq<u8>, group: GroupView, name: Seq<u8>, from: int)
    requires
        0 <= from <= group.links.len(),
    ensures
        from <= index_of_name(file, group, name, from) <= group.links.len(),
        index_of_name(file, group, name, from) < group.links.len() ==> link_named(
            file,
            group,
            group.links[index_of_name(file, group, name, from)],
            name,
        ),
        forall|k: int|
            from <= k < index_of_name(file, group, name, from) ==> !link_named(
                file,
                group,
                #[trigger] group.links[k],
                name,
            ),
    decreases group.links.len() - from,
{
    if from < group.links.len() && !link_named(file, group, group.links[from], name) {
        lemma_index_of_name(file, group, name, from + 1);
    }
}

/// The object that the link called `name` leads to, in the group at `addr`.
pub open spec fn child_named(file: Seq<u8>, addr: u64, name: Seq<u8>) -> Result<u64, Error> {
    match group_at(file, addr as int) {
        Err(e) => Err(e),
        Ok(group) => {
            let i = index_of_name(file, group, name, 0);
            if i >= group.links.len() {
                Err(Error::NotFound)
            } else {
                Ok(group.links[i].header)
            }
        },
    }
}

/// The object that the first link of the group at `addr` leads to.
pub open spec fn first_child(file: Seq<u8>, addr: u64) -> Result<u64, Error> {
    match group_at(file, addr as int) {
        Err(e) => Err(e),
        Ok(group) => if group.links.len() == 0 {
            Err(Error::NotFound)
        } else {
            Ok(group.links[0].header)
        },
    }
}

/// The object reached from `addr` by the part of `path` that is still to be
/// followed: a segment that began at `start` and has been read up to `pos`,
/// and what lies behind it.
pub open spec fn walk(file: Seq<u8>, addr: u64, path: Seq<u8>, start: int, pos: int) -> Result<
    u64,
    Error,
>
    decreases path.len() - pos,
{
    if pos < 0 || pos >= path.len() {
        if 0 <= start < path.len() {
            child_named(file, addr, path.subrange(start, path.len() as int))
        } else {
            Ok(addr)
        }
    } else if path[pos] != 0x2f {
        walk(file, addr, path, start, pos + 1)
    } else if 0 <= start < pos {
        match child_named(file, addr, path.subrange(start, pos)) {
            Err(e) => Err(e),
            Ok(child) => walk(file, child, path, pos + 1, pos + 1),
        }
    } else {
        walk(file, addr, path, pos + 1, pos + 1)
    }
}

/// The object reached from the object at `addr` by following the segments of
/// the slash-separated `path` one after another. Empty segments are skipped,
/// and resolution stops with `NotFound` at the first segment that names no
/// link.
pub open spec fn resolve_path(file: Seq<u8>, addr: u64, path: Seq<u8>) -> Result<u64, Error> {
    walk(file, addr, path, 0, 0)
}

/// Walking a path from position `k` on is walking what is left of the path
/// after its first `k` bytes are dropped.
pub proof fn lemma_walk_suffix(
    file: Seq<u8>,
    addr: u64,
    path: Seq<u8>,
    k: int,
    start: int,
    pos: int,
)
    requires
        0 <= k <= path.len(),
        0 <= start <= pos,
    ensures
        walk(file, addr, path, k + start, k + pos) == walk(file, addr, path.skip(k), start, pos),
    decreases path.len() - k - pos,
{
    let rest = path.skip(k);
    if pos >= rest.len() {
        if start < rest.len() {
            assert(path.subrange(k + start, path.len() as int) =~= rest.subrange(
                start,
                rest.len() as int,
            ));
        }
    } else if rest[pos] != 0x2f {
        lemma_walk_suffix(file, addr, path, k, start, pos + 1);
    } else if start < pos {
        assert(path.subrange(k + start, k + pos) =~= rest.subrange(start, pos));
        match child_named(file, addr, rest.subrange(start, pos)) {
            Err(_) => {},
            Ok(child) => {
                lemma_walk_suffix(file, child, path, k, pos + 1, pos + 1);
            },
        }
    } else {
        lemma_walk_suffix(file, addr, path, k, pos + 1, pos + 1);
    }
}

/// Walking two paths joined by a slash is walking the first and then, from
/// the object reached, the second.
pub proof fn lemma_walk_join(
    file: Seq<u8>,
    addr: u64,
    a: Seq<u8>,
    b: Seq<u8>,
    start: int,
    pos: int,
)
    requires
        0 <= start <= pos <= a.len(),
    ensures
        walk(file, addr, a + seq![0x2fu8] + b, start, pos) == match walk(
            file,
            addr,
            a,
            start,
            pos,
        ) {
            Ok(at) => resolve_path(file, at, b),
            Err(e) => Err(e),
        },
    decreases a.len() - pos,
{
    let path = a + seq![0x2fu8] + b;
    if pos == a.len() {
        assert(path[pos] == 0x2f);
        assert(path.skip(a.len() as int + 1) =~= b);
        if start < pos {
            assert(path.subrange(start, pos) =~= a.subrange(start, a.len() as int));
            match child_named(file, addr, path.subrange(start, pos)) {
                Err(_) => {},
                Ok(child) => {
                    lemma_walk_suffix(file, child, path, a.len() as int + 1, 0, 0);
                },
            }
        } else {
            lemma_walk_suffix(file, addr, path, a.len() as int + 1, 0, 0);
        }
    } else if a[pos] != 0x2f {
        assert(path[pos] == a[pos]);
        lemma_walk_join(file, addr, a, b, start, pos + 1);
    } else if start < pos {
        assert(path[pos] == a[pos]);
        assert(path.subrange(start, pos) =~= a.subrange(start, pos));
        match child_named(file, addr, a.subrange(start, pos)) {
            Err(_) => {},
            Ok(child) => {
                lemma_walk_join(file, child, a, b, pos + 1, pos + 1);
            },
        }
    } else {
        assert(path[pos] == a[pos]);
        lemma_walk_join(file, addr, a, b, pos + 1, pos + 1);
    }
}

/// The empty path leads nowhere: it resolves to the object it starts from.
pub proof fn lemma_resolve_nothing(file: Seq<u8>, addr: u64)
    ensures
        resolve_path(file, addr, Seq::<u8>::empty()) == Ok::<u64, Error>(addr),
{
}

/// A path of one segment resolves to the object that the link of that name
/// leads to.
pub proof fn lemma_resolve_name(file: Seq<u8>, addr: u64, name: Seq<u8>)
    requires
        name.len() > 0,
        forall|k: int| 0 <= k < name.len() ==> name[k] != 0x2f,
    ensures
        resolve_path(file, addr, name) == child_named(file, addr, name),
{
    lemma_walk_name(file, addr, name, 0);
    assert(name.subrange(0, name.len() as int) =~= name);
}

/// Inside a segment, walking goes on to the end of the path.
proof fn lemma_walk_name(file: Seq<u8>, addr: u64, name: Seq<u8>, pos: int)
    requires
        name.len() > 0,
        0 <= pos <= name.len(),
        forall|k: int| 0 <= k < name.len() ==> name[k] != 0x2f,
    ensures
        walk(file, addr, name, 0, pos) == child_named(
            file,
            addr,
            name.subrange(0, name.len() as int),
        ),
    decreases name.len() - pos,
{
    if pos < name.len() {
        lemma_walk_name(file, addr, name, pos + 1);
    }
}

/// Two paths joined by a slash resolve to what the second resolves to from
/// the object that the first resolves to; where the first fails, so does the
/// joined path, with the same failure.
pub proof fn lemma_resolve_join(file: Seq<u8>, addr: u64, a: Seq<u8>, b: Seq<u8>)
    ensures
        resolve_path(file, addr, a + seq![0x2fu8] + b) == match resolve_path(file, addr, a) {
            Ok(at) => resolve_path(file, at, b),
            Err(e) => Err(e),
        },
{
    lemma_walk_join(file, addr, a, b, 0, 0);
}

/// Reads the links of the symbol node at `addr`.
pub fn read_node(file: &[u8], addr: u64) -> (r: Result<Vec<Link>, Error>)
    ensures
        viewed(r) == node_links(file@, addr as int),
{
    if !fits(file, addr, 8) {
        return Err(Error::IoError);
    }
    let base: usize = addr as usize;
    if file[base] != 0x53 || file[base + 1] != 0x4e || file[base + 2] != 0x4f || file[base + 3]
        != 0x44 {
        return Err(Error::FormatError(FormatError::Malformed));
    }
    if file[base + 4] != 1 {
        return Err(Error::FormatError(FormatError::Unsupported));
    }
    let n: usize = get_u16(file, base + 6) as usize;
    if !fits(file, addr + 8, 40 * (n as u64)) {
        return Err(Error::IoError);
    }
    let mut out: Vec<Link> = Vec::new();
    let mut i: usize = 0;
    while i < n
        invariant
            i <= n,
            n == u16_at(file@, base + 6),
            base == addr,
            in_bounds(file@, base + 8, 40 * n),
            file@.len() <= usize::MAX,
            out@ =~= Seq::new(i as nat, |k: int| link_at(file@, base + 8 + 40 * k)),
        decreases n - i,
    {
        let pos: usize = base + 8 + 40 * i;
        let link = Link { name: get_u64(file, pos), header: get_u64(file, pos + 8) };
        out.push(link);
        i = i + 1;
    }
    Ok(out)
}

/// Reads the group whose object header is at `addr`.
pub fn read_group(file: &[u8], addr: u64) -> (r: Result<Group, Error>)
    ensures
        viewed(r) == group_at(file@, addr as int),
{
    let msgs: Vec<Message> = read_header(file, addr)?;
    let table: Message = match find_kind(&msgs, KIND_SYMBOL_TABLE) {
        Some(m) => m,
        None => {
            return Err(Error::NotFound);
        },
    };
    if table.size < 16 {
        return Err(Error::FormatError(FormatError::Malformed));
    }
    proof {
        lemma_len_fits(file);
    }
    let tree: u64 = get_u64(file, table.start);
    let heap: u64 = get_u64(file, table.start + 8);
    if !fits(file, heap, 32) {
        return Err(Error::IoError);
    }
    let h: usize = heap as usize;
    if file[h] != 0x48 || file[h + 1] != 0x45 || file[h + 2] != 0x41 || file[h + 3] != 0x50 {
        return Err(Error::FormatError(FormatError::Malformed));
    }
    if file[h + 4] != 0 {
        return Err(Error::FormatError(FormatError::Unsupported));
    }
    let size: u64 = get_u64(file, h + 8);
    let names_start: u64 = get_u64(file, h + 24);
    if !fits(file, names_start, size) {
        return Err(Error::IoError);
    }
    let names_end: u64 = names_start + size;
    let leaves: Vec<Leaf> = read_leaves(file, tree, 0, 8)?;
    let mut links: Vec<Link> = Vec::new();
    let mut i: usize = 0;
    while i < leaves.len()
        invariant
            i <= leaves@.len(),
            leaf_links(file@, leaves@, 0) == prepend(links@, leaf_links(file@, leaves@, i as int)),
            group_at(file@, addr as int) == match leaf_links(file@, leaves@, 0) {
                Err(e) => Err::<GroupView, Error>(e),
                Ok(all) => Ok(GroupView { links: all, names_start, names_end }),
            },
        decreases leaves@.len() - i,
    {
        let mut more: Vec<Link> = read_node(file, leaves[i].child)?;
        proof {
            match leaf_links(file@, leaves@, i + 1) {
                Ok(t) => {
                    assert(links@ + (more@ + t) =~= (links@ + more@) + t);
                },
                Err(_) => {},
            }
        }
        links.append(&mut more);
        i = i + 1;
    }
    proof {
        assert(links@ + Seq::<Link>::empty() =~= links@);
    }
    Ok(Group { links, names_start, names_end })
}

/// Finds the object that the first link called `name` leads to.
pub fn find_child(file: &[u8], group: &Group, name: &[u8]) -> (r: Option<u64>)
    ensures
        0 <= index_of_name(file@, group@, name@, 0) <= group@.links.len(),
        match r {
            Some(header) => index_of_name(file@, group@, name@, 0) < group@.links.len() && header
                == group@.links[index_of_name(file@, group@, name@, 0)].header,
            None => index_of_name(file@, group@, name@, 0) == group@.links.len(),
        },
        forall|k: int|
            0 <= k < index_of_name(file@, group@, name@, 0) ==> !link_named(
                file@,
                group@,
                #[trigger] group@.links[k],
                name@,
            ),
        r is Some ==> link_named(
            file@,
            group@,
            group@.links[index_of_name(file@, group@, name@, 0)],
            name@,
        ),
{
    let mut i: usize = 0;
    while i < group.links.len()
        invariant
            i <= group@.links.len(),
            index_of_name(file@, group@, name@, 0) == index_of_name(file@, group@, name@, i as int),
        decreases group@.links.len() - i,
    {
        let link: Link = group.links[i];
        if group.names_start <= group.names_end && link.name < group.names_end - group.names_start
            && name_matches(file, group.names_start + link.name, group.names_end, name) {
            proof {
                lemma_index_of_name(file@, group@, name@, 0);
            }
            return Some(link.header);
        }
        i = i + 1;
    }
    proof {
        lemma_index_of_name(file@, group@, name@, 0);
    }
    None
}

/// Follows the link called `name` in the group at `addr`.
pub fn open_child(file: &[u8], addr: u64, name: &[u8]) -> (r: Result<u64, Error>)
    ensures
        r == child_named(file@, addr, name@),
{
    let group: Group = read_group(file, addr)?;
    match find_child(file, &group, name) {
        Some(header) => Ok(header),
        None => Err(Error::NotFound),
    }
}

/// Follows the first link of the group at `addr`.
pub fn open_first_child(file: &[u8], addr: u64) -> (r: Result<u64, Error>)
    ensures
        r == first_child(file@, addr),
{
    let group: Group = read_group(file, addr)?;
    if group.links.len() == 0 {
        Err(Error::NotFound)
    } else {
        Ok(group.links[0].header)
    }
}

/// Follows the slash-separated `path` from the object at `addr`.
pub fn resolve(file: &[u8], addr: u64, path: &[u8]) -> (r: Result<u64, Error>)
    ensures
        r == resolve_path(file@, addr, path@),
{
    let mut at: u64 = addr;
    let mut start: usize = 0;
    let mut pos: usize = 0;
    while pos < path.len()
        invariant
            start <= pos <= path@.len(),
            resolve_path(file@, addr, path@) == walk(file@, at, path@, start as int, pos as int),
        decreases path@.len() - pos,
    {
        if path[pos] == 0x2f {
            if start < pos {
                at = open_child(file, at, slice_subrange(path, start, pos))?;
            }
            start = pos + 1;
        }
        pos = pos + 1;
    }
    if start < pos {
        open_child(file, at, slice_subrange(path, start, pos))
    } else {
        Ok(at)
    }
}

} // verus!
