//! The index trees of the container.
//!
//! Groups and chunked datasets are both indexed by a tree of nodes. A node
//! starts with a 24-byte head (signature, kind, level, number of entries, two
//! sibling addresses) and then holds its entries, each a key followed by the
//! address of a child. On level 0 the children are what the tree indexes; on
//! higher levels they are nodes of the next lower level.

use vstd::prelude::*;

use crate::bytes::{fits, get_u16, get_u64, in_bounds, lemma_len_fits, u16_at, u64_at};
use crate::header::prepend;
use crate::result::{viewed, Error, FormatError};

verus! {

/// One entry of a node on level 0: the position of its key in the file and
/// the address of the child it points to.
#[derive(Clone, Copy, Debug, PartialEq, Eq, Structural)]
pub struct Leaf {
    pub key: usize,
    pub child: u64,
}

/// The four bytes at `pos` are the ASCII letters `a`, `b`, `c`, `d`.
pub open spec fn tag_at(file: Seq<u8>, pos: int, a: u8, b: u8, c: u8, d: u8) -> bool {
    file[pos] == a && file[pos + 1] == b && file[pos + 2] == c && file[pos + 3] == d
}

/// The number of entries of the node at `addr`, which must be a node of the
/// given kind and level.
pub open spec fn node_entries(file: Seq<u8>, addr: int, kind: u8, level: nat) -> Result<nat, Error> {
    if !in_bounds(file, addr, 24) {
        Err(Error::IoError)
    } else if !tag_at(file, addr, 0x54, 0x52, 0x45, 0x45) {
        Err(Error::FormatError(FormatError::Malformed))
    } else if file[addr + 4] != kind || file[addr + 5] != level {
        Err(Error::FormatError(FormatError::Malformed))
    } else {
        Ok(u16_at(file, addr + 6) as nat)
    }
}

/// The level-0 entries below the node at `addr`, from left to right.
pub open spec fn tree_leaves(file: Seq<u8>, addr: int, kind: u8, key_size: int, level: nat) -> Result<
    Seq<Leaf>,
    Error,
>
    decreases level, 1int, 0int,
{
    match node_entries(file, addr, kind, level) {
        Err(e) => Err(e),
        Ok(n) => entry_leaves(file, addr + 24, n, kind, key_size, level),
    }
}

/// The level-0 entries below the `left` entries of a node that start at `pos`.
pub open spec fn entry_leaves(
    file: Seq<u8>,
    pos: int,
    left: nat,
    kind: u8,
    key_size: int,
    level: nat,
) -> Result<Seq<Leaf>, Error>
    decreases level, 0int, left,
{
    if left == 0 {
        Ok(Seq::empty())
    } else if !in_bounds(file, pos, key_size + 8) {
        Err(Error::IoError)
    } else {
        let child = u64_at(file, pos + key_size) as u64;
        let rest = entry_leaves(file, pos + key_size + 8, (left - 1) as nat, kind, key_size, level);
        if level == 0 {
            prepend(seq![Leaf { key: pos as usize, child }], rest)
        } else {
            match tree_leaves(file, child as int, kind, key_size, (level - 1) as nat) {
                Err(e) => Err(e),
                Ok(below) => prepend(below, rest),
            }
        }
    }
}

/// The level-0 entries of the whole tree whose root node is at `addr`.
pub open spec fn all_leaves(file: Seq<u8>, addr: int, kind: u8, key_size: int) -> Result<
    Seq<Leaf>,
    Error,
> {
    if !in_bounds(file, addr, 24) {
        Err(Error::IoError)
    } else {
        tree_leaves(file, addr, kind, key_size, file[addr + 5] as nat)
    }
}

/// The key of every leaf, followed by its child address, lies inside the file.
pub open spec fn keys_within(file: Seq<u8>, leaves: Seq<Leaf>, key_size: int) -> bool {
    forall|i: int| 0 <= i < leaves.len() ==> in_bounds(file, (#[trigger] leaves[i]).key as int, key_size + 8)
}

/// Collects the level-0 entries below the node at `addr`.
pub(crate) fn read_tree(file: &[u8], addr: u64, kind: u8, key_size: usize, level: u8) -> (r: Result<
    Vec<Leaf>,
    Error,
>)
    requires
        key_size <= 0x1000,
    ensures
        viewed(r) == tree_leaves(file@, addr as int, kind, key_size as int, level as nat),
        r matches Ok(v) ==> keys_within(file@, v@, key_size as int),
    decreases level,
{
    if !fits(file, addr, 24) {
        return Err(Error::IoError);
    }
    let base: usize = addr as usize;
    if file[base] != 0x54 || file[base + 1] != 0x52 || file[base + 2] != 0x45 || file[base + 3]
        != 0x45 {
        return Err(Error::FormatError(FormatError::Malformed));
    }
    if file[base + 4] != kind || file[base + 5] != level {
        return Err(Error::FormatError(FormatError::Malformed));
    }
    let n: usize = get_u16(file, base + 6) as usize;
    let mut out: Vec<Leaf> = Vec::new();
    let mut pos: usize = base + 24;
    let mut left: usize = n;
    proof {
        lemma_len_fits(file);
    }
    while left > 0
        invariant
            pos <= file@.len() <= usize::MAX,
            key_size <= 0x1000,
            keys_within(file@, out@, key_size as int),
            tree_leaves(file@, addr as int, kind, key_size as int, level as nat) == prepend(
                out@,
                entry_leaves(file@, pos as int, left as nat, kind, key_size as int, level as nat),
            ),
        decreases left,
    {
        if !fits(file, pos as u64, key_size as u64 + 8) {
            return Err(Error::IoError);
        }
        let child: u64 = get_u64(file, pos + key_size);
        let ghost rest = entry_leaves(
            file@,
            pos + key_size + 8,
            (left - 1) as nat,
            kind,
            key_size as int,
            level as nat,
        );
        if level == 0 {
            let leaf = Leaf { key: pos, child };
            proof {
                match rest {
                    Ok(t) => {
                        assert(out@ + (seq![leaf] + t) =~= out@.push(leaf) + t);
                    },
                    Err(_) => {},
                }
            }
            out.push(leaf);
        } else {
            let mut below: Vec<Leaf> = read_tree(file, child, kind, key_size, level - 1)?;
            proof {
                match rest {
                    Ok(t) => {
                        assert(out@ + (below@ + t) =~= (out@ + below@) + t);
                    },
                    Err(_) => {},
                }
            }
            out.append(&mut below);
        }
        pos = pos + key_size + 8;
        left = left - 1;
    }
    proof {
        assert(out@ + Seq::<Leaf>::empty() =~= out@);
    }
    Ok(out)
}

/// Collects the level-0 entries of the tree whose root node is at `addr`.
pub(crate) fn read_leaves(file: &[u8], addr: u64, kind: u8, key_size: usize) -> (r: Result<Vec<Leaf>, Error>)
    requires
        key_size <= 0x1000,
    ensures
        viewed(r) == all_leaves(file@, addr as int, kind, key_size as int),
        r matches Ok(v) ==> keys_within(file@, v@, key_size as int),
{
    if !fits(file, addr, 24) {
        return Err(Error::IoError);
    }
    let level: u8 = file[addr as usize + 5];
    read_tree(file, addr, kind, key_size, level)
}

} // verus!
