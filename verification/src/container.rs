//! The container as a whole: its signature, its superblock and its root group.

use vstd::prelude::*;

use crate::attribute::{attribute_by_path, read_attribute_by_path, Attribute};
use crate::bytes::{fits, get_u64, in_bounds, u64_at};
use crate::dataset::{dataset_by_path, read_dataset_by_path, DatasetDescriptor};
use crate::decode::{decode, decode_window};
use crate::event::RawRecord;
use crate::result::{viewed, Error, FormatError};

verus! {

/// The file starts with the eight signature bytes of the container format.
pub open spec fn has_signature(file: Seq<u8>) -> bool {
    &&& file.len() >= 8
    &&& file[0] == 0x89
    &&& file[1] == 0x48
    &&& file[2] == 0x44
    &&& file[3] == 0x46
    &&& file[4] == 0x0d
    &&& file[5] == 0x0a
    &&& file[6] == 0x1a
    &&& file[7] == 0x0a
}

/// The length of the superblock's leading part, which depends on its version.
pub open spec fn superblock_fixed_len(version: u8) -> int {
    if version == 0 {
        24
    } else {
        28
    }
}

/// The address of the root group's object header, as the superblock gives it.
///
/// The superblock must stand at the start of the file, in version 0 or 1, with
/// eight-byte offsets and lengths and with base address zero.
pub open spec fn root_header(file: Seq<u8>) -> Result<u64, Error> {
    if !has_signature(file) {
        Err(Error::FormatError(FormatError::BadSignature))
    } else if file.len() < 9 {
        Err(Error::IoError)
    } else if file[8] > 1 {
        Err(Error::FormatError(FormatError::Unsupported))
    } else {
        let fixed = superblock_fixed_len(file[8]);
        if !in_bounds(file, 0, fixed + 72) {
            Err(Error::IoError)
        } else if file[13] != 8 || file[14] != 8 {
            Err(Error::FormatError(FormatError::Unsupported))
        } else if u64_at(file, fixed) != 0 {
            Err(Error::FormatError(FormatError::Unsupported))
        } else {
            Ok(u64_at(file, fixed + 40) as u64)
        }
    }
}

/// One opened container: the bytes of a file whose superblock has been
/// checked, together with the address of its root group.
pub struct Container<'a> {
    bytes: &'a [u8],
    root: u64,
}

impl<'a> Container<'a> {
    #[verifier::type_invariant]
    spec fn well_formed(self) -> bool {
        root_header(self.bytes@) == Ok::<u64, Error>(self.root)
    }

    /// The bytes of the file.
    pub closed spec fn file(self) -> Seq<u8> {
        self.bytes@
    }

    /// The address of the root group's object header.
    pub closed spec fn root_address(self) -> u64 {
        self.root
    }

    /// Checks the signature and the superblock of `bytes` and opens the
    /// container.
    pub fn open(bytes: &'a [u8]) -> (r: Result<Container<'a>, Error>)
        ensures
            match r {
                Ok(c) => c.file() == bytes@ && root_header(bytes@) == Ok::<u64, Error>(
                    c.root_address(),
                ),
                Err(e) => root_header(bytes@) == Err::<u64, Error>(e),
            },
    {
        if bytes.len() < 8 || bytes[0] != 0x89 || bytes[1] != 0x48 || bytes[2] != 0x44 || bytes[3]
            != 0x46 || bytes[4] != 0x0d || bytes[5] != 0x0a || bytes[6] != 0x1a || bytes[7]
            != 0x0a {
            return Err(Error::FormatError(FormatError::BadSignature));
        }
        if bytes.len() < 9 {
            return Err(Error::IoError);
        }
        let version: u8 = bytes[8];
        if version > 1 {
            return Err(Error::FormatError(FormatError::Unsupported));
        }
        let fixed: usize = if version == 0 {
            24
        } else {
            28
        };
        if !fits(bytes, 0, fixed as u64 + 72) {
            return Err(Error::IoError);
        }
        if bytes[13] != 8 || bytes[14] != 8 {
            return Err(Error::FormatError(FormatError::Unsupported));
        }
        if get_u64(bytes, fixed) != 0 {
            return Err(Error::FormatError(FormatError::Unsupported));
        }
        let root: u64 = get_u64(bytes, fixed + 40);
        Ok(Container { bytes, root })
    }

    /// The bytes of the file.
    pub fn bytes(&self) -> (b: &'a [u8])
        ensures
            b@ == self.file(),
    {
        self.bytes
    }

    /// Resolves the slash-separated `path` from the root group and reads the
    /// description of the dataset found there: the number of its records,
    /// their type and their storage. Resolution fails with `NotFound` at the
    /// first segment that names no link.
    pub fn resolve_dataset(&self, path: &[u8]) -> (r: Result<DatasetDescriptor, Error>)
        ensures
            viewed(r) == dataset_by_path(self.file(), self.root_address(), path@),
    {
        read_dataset_by_path(self.bytes, self.root, path)
    }

    /// Resolves the slash-separated `group_path` from the root group and
    /// finds the attribute called `name` of the object found there.
    pub fn resolve_attribute(&self, group_path: &[u8], name: &[u8]) -> (r: Result<Attribute, Error>)
        ensures
            r == attribute_by_path(self.file(), self.root_address(), group_path@, name@),
    {
        read_attribute_by_path(self.bytes, self.root, group_path, name)
    }

    /// Decodes the window of the dataset that skips `skip` records and then
    /// takes at most `take`.
    pub fn decode(&self, d: &DatasetDescriptor, skip: usize, take: usize) -> (r: Result<
        Vec<RawRecord>,
        Error,
    >)
        ensures
            viewed(r) == decode_window(self.file(), d@, skip, take),
    {
        decode(self.bytes, d, skip, take)
    }

    /// The address of the root group's object header.
    pub fn root(&self) -> (root: u64)
        ensures
            root == self.root_address(),
            root_header(self.file()) == Ok::<u64, Error>(root),
    {
        proof {
            use_type_invariant(self);
        }
        self.root
    }
}

} // verus!
