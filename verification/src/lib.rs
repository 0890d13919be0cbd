//! Reader for the event tables and the read identity stored in fast5 files.
//!
//! A fast5 file is a hierarchical binary container. This crate works on the
//! bytes of one such file: it locates the event-detection table, decodes its
//! records and returns them in canonical field order, and it extracts the read
//! identifier from the file's metadata.
//!
//! The event table is stored in one of two layouts. The old layout keeps it
//! below the first read of the event-detection analysis, with the columns
//! start, length, mean, stdv. The new layout keeps it below the basecall
//! analysis, with the columns mean, start, stdv, length. The old place is
//! tried first; the new one only where the old one does not exist.

use vstd::prelude::*;
use vstd::string::StringSliceAdditionalSpecFns;
use vstd::utf8::{decode_utf8, valid_utf8};

pub mod attribute;
pub mod bytes;
pub mod container;
pub mod dataset;
pub mod decode;
pub mod event;
pub mod group;
pub mod header;
pub mod heap;
pub mod inflate;
pub mod laws;
pub mod result;
pub mod text;
pub mod tree;

use crate::attribute::{attribute_at, read_attribute_at, read_string, string_value, Attribute};
use crate::container::{root_header, Container};
use crate::dataset::{
    dataset_at,
    dataset_by_path,
    read_dataset,
    read_dataset_by_path,
    DatasetDescriptor,
    DescriptorView,
};
use crate::decode::{decode, decode_window};
use crate::event::{layout_events, map_records, EventRecord, RawRecord, TableLayout};
use crate::group::{
    child_named,
    first_child,
    open_child,
    open_first_child,
    resolve,
    resolve_path,
};
use crate::result::{viewed, Error, FormatError};
use crate::text::string_from_utf8;

verus! {

/// The group that holds the reads of the event-detection analysis.
pub const OLD_READS: &'static str = "/Analyses/EventDetection_000/Reads";

/// The name of the event table below a read of the event-detection analysis.
pub const OLD_EVENTS: &'static str = "Events";

/// The event table of the basecall analysis.
pub const NEW_EVENTS: &'static str = "/Analyses/Basecall_1D_000/BaseCalled_template/Events";

/// The group that holds the raw reads, each with its identifying attributes.
pub const RAW_READS: &'static str = "/Raw/Reads";

/// The name of the attribute that identifies a read.
pub const READ_ID: &'static str = "read_id";

/// The number of records that `get_event` asks for.
pub const ALL_EVENTS: usize = 1_000_000_000;

/// The description of the old-layout event table: the dataset called
/// `Events` below the first read of the event-detection analysis.
pub open spec fn old_table(file: Seq<u8>, root: u64) -> Result<DescriptorView, Error> {
    match resolve_path(file, root, OLD_READS.spec_bytes()) {
        Err(e) => Err(e),
        Ok(reads) => match first_child(file, reads) {
            Err(e) => Err(e),
            Ok(read) => match child_named(file, read, OLD_EVENTS.spec_bytes()) {
                Err(e) => Err(e),
                Ok(events) => dataset_at(file, events),
            },
        },
    }
}

/// The description of the new-layout event table.
pub open spec fn new_table(file: Seq<u8>, root: u64) -> Result<DescriptorView, Error> {
    dataset_by_path(file, root, NEW_EVENTS.spec_bytes())
}

/// The event table of the file and its layout: the old-layout table where it
/// can be read; the new-layout table where the old one is not found; the
/// failure of the old one where it is anything but `NotFound`, and else the
/// failure of the new one.
pub open spec fn event_table(file: Seq<u8>) -> Result<(TableLayout, DescriptorView), Error> {
    match root_header(file) {
        Err(e) => Err(e),
        Ok(root) => match old_table(file, root) {
            Ok(d) => Ok((TableLayout::Old, d)),
            Err(Error::NotFound) => match new_table(file, root) {
                Ok(d) => Ok((TableLayout::New, d)),
                Err(e) => Err(e),
            },
            Err(e) => Err(e),
        },
    }
}

/// The events of the window that skips `skip` records of the file's event
/// table and then takes at most `take`, in stored order and canonical form.
pub open spec fn event_window(file: Seq<u8>, skip: usize, take: usize) -> Result<
    Seq<EventRecord>,
    Error,
> {
    match event_table(file) {
        Err(e) => Err(e),
        Ok((layout, d)) => match decode_window(file, d, skip, take) {
            Err(e) => Err(e),
            Ok(raws) => Ok(layout_events(layout, raws)),
        },
    }
}

/// The bytes of the read identifier: the string value of the attribute
/// `read_id` of the first raw read.
pub open spec fn read_id_bytes(file: Seq<u8>) -> Result<Seq<u8>, Error> {
    match root_header(file) {
        Err(e) => Err(e),
        Ok(root) => match resolve_path(file, root, RAW_READS.spec_bytes()) {
            Err(e) => Err(e),
            Ok(reads) => match first_child(file, reads) {
                Err(e) => Err(e),
                Ok(read) => match attribute_at(file, read, READ_ID.spec_bytes()) {
                    Err(e) => Err(e),
                    Ok(a) => string_value(file, a),
                },
            },
        },
    }
}

/// The read identifier of the file as text. Bytes that are not valid UTF-8
/// do not conform to the format.
pub open spec fn read_id(file: Seq<u8>) -> Result<Seq<char>, Error> {
    match read_id_bytes(file) {
        Err(e) => Err(e),
        Ok(bytes) => if valid_utf8(bytes) {
            Ok(decode_utf8(bytes))
        } else {
            Err(Error::FormatError(FormatError::Malformed))
        },
    }
}

/// Finds the event table of an opened container and tells its layout.
pub fn find_event_table(c: &Container) -> (r: Result<(TableLayout, DatasetDescriptor), Error>)
    ensures
        match r {
            Ok((layout, d)) => event_table(c.file()) == Ok::<(TableLayout, DescriptorView), Error>(
                (layout, d@),
            ),
            Err(e) => event_table(c.file()) == Err::<(TableLayout, DescriptorView), Error>(e),
        },
{
    let file: &[u8] = c.bytes();
    let root: u64 = c.root();
    let old: Result<DatasetDescriptor, Error> = read_old_table(file, root);
    match old {
        Ok(d) => Ok((TableLayout::Old, d)),
        Err(Error::NotFound) => {
            let d: DatasetDescriptor = read_dataset_by_path(file, root, NEW_EVENTS.as_bytes())?;
            Ok((TableLayout::New, d))
        },
        Err(e) => Err(e),
    }
}

/// Reads the description of the old-layout event table.
pub fn read_old_table(file: &[u8], root: u64) -> (r: Result<DatasetDescriptor, Error>)
    ensures
        viewed(r) == old_table(file@, root),
{
    let reads: u64 = resolve(file, root, OLD_READS.as_bytes())?;
    let read: u64 = open_first_child(file, reads)?;
    let events: u64 = open_child(file, read, OLD_EVENTS.as_bytes())?;
    read_dataset(file, events)
}

/// Extracts the events `skip`, `skip + 1`, ... of the file's event table, at
/// most `take` of them, in stored order and with the fields in canonical
/// order.
///
/// The window is cut at the end of the table: a `skip` at or beyond the
/// number of records gives an empty vector.
pub fn get_event_for(file: &[u8], skip: usize, take: usize) -> (r: Result<Vec<EventRecord>, Error>)
    ensures
        viewed(r) == event_window(file@, skip, take),
{
    let c: Container = Container::open(file)?;
    let (layout, d) = find_event_table(&c)?;
    let raws: Vec<RawRecord> = decode(file, &d, skip, take)?;
    Ok(map_records(layout, &raws))
}

/// Extracts the events of the file's event table, up to the first
/// `ALL_EVENTS` of them.
pub fn get_event(file: &[u8]) -> (r: Result<Vec<EventRecord>, Error>)
    ensures
        viewed(r) == event_window(file@, 0, ALL_EVENTS),
{
    get_event_for(file, 0, ALL_EVENTS)
}

/// Extracts the read identifier of the file.
pub fn get_read_id(file: &[u8]) -> (r: Result<String, Error>)
    ensures
        viewed(r) == read_id(file@),
{
    let c: Container = Container::open(file)?;
    let root: u64 = c.root();
    let reads: u64 = resolve(file, root, RAW_READS.as_bytes())?;
    let read: u64 = open_first_child(file, reads)?;
    let a: Attribute = read_attribute_at(file, read, READ_ID.as_bytes())?;
    let bytes: Vec<u8> = read_string(file, &a)?;
    match string_from_utf8(bytes) {
        Some(id) => Ok(id),
        None => Err(Error::FormatError(FormatError::Malformed)),
    }
}

} // verus!
