//! What holds of the reader as a whole: the order and the number of the
//! records it returns, the behaviour of windows, the fallback between the two
//! table layouts, and the failures of files that are no containers.

use vstd::prelude::*;
use vstd::string::StringSliceAdditionalSpecFns;

use crate::{
    event_table,
    event_window,
    new_table,
    old_table,
    read_id,
    ALL_EVENTS,
    OLD_EVENTS,
    OLD_READS,
};
use crate::container::{has_signature, root_header};
use crate::dataset::{lemma_dataset_found, DescriptorView};
use crate::decode::{
    decode_range,
    shape_fault,
    stored_record,
    window_end,
    window_start,
};
use crate::event::{layout_event, layout_events, EventRecord, RawRecord, TableLayout};
use crate::group::{child_named, first_child, resolve_path};
use crate::header::prepend;
use crate::result::{Error, FormatError};

verus! {

/// A range of records that decodes holds one record for each index of the
/// range, and the record at each place is the stored record of that index.
pub proof fn lemma_range_in_stored_order(file: Seq<u8>, d: DescriptorView, lo: int, hi: int)
    requires
        lo <= hi,
        decode_range(file, d, lo, hi) is Ok,
    ensures
        decode_range(file, d, lo, hi)->Ok_0.len() == hi - lo,
        forall|i: int|
            lo <= i < hi ==> #[trigger] stored_record(file, d, i) == Ok::<RawRecord, Error>(
                decode_range(file, d, lo, hi)->Ok_0[i - lo],
            ),
    decreases hi - lo,
{
    if lo < hi {
        lemma_range_in_stored_order(file, d, lo + 1, hi);
        let first = stored_record(file, d, lo)->Ok_0;
        let rest = decode_range(file, d, lo + 1, hi)->Ok_0;
        let all = decode_range(file, d, lo, hi)->Ok_0;
        assert(all == seq![first] + rest);
        assert forall|i: int| lo <= i < hi implies #[trigger] stored_record(file, d, i) == Ok::<
            RawRecord,
            Error,
        >(all[i - lo]) by {
            if i > lo {
                assert(all[i - lo] == rest[i - lo - 1]);
            }
        }
    }
}

/// A range decodes if each of its records can be read.
pub proof fn lemma_range_decodes(file: Seq<u8>, d: DescriptorView, lo: int, hi: int)
    requires
        forall|i: int| lo <= i < hi ==> (#[trigger] stored_record(file, d, i)) is Ok,
    ensures
        decode_range(file, d, lo, hi) is Ok,
    decreases hi - lo,
{
    if lo < hi {
        lemma_range_decodes(file, d, lo + 1, hi);
    }
}

/// A window keeps the stored order: it holds one event for each index from
/// its start to its end, and the event for index `i` stands `i - start`
/// places from the front and is stored record `i` with its columns brought
/// into canonical order according to the layout of the table.
pub proof fn lemma_window_in_stored_order(file: Seq<u8>, skip: usize, take: usize)
    requires
        event_window(file, skip, take) is Ok,
    ensures
        event_table(file) is Ok,
        ({
            let (layout, d) = event_table(file)->Ok_0;
            let events = event_window(file, skip, take)->Ok_0;
            let start = window_start(d.len, skip);
            let end = window_end(d.len, skip, take);
            &&& events.len() == end - start
            &&& events.len() <= take
            &&& forall|i: int|
                start <= i < end ==> (#[trigger] stored_record(file, d, i)) is Ok && events[i
                    - start] == layout_event(layout, stored_record(file, d, i)->Ok_0)
        }),
{
    let (layout, d) = event_table(file)->Ok_0;
    let start = window_start(d.len, skip);
    let end = window_end(d.len, skip, take);
    lemma_range_in_stored_order(file, d, start, end);
}

/// For a file whose old-layout table can be read in full, the window from 0
/// of the table's declared length holds exactly that many events, in stored
/// order, and each event has the columns of its record as start, length,
/// mean, stdv.
pub proof fn lemma_old_layout_whole_table(file: Seq<u8>, root: u64, d: DescriptorView)
    requires
        root_header(file) == Ok::<u64, Error>(root),
        old_table(file, root) == Ok::<DescriptorView, Error>(d),
        shape_fault(d) is None,
        forall|i: int| 0 <= i < d.len ==> (#[trigger] stored_record(file, d, i)) is Ok,
        d.len <= usize::MAX,
    ensures
        event_window(file, 0, d.len as usize) is Ok,
        event_window(file, 0, d.len as usize)->Ok_0.len() == d.len,
        forall|i: int|
            0 <= i < d.len ==> {
                let raw = stored_record(file, d, i)->Ok_0;
                #[trigger] event_window(file, 0, d.len as usize)->Ok_0[i] == (EventRecord {
                    start: raw.0,
                    length: raw.1,
                    mean: raw.2,
                    stdv: raw.3,
                })
            },
{
    lemma_range_decodes(file, d, 0, d.len as int);
    assert(event_table(file) == Ok::<(TableLayout, DescriptorView), Error>((TableLayout::Old, d)));
    lemma_window_in_stored_order(file, 0, d.len as usize);
}

/// For a file that lacks the old-layout table and whose new-layout table can
/// be read in full, the reader falls back to the new-layout table: the window
/// from 0 of the table's declared length holds exactly that many events, in
/// stored order, and each event takes its start, length, mean and stdv from
/// the record's columns stored as mean, start, stdv, length.
pub proof fn lemma_new_layout_fallback(file: Seq<u8>, root: u64, d: DescriptorView)
    requires
        root_header(file) == Ok::<u64, Error>(root),
        old_table(file, root) == Err::<DescriptorView, Error>(Error::NotFound),
        new_table(file, root) == Ok::<DescriptorView, Error>(d),
        shape_fault(d) is None,
        forall|i: int| 0 <= i < d.len ==> (#[trigger] stored_record(file, d, i)) is Ok,
        d.len <= usize::MAX,
    ensures
        event_window(file, 0, d.len as usize) is Ok,
        event_window(file, 0, d.len as usize)->Ok_0.len() == d.len,
        forall|i: int|
            0 <= i < d.len ==> {
                let raw = stored_record(file, d, i)->Ok_0;
                #[trigger] event_window(file, 0, d.len as usize)->Ok_0[i] == (EventRecord {
                    start: raw.1,
                    length: raw.3,
                    mean: raw.0,
                    stdv: raw.2,
                })
            },
{
    lemma_range_decodes(file, d, 0, d.len as int);
    assert(event_table(file) == Ok::<(TableLayout, DescriptorView), Error>((TableLayout::New, d)));
    lemma_window_in_stored_order(file, 0, d.len as usize);
}

/// A window that starts at or behind the end of an event table is empty, and
/// no error.
pub proof fn lemma_skip_past_end(file: Seq<u8>, skip: usize, take: usize)
    requires
        event_table(file) is Ok,
        shape_fault(event_table(file)->Ok_0.1) is None,
        skip >= event_table(file)->Ok_0.1.len,
    ensures
        event_window(file, skip, take) == Ok::<Seq<EventRecord>, Error>(Seq::empty()),
{
    let (layout, d) = event_table(file)->Ok_0;
    assert(layout_events(layout, Seq::<RawRecord>::empty()) =~= Seq::<EventRecord>::empty());
}

/// A range whose front part decodes is that front part followed by the rest
/// of the range, and fails as the rest fails.
pub proof fn lemma_range_join(file: Seq<u8>, d: DescriptorView, lo: int, mid: int, hi: int)
    requires
        lo <= mid <= hi,
        decode_range(file, d, lo, mid) is Ok,
    ensures
        decode_range(file, d, lo, hi) == prepend(
            decode_range(file, d, lo, mid)->Ok_0,
            decode_range(file, d, mid, hi),
        ),
    decreases mid - lo,
{
    let front = decode_range(file, d, lo, mid)->Ok_0;
    if lo < mid {
        lemma_range_join(file, d, lo + 1, mid, hi);
        let first = stored_record(file, d, lo)->Ok_0;
        let inner = decode_range(file, d, lo + 1, mid)->Ok_0;
        assert(front == seq![first] + inner);
        match decode_range(file, d, mid, hi) {
            Ok(rest) => {
                assert(seq![first] + (inner + rest) =~= front + rest);
            },
            Err(_) => {},
        }
    } else {
        match decode_range(file, d, mid, hi) {
            Ok(rest) => {
                assert(front + rest =~= rest);
            },
            Err(_) => {},
        }
    }
}

/// The window that skips `skip` events and takes `take` gives what the
/// window that takes the first `skip + take` events gives, with the first
/// `skip` events dropped, and fails as that window fails. This holds where
/// the larger window lies inside the table and the records before `skip` can
/// be read: the smaller window does not read them, the larger one does.
pub proof fn lemma_window_drops_prefix(file: Seq<u8>, skip: usize, take: usize)
    requires
        skip + take <= usize::MAX,
        event_table(file) is Ok ==> skip + take <= event_table(file)->Ok_0.1.len,
        event_table(file) is Ok ==> decode_range(file, event_table(file)->Ok_0.1, 0, skip as int)
            is Ok,
    ensures
        event_window(file, skip, take) == match event_window(file, 0, (skip + take) as usize) {
            Ok(all) => Ok(all.skip(skip as int)),
            Err(e) => Err(e),
        },
{
    if event_table(file) is Ok {
        let (layout, d) = event_table(file)->Ok_0;
        let end = skip + take;
        if shape_fault(d) is None {
            lemma_range_join(file, d, 0, skip as int, end);
            lemma_range_in_stored_order(file, d, 0, skip as int);
            let front = decode_range(file, d, 0, skip as int)->Ok_0;
            match decode_range(file, d, skip as int, end) {
                Ok(rest) => {
                    assert((front + rest).skip(skip as int) =~= rest);
                    assert(layout_events(layout, front + rest).skip(skip as int)
                        =~= layout_events(layout, rest));
                },
                Err(_) => {},
            }
        }
    }
}

/// For a table with no more records than `get_event` asks for, asking for
/// that many and asking for exactly the table's length give the same.
pub proof fn lemma_all_events(file: Seq<u8>)
    requires
        event_table(file) is Ok,
        event_table(file)->Ok_0.1.len <= ALL_EVENTS,
    ensures
        event_window(file, 0, ALL_EVENTS) == event_window(
            file,
            0,
            event_table(file)->Ok_0.1.len as usize,
        ),
{
}

/// A file that is no container fails every operation with the failure of its
/// superblock, which is an I/O or a format failure; where the signature is
/// missing, it is `BadSignature`.
pub proof fn lemma_no_container(file: Seq<u8>, skip: usize, take: usize)
    requires
        root_header(file) is Err,
    ensures
        event_window(file, skip, take) == Err::<Seq<EventRecord>, Error>(root_header(file)->Err_0),
        read_id(file) == Err::<Seq<char>, Error>(root_header(file)->Err_0),
        root_header(file)->Err_0 is IoError || root_header(file)->Err_0 is FormatError,
        !has_signature(file) ==> root_header(file)->Err_0 == Error::FormatError(
            FormatError::BadSignature,
        ),
{
}

/// Where the old-layout table is not found and the new-layout table cannot
/// be read either, the failure reported is that of the new-layout table.
pub proof fn lemma_both_missing(file: Seq<u8>, root: u64, skip: usize, take: usize)
    requires
        root_header(file) == Ok::<u64, Error>(root),
        old_table(file, root) == Err::<DescriptorView, Error>(Error::NotFound),
        new_table(file, root) is Err,
    ensures
        event_window(file, skip, take) == Err::<Seq<EventRecord>, Error>(
            new_table(file, root)->Err_0,
        ),
{
}

/// The old-layout table is reported as not found only where a link on the
/// way to it is missing: the group of reads, a first read in it, or the table
/// below that read. A table that is there but cannot be read is never taken
/// for a missing one.
pub proof fn lemma_old_table_not_found(file: Seq<u8>, root: u64)
    requires
        old_table(file, root) == Err::<DescriptorView, Error>(Error::NotFound),
    ensures
        ({
            let reads = resolve_path(file, root, OLD_READS.spec_bytes());
            ||| reads == Err::<u64, Error>(Error::NotFound)
            ||| reads is Ok && first_child(file, reads->Ok_0) == Err::<u64, Error>(Error::NotFound)
            ||| reads is Ok && first_child(file, reads->Ok_0) is Ok && child_named(
                file,
                first_child(file, reads->Ok_0)->Ok_0,
                OLD_EVENTS.spec_bytes(),
            ) == Err::<u64, Error>(Error::NotFound)
        }),
{
    let reads = resolve_path(file, root, OLD_READS.spec_bytes());
    if reads is Ok {
        let read = first_child(file, reads->Ok_0);
        if read is Ok {
            let events = child_named(file, read->Ok_0, OLD_EVENTS.spec_bytes());
            if events is Ok {
                lemma_dataset_found(file, events->Ok_0);
            }
        }
    }
}

/// A failure of the old-layout table other than `NotFound` is reported as it
/// is: the new-layout table is not tried.
pub proof fn lemma_old_failure_surfaces(file: Seq<u8>, root: u64, skip: usize, take: usize)
    requires
        root_header(file) == Ok::<u64, Error>(root),
        old_table(file, root) is Err,
        old_table(file, root)->Err_0 != Error::NotFound,
    ensures
        event_window(file, skip, take) == Err::<Seq<EventRecord>, Error>(
            old_table(file, root)->Err_0,
        ),
{
}

} // verus!
