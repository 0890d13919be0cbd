//! Event records and the two on-disk column orders they are read from.
//!
//! Every value of a record is a single-precision IEEE-754 number. This crate
//! carries such a number as the 32 bits of its encoding and never computes
//! with it; `f32::from_bits` turns it into a number.

use vstd::prelude::*;

verus! {

/// One record as stored: the four columns in the order in which the record
/// type declares them, each as the bits of a single-precision number.
#[derive(Clone, Copy, Debug, PartialEq, Eq, Structural)]
pub struct RawRecord(pub u32, pub u32, pub u32, pub u32);

/// One detected event in canonical order: where it starts, how long it
/// lasts, and the mean and the standard deviation of the signal during it,
/// each as the bits of a single-precision number.
#[derive(Clone, Copy, Debug, PartialEq, Eq, Structural)]
pub struct EventRecord {
    pub start: u32,
    pub length: u32,
    pub mean: u32,
    pub stdv: u32,
}

/// The two column orders in which event tables are stored.
#[derive(Clone, Copy, Debug, PartialEq, Eq, Structural)]
pub enum TableLayout {
    /// Columns stored as start, length, mean, stdv.
    Old,
    /// Columns stored as mean, start, stdv, length.
    New,
}

/// The event that a record of an old-layout table stands for.
pub open spec fn old_layout_event(raw: RawRecord) -> EventRecord {
    EventRecord { start: raw.0, length: raw.1, mean: raw.2, stdv: raw.3 }
}

/// The event that a record of a new-layout table stands for.
pub open spec fn new_layout_event(raw: RawRecord) -> EventRecord {
    EventRecord { start: raw.1, length: raw.3, mean: raw.0, stdv: raw.2 }
}

/// The event that a record of a table in the given layout stands for.
pub open spec fn layout_event(layout: TableLayout, raw: RawRecord) -> EventRecord {
    match layout {
        TableLayout::Old => old_layout_event(raw),
        TableLayout::New => new_layout_event(raw),
    }
}

/// The events that the records of a table in the given layout stand for, in
/// the same order.
pub open spec fn layout_events(layout: TableLayout, raws: Seq<RawRecord>) -> Seq<EventRecord> {
    Seq::new(raws.len(), |i: int| layout_event(layout, raws[i]))
}

/// Maps a record stored as (start, length, mean, stdv) to an event.
pub fn map_old_layout(raw: RawRecord) -> (event: EventRecord)
    ensures
        event == old_layout_event(raw),
        event.start == raw.0,
        event.length == raw.1,
        event.mean == raw.2,
        event.stdv == raw.3,
{
    EventRecord { start: raw.0, length: raw.1, mean: raw.2, stdv: raw.3 }
}

/// Maps a record stored as (mean, start, stdv, length) to an event.
pub fn map_new_layout(raw: RawRecord) -> (event: EventRecord)
    ensures
        event == new_layout_event(raw),
        event.mean == raw.0,
        event.start == raw.1,
        event.stdv == raw.2,
        event.length == raw.3,
{
    EventRecord { start: raw.1, length: raw.3, mean: raw.0, stdv: raw.2 }
}

/// Maps every record of a table in the given layout to an event, keeping the
/// order of the records.
pub fn map_records(layout: TableLayout, raws: &Vec<RawRecord>) -> (events: Vec<EventRecord>)
    ensures
        events@ == layout_events(layout, raws@),
{
    let mut events: Vec<EventRecord> = Vec::new();
    let mut i: usize = 0;
    while i < raws.len()
        invariant
            i <= raws@.len(),
            events@ =~= layout_events(layout, raws@.subrange(0, i as int)),
        decreases raws@.len() - i,
    {
        let event: EventRecord = match layout {
            TableLayout::Old => map_old_layout(raws[i]),
            TableLayout::New => map_new_layout(raws[i]),
        };
        events.push(event);
        i = i + 1;
    }
    proof {
        assert(raws@.subrange(0, raws@.len() as int) =~= raws@);
    }
    events
}

} // verus!
