use fast5wrapper::bytes::{
    find_byte, fits, get_u16, get_u32, get_u32_be, get_u64, name_matches,
};
use fast5wrapper::container::Container;
use fast5wrapper::group::{open_child, open_first_child, read_group, resolve};
use fast5wrapper::header::read_header;
use fast5wrapper::inflate::check_inflated;
use fast5wrapper::dataset::{Filter, Storage};
use fast5wrapper::event::{map_new_layout, map_old_layout, EventRecord, RawRecord};
use fast5wrapper::result::{DecodeError, Error, FormatError};
use fast5wrapper::{get_event, get_event_for, get_read_id};

const UNDEFINED: u64 = 0xffff_ffff_ffff_ffff;

/// A file under construction. The first 96 bytes are kept for the superblock.
struct Image {
    bytes: Vec<u8>,
}

impl Image {
    fn new() -> Image {
        Image { bytes: vec![0u8; 96] }
    }

    fn put(&mut self, data: &[u8]) -> u64 {
        while self.bytes.len() % 8 != 0 {
            self.bytes.push(0);
        }
        let at = self.bytes.len() as u64;
        self.bytes.extend_from_slice(data);
        at
    }

    fn finish(mut self, root: u64) -> Vec<u8> {
        let len = self.bytes.len() as u64;
        let mut sb: Vec<u8> = vec![0x89, 0x48, 0x44, 0x46, 0x0d, 0x0a, 0x1a, 0x0a];
        sb.extend_from_slice(&[0, 0, 0, 0, 0, 8, 8, 0]);
        sb.extend_from_slice(&4u16.to_le_bytes());
        sb.extend_from_slice(&16u16.to_le_bytes());
        sb.extend_from_slice(&0u32.to_le_bytes());
        sb.extend_from_slice(&0u64.to_le_bytes());
        sb.extend_from_slice(&UNDEFINED.to_le_bytes());
        sb.extend_from_slice(&len.to_le_bytes());
        sb.extend_from_slice(&UNDEFINED.to_le_bytes());
        sb.extend_from_slice(&0u64.to_le_bytes());
        sb.extend_from_slice(&root.to_le_bytes());
        sb.extend_from_slice(&[0u8; 24]);
        assert_eq!(sb.len(), 96);
        self.bytes[..96].copy_from_slice(&sb);
        self.bytes
    }
}

fn message(kind: u16, flags: u8, data: &[u8]) -> Vec<u8> {
    let padded = (data.len() + 7) / 8 * 8;
    let mut m = Vec::new();
    m.extend_from_slice(&kind.to_le_bytes());
    m.extend_from_slice(&(padded as u16).to_le_bytes());
    m.push(flags);
    m.extend_from_slice(&[0, 0, 0]);
    m.extend_from_slice(data);
    m.resize(8 + padded, 0);
    m
}

fn header_with_count(msgs: &[Vec<u8>], count: u16) -> Vec<u8> {
    let size: usize = msgs.iter().map(|m| m.len()).sum();
    let mut h = vec![1u8, 0];
    h.extend_from_slice(&count.to_le_bytes());
    h.extend_from_slice(&1u32.to_le_bytes());
    h.extend_from_slice(&(size as u32).to_le_bytes());
    h.extend_from_slice(&[0u8; 4]);
    for m in msgs {
        h.extend_from_slice(m);
    }
    h
}

fn header(msgs: &[Vec<u8>]) -> Vec<u8> {
    header_with_count(msgs, msgs.len() as u16)
}

fn symbol_table_message(img: &mut Image, links: &[(&str, u64)]) -> Vec<u8> {
    let mut heap = vec![0u8; 8];
    let mut offsets = Vec::new();
    for (name, _) in links {
        offsets.push(heap.len() as u64);
        heap.extend_from_slice(name.as_bytes());
        heap.push(0);
        while heap.len() % 8 != 0 {
            heap.push(0);
        }
    }
    let data = img.put(&heap);
    let mut h = b"HEAP".to_vec();
    h.extend_from_slice(&[0, 0, 0, 0]);
    h.extend_from_slice(&(heap.len() as u64).to_le_bytes());
    h.extend_from_slice(&UNDEFINED.to_le_bytes());
    h.extend_from_slice(&data.to_le_bytes());
    let heap_addr = img.put(&h);
    let mut node = b"SNOD".to_vec();
    node.extend_from_slice(&[1, 0]);
    node.extend_from_slice(&(links.len() as u16).to_le_bytes());
    for (i, (_, target)) in links.iter().enumerate() {
        node.extend_from_slice(&offsets[i].to_le_bytes());
        node.extend_from_slice(&target.to_le_bytes());
        node.extend_from_slice(&[0u8; 24]);
    }
    let node_addr = img.put(&node);
    let mut tree = b"TREE".to_vec();
    tree.extend_from_slice(&[0, 0]);
    tree.extend_from_slice(&1u16.to_le_bytes());
    tree.extend_from_slice(&UNDEFINED.to_le_bytes());
    tree.extend_from_slice(&UNDEFINED.to_le_bytes());
    tree.extend_from_slice(&0u64.to_le_bytes());
    tree.extend_from_slice(&node_addr.to_le_bytes());
    tree.extend_from_slice(&offsets.last().copied().unwrap_or(0).to_le_bytes());
    let tree_addr = img.put(&tree);
    let mut data = tree_addr.to_le_bytes().to_vec();
    data.extend_from_slice(&heap_addr.to_le_bytes());
    message(0x11, 0, &data)
}

fn group(img: &mut Image, links: &[(&str, u64)]) -> u64 {
    let table = symbol_table_message(img, links);
    img.put(&header(&[table]))
}

fn group_with(img: &mut Image, links: &[(&str, u64)], extra: Vec<Vec<u8>>) -> u64 {
    let mut msgs = vec![symbol_table_message(img, links)];
    msgs.extend(extra);
    img.put(&header(&msgs))
}

/// How a table is written.
#[derive(Clone)]
struct Table {
    rows: Vec<[f32; 4]>,
    declared: Option<u64>,
    chunk_len: Option<u32>,
    deflate: bool,
    filter_id: u16,
    filter_count: u8,
    big_endian: bool,
    classes: Vec<u8>,
    sizes: Vec<u32>,
    offsets: Vec<u32>,
    stride: u32,
    type_version: u8,
    space_version: u8,
    rank: u8,
    layout_version: u8,
    drop_chunk: Option<usize>,
    spoil_chunk: Option<usize>,
    short_chunk: Option<usize>,
    raw_masked_chunk: Option<usize>,
    run_size: Option<u64>,
    run_address: Option<u64>,
    levels: u8,
}

fn table(rows: Vec<[f32; 4]>) -> Table {
    Table {
        rows,
        declared: None,
        chunk_len: None,
        deflate: false,
        filter_id: 1,
        filter_count: 1,
        big_endian: false,
        classes: vec![1, 1, 1, 1],
        sizes: vec![4, 4, 4, 4],
        offsets: vec![0, 4, 8, 12],
        stride: 16,
        type_version: 1,
        space_version: 1,
        rank: 1,
        layout_version: 3,
        drop_chunk: None,
        spoil_chunk: None,
        short_chunk: None,
        raw_masked_chunk: None,
        run_size: None,
        run_address: None,
        levels: 0,
    }
}

fn member_type(class: u8, size: u32, big_endian: bool) -> Vec<u8> {
    let mut t = vec![0x10 | class, if big_endian { 0x21 } else { 0x20 }, 31, 0];
    t.extend_from_slice(&size.to_le_bytes());
    match class {
        0 => {
            t.extend_from_slice(&0u16.to_le_bytes());
            t.extend_from_slice(&((size * 8) as u16).to_le_bytes());
        }
        1 => {
            t.extend_from_slice(&0u16.to_le_bytes());
            t.extend_from_slice(&32u16.to_le_bytes());
            t.extend_from_slice(&[23, 8, 0, 23]);
            t.extend_from_slice(&127u32.to_le_bytes());
        }
        _ => {}
    }
    t
}

fn record_type(t: &Table) -> Vec<u8> {
    let names = ["first", "second", "third", "fourth", "fifth", "sixth"];
    let mut d = vec![(t.type_version << 4) | 6];
    d.extend_from_slice(&(t.classes.len() as u16).to_le_bytes());
    d.push(0);
    d.extend_from_slice(&t.stride.to_le_bytes());
    for i in 0..t.classes.len() {
        let mut name = names[i].as_bytes().to_vec();
        name.push(0);
        while name.len() % 8 != 0 {
            name.push(0);
        }
        d.extend_from_slice(&name);
        d.extend_from_slice(&t.offsets[i].to_le_bytes());
        if t.type_version == 1 {
            d.extend_from_slice(&[0u8; 28]);
        }
        d.extend_from_slice(&member_type(t.classes[i], t.sizes[i], t.big_endian));
    }
    d
}

fn row_bytes(t: &Table, row: &[f32; 4]) -> Vec<u8> {
    let mut out = vec![0u8; t.stride as usize];
    for k in 0..4 {
        if k < t.offsets.len() && (t.offsets[k] as usize) + 4 <= out.len() {
            let b = if t.big_endian { row[k].to_be_bytes() } else { row[k].to_le_bytes() };
            let at = t.offsets[k] as usize;
            out[at..at + 4].copy_from_slice(&b);
        }
    }
    out
}

fn chunk_node(level: u8, entries: &[(u32, u32, u64, u64)]) -> Vec<u8> {
    let mut tree = b"TREE".to_vec();
    tree.extend_from_slice(&[1, level]);
    tree.extend_from_slice(&(entries.len() as u16).to_le_bytes());
    tree.extend_from_slice(&UNDEFINED.to_le_bytes());
    tree.extend_from_slice(&UNDEFINED.to_le_bytes());
    for (size, mask, first, child) in entries {
        tree.extend_from_slice(&size.to_le_bytes());
        tree.extend_from_slice(&mask.to_le_bytes());
        tree.extend_from_slice(&first.to_le_bytes());
        tree.extend_from_slice(&0u64.to_le_bytes());
        tree.extend_from_slice(&child.to_le_bytes());
    }
    tree.extend_from_slice(&[0u8; 24]);
    tree
}

fn dataset(img: &mut Image, t: &Table) -> u64 {
    let n = t.rows.len() as u64;
    let mut space = vec![t.space_version, t.rank, 0, if t.space_version == 2 { 1 } else { 0 }];
    if t.space_version != 2 {
        space.extend_from_slice(&[0u8; 4]);
    }
    space.extend_from_slice(&t.declared.unwrap_or(n).to_le_bytes());
    let mut msgs = vec![message(0x01, 0, &space), message(0x03, 0, &record_type(t))];
    let mut layout = vec![t.layout_version];
    match t.chunk_len {
        None => {
            let mut data = Vec::new();
            for row in &t.rows {
                data.extend_from_slice(&row_bytes(t, row));
            }
            let at = img.put(&data);
            layout.push(1);
            layout.extend_from_slice(&t.run_address.unwrap_or(at).to_le_bytes());
            layout.extend_from_slice(&t.run_size.unwrap_or(data.len() as u64).to_le_bytes());
        }
        Some(chunk_len) => {
            let mut entries = Vec::new();
            let mut first = 0usize;
            let mut number = 0usize;
            while first < t.rows.len() {
                let mut data = Vec::new();
                for k in 0..chunk_len as usize {
                    let row = t.rows.get(first + k).copied().unwrap_or([0.0; 4]);
                    data.extend_from_slice(&row_bytes(t, &row));
                }
                if t.short_chunk == Some(number) {
                    data.truncate(data.len() - 1);
                }
                let mut mask = 0u32;
                let mut stored = data.clone();
                if t.deflate {
                    if t.raw_masked_chunk == Some(number) {
                        mask = 1;
                    } else {
                        stored = miniz_oxide::deflate::compress_to_vec_zlib(&data, 6);
                    }
                }
                if t.spoil_chunk == Some(number) {
                    let at = stored.len() / 2;
                    stored.truncate(at);
                }
                let at = img.put(&stored);
                if t.drop_chunk != Some(number) {
                    entries.push((stored.len() as u32, mask, first as u64, at));
                }
                first += chunk_len as usize;
                number += 1;
            }
            let index = if t.levels == 0 {
                img.put(&chunk_node(0, &entries))
            } else {
                let half = entries.len() / 2;
                let left = img.put(&chunk_node(0, &entries[..half]));
                let right = img.put(&chunk_node(0, &entries[half..]));
                img.put(&chunk_node(1, &[(0, 0, 0, left), (0, 0, 0, right)]))
            };
            layout.push(2);
            layout.push(2);
            layout.extend_from_slice(&index.to_le_bytes());
            layout.extend_from_slice(&chunk_len.to_le_bytes());
            layout.extend_from_slice(&t.stride.to_le_bytes());
        }
    }
    msgs.push(message(0x08, 0, &layout));
    if t.deflate || t.filter_id != 1 || t.filter_count != 1 {
        let mut f = vec![1u8, t.filter_count, 0, 0, 0, 0, 0, 0];
        f.extend_from_slice(&t.filter_id.to_le_bytes());
        f.extend_from_slice(&0u16.to_le_bytes());
        f.extend_from_slice(&0u16.to_le_bytes());
        f.extend_from_slice(&1u16.to_le_bytes());
        f.extend_from_slice(&6u32.to_le_bytes());
        f.extend_from_slice(&0u32.to_le_bytes());
        msgs.push(message(0x0b, 0, &f));
    }
    img.put(&header(&msgs))
}

fn string_attribute(version: u8, name: &str, value: &[u8], class: u8, rank: u8) -> Vec<u8> {
    let pad = |v: &mut Vec<u8>| {
        if version == 1 {
            while v.len() % 8 != 0 {
                v.push(0);
            }
        }
    };
    let mut name_part = name.as_bytes().to_vec();
    name_part.push(0);
    let name_size = name_part.len() as u16;
    pad(&mut name_part);
    let mut type_part = vec![0x10 | class, 0, 0, 0];
    type_part.extend_from_slice(&(value.len() as u32).to_le_bytes());
    if class == 0 {
        type_part.extend_from_slice(&[0, 0, 32, 0]);
    }
    let type_size = type_part.len() as u16;
    pad(&mut type_part);
    let mut space_part = vec![1u8, rank, 0, 0, 0, 0, 0, 0];
    if rank == 1 {
        space_part.extend_from_slice(&1u64.to_le_bytes());
    }
    let space_size = space_part.len() as u16;
    pad(&mut space_part);
    let mut d = vec![version, 0];
    d.extend_from_slice(&name_size.to_le_bytes());
    d.extend_from_slice(&type_size.to_le_bytes());
    d.extend_from_slice(&space_size.to_le_bytes());
    if version == 3 {
        d.push(0);
    }
    d.extend_from_slice(&name_part);
    d.extend_from_slice(&type_part);
    d.extend_from_slice(&space_part);
    d.extend_from_slice(value);
    message(0x0c, 0, &d)
}

/// What a whole file holds.
struct Plan {
    old: Option<Table>,
    new: Option<Table>,
    read_attributes: Option<Vec<Vec<u8>>>,
}

fn build(plan: &Plan) -> Vec<u8> {
    let mut img = Image::new();
    let mut analyses: Vec<(&str, u64)> = Vec::new();
    if let Some(t) = &plan.old {
        let events = dataset(&mut img, t);
        let read = group(&mut img, &[("Events", events)]);
        let reads = group(&mut img, &[("Read_703", read)]);
        let detection = group(&mut img, &[("Reads", reads)]);
        analyses.push(("EventDetection_000", detection));
    }
    if let Some(t) = &plan.new {
        let events = dataset(&mut img, t);
        let template = group(&mut img, &[("Events", events)]);
        let basecall = group(&mut img, &[("BaseCalled_template", template)]);
        analyses.push(("Basecall_1D_000", basecall));
    }
    let analyses_group = group(&mut img, &analyses);
    let mut top: Vec<(&str, u64)> = vec![("Analyses", analyses_group)];
    if let Some(attributes) = &plan.read_attributes {
        let read = group_with(&mut img, &[], attributes.clone());
        let reads = group(&mut img, &[("Read_703", read)]);
        let raw = group(&mut img, &[("Reads", reads)]);
        top.push(("Raw", raw));
    }
    let root = group(&mut img, &top);
    img.finish(root)
}

fn old_file(t: Table) -> Vec<u8> {
    build(&Plan { old: Some(t), new: None, read_attributes: None })
}

fn new_file(t: Table) -> Vec<u8> {
    build(&Plan { old: None, new: Some(t), read_attributes: None })
}

fn id_file(attributes: Vec<Vec<u8>>) -> Vec<u8> {
    build(&Plan { old: None, new: None, read_attributes: Some(attributes) })
}

fn rows(n: usize) -> Vec<[f32; 4]> {
    (0..n)
        .map(|i| {
            let x = i as f32;
            [x * 10.0, x + 0.5, 100.0 + x * 0.25, 1.0 / (x + 1.0)]
        })
        .collect()
}

fn floats(e: &EventRecord) -> [f32; 4] {
    [
        f32::from_bits(e.start),
        f32::from_bits(e.length),
        f32::from_bits(e.mean),
        f32::from_bits(e.stdv),
    ]
}

fn as_floats(events: &[EventRecord]) -> Vec<[f32; 4]> {
    events.iter().map(floats).collect()
}

fn reordered(stored: &[[f32; 4]]) -> Vec<[f32; 4]> {
    stored.iter().map(|r| [r[1], r[3], r[0], r[2]]).collect()
}

const SAMPLE_ID: &str = "e78a1934-a540-42e7-bf36-bd321c86b24c";

fn sample_id_file() -> Vec<u8> {
    let mut value = SAMPLE_ID.as_bytes().to_vec();
    value.push(0);
    id_file(vec![string_attribute(1, "read_id", &value, 3, 0)])
}

#[test]
fn it_works() {}

#[test]
fn test() {
    let res = get_read_id(&sample_id_file()).unwrap();
    assert_eq!(res, "e78a1934-a540-42e7-bf36-bd321c86b24c".to_string());
}

#[test]
fn old_layout_returns_all_records_in_stored_order() {
    let stored = rows(7);
    let file = old_file(table(stored.clone()));
    let events = get_event_for(&file, 0, 7).unwrap();
    assert_eq!(events.len(), 7);
    assert_eq!(as_floats(&events), stored);
    assert_eq!(floats(&events[2]), [20.0, 2.5, 100.5, 1.0 / 3.0]);
}

#[test]
fn new_layout_is_reordered() {
    let stored = rows(5);
    let file = new_file(table(stored.clone()));
    let events = get_event_for(&file, 0, 5).unwrap();
    assert_eq!(as_floats(&events), reordered(&stored));
    let e = &events[1];
    assert_eq!(f32::from_bits(e.mean), 10.0);
    assert_eq!(f32::from_bits(e.start), 1.5);
    assert_eq!(f32::from_bits(e.stdv), 100.25);
    assert_eq!(f32::from_bits(e.length), 0.5);
}

#[test]
fn old_layout_is_preferred_when_both_exist() {
    let old = rows(3);
    let new: Vec<[f32; 4]> = rows(4).into_iter().map(|r| [r[0] + 1000.0, r[1], r[2], r[3]]).collect();
    let file = build(&Plan { old: Some(table(old.clone())), new: Some(table(new)), read_attributes: None });
    assert_eq!(as_floats(&get_event(&file).unwrap()), old);
}

#[test]
fn skip_at_or_past_the_end_is_empty() {
    let file = old_file(table(rows(4)));
    assert_eq!(get_event_for(&file, 4, 3), Ok(vec![]));
    assert_eq!(get_event_for(&file, 5, 1), Ok(vec![]));
    assert_eq!(get_event_for(&file, usize::MAX, usize::MAX), Ok(vec![]));
    let chunked = Table { chunk_len: Some(3), deflate: true, ..table(rows(4)) };
    assert_eq!(get_event_for(&new_file(chunked), 4, 10), Ok(vec![]));
}

#[test]
fn take_is_cut_at_the_end() {
    let stored = rows(6);
    let file = old_file(table(stored.clone()));
    assert_eq!(as_floats(&get_event_for(&file, 4, 10).unwrap()), stored[4..].to_vec());
    assert_eq!(as_floats(&get_event_for(&file, 1, usize::MAX).unwrap()), stored[1..].to_vec());
    assert_eq!(get_event_for(&file, 2, 0), Ok(vec![]));
}

#[test]
fn window_equals_prefix_without_its_head() {
    let stored = rows(11);
    for t in [
        table(stored.clone()),
        Table { chunk_len: Some(4), ..table(stored.clone()) },
        Table { chunk_len: Some(3), deflate: true, ..table(stored.clone()) },
    ] {
        let file = old_file(t);
        for skip in 0..=11usize {
            for take in 0..=(11 - skip) {
                let window = get_event_for(&file, skip, take).unwrap();
                let prefix = get_event_for(&file, 0, skip + take).unwrap();
                assert_eq!(window, prefix[skip..].to_vec());
                assert_eq!(as_floats(&window), stored[skip..skip + take].to_vec());
            }
        }
    }
}

#[test]
fn get_event_is_the_whole_table() {
    let stored = rows(9);
    let file = new_file(Table { chunk_len: Some(2), ..table(stored.clone()) });
    assert_eq!(get_event(&file), get_event_for(&file, 0, 9));
    assert_eq!(as_floats(&get_event(&file).unwrap()), reordered(&stored));
    let empty = old_file(table(vec![]));
    assert_eq!(get_event(&empty), Ok(vec![]));
}

#[test]
fn chunked_tables_are_read_across_chunks() {
    let stored = rows(10);
    let file = old_file(Table { chunk_len: Some(4), ..table(stored.clone()) });
    assert_eq!(as_floats(&get_event(&file).unwrap()), stored);
    assert_eq!(as_floats(&get_event_for(&file, 3, 6).unwrap()), stored[3..9].to_vec());
    let deep = old_file(Table { chunk_len: Some(2), levels: 1, ..table(stored.clone()) });
    assert_eq!(as_floats(&get_event(&deep).unwrap()), stored);
}

#[test]
fn deflated_chunks_are_unpacked() {
    let stored = rows(25);
    let file = old_file(Table { chunk_len: Some(8), deflate: true, ..table(stored.clone()) });
    assert_eq!(as_floats(&get_event(&file).unwrap()), stored);
    assert_eq!(as_floats(&get_event_for(&file, 7, 3).unwrap()), stored[7..10].to_vec());
}

#[test]
fn a_chunk_exempt_from_the_filter_is_read_as_stored() {
    let stored = rows(6);
    let t = Table { chunk_len: Some(3), deflate: true, raw_masked_chunk: Some(1), ..table(stored.clone()) };
    assert_eq!(as_floats(&get_event(&old_file(t)).unwrap()), stored);
}

#[test]
fn chunks_outside_the_window_are_not_touched() {
    let stored = rows(9);
    let spoiled = Table { chunk_len: Some(3), deflate: true, spoil_chunk: Some(0), ..table(stored.clone()) };
    let file = old_file(spoiled);
    assert_eq!(as_floats(&get_event_for(&file, 3, 6).unwrap()), stored[3..].to_vec());
    assert_eq!(get_event_for(&file, 2, 2), Err(Error::DecodeError(DecodeError::CorruptChunk)));
    let dropped = Table { chunk_len: Some(3), drop_chunk: Some(2), ..table(stored.clone()) };
    let file = old_file(dropped);
    assert_eq!(as_floats(&get_event_for(&file, 0, 6).unwrap()), stored[..6].to_vec());
    assert_eq!(get_event_for(&file, 0, 7), Err(Error::DecodeError(DecodeError::MissingChunk)));
}

#[test]
fn big_endian_fields_are_read() {
    let stored = rows(4);
    let file = old_file(Table { big_endian: true, ..table(stored.clone()) });
    assert_eq!(as_floats(&get_event(&file).unwrap()), stored);
}

#[test]
fn fields_are_read_at_their_declared_offsets() {
    let stored = rows(3);
    let t = Table { offsets: vec![12, 20, 4, 28], stride: 32, ..table(stored.clone()) };
    assert_eq!(as_floats(&get_event(&old_file(t)).unwrap()), stored);
    let t = Table { offsets: vec![8, 12, 0, 4], ..table(stored.clone()) };
    assert_eq!(as_floats(&get_event(&new_file(t)).unwrap()), reordered(&stored));
}

#[test]
fn other_versions_of_type_and_extent_are_read() {
    let stored = rows(3);
    let t = Table { type_version: 2, space_version: 2, ..table(stored.clone()) };
    assert_eq!(as_floats(&get_event(&old_file(t)).unwrap()), stored);
}

#[test]
fn not_a_container() {
    let bad = Err(Error::FormatError(FormatError::BadSignature));
    for file in [vec![], vec![0u8; 7], vec![0u8; 4096], b"not a container at all".to_vec()] {
        assert_eq!(get_event(&file), bad);
        assert_eq!(get_event_for(&file, 1, 2), bad);
        assert_eq!(get_read_id(&file), Err(Error::FormatError(FormatError::BadSignature)));
        assert!(Container::open(&file).is_err());
    }
}

#[test]
fn truncated_container_is_an_io_error() {
    let file = old_file(table(rows(4)));
    assert_eq!(get_event(&file[..8]), Err(Error::IoError));
    assert_eq!(get_event(&file[..95]), Err(Error::IoError));
    assert_eq!(get_read_id(&file[..40]), Err(Error::IoError));
    assert_eq!(get_event(&file[..96]), Err(Error::IoError));
    assert_eq!(get_event(&file[..file.len() - 20]), Err(Error::IoError));
}

#[test]
fn unsupported_superblock() {
    let mut file = old_file(table(rows(2)));
    file[8] = 2;
    assert_eq!(get_event(&file), Err(Error::FormatError(FormatError::Unsupported)));
    file[8] = 0;
    file[13] = 4;
    assert_eq!(get_read_id(&file), Err(Error::FormatError(FormatError::Unsupported)));
}

#[test]
fn missing_tables_report_not_found() {
    let file = sample_id_file();
    assert_eq!(get_event(&file), Err(Error::NotFound));
    assert_eq!(get_event_for(&file, 0, 1), Err(Error::NotFound));
}

#[test]
fn failure_of_the_new_table_is_reported_when_the_old_is_missing() {
    let t = Table { classes: vec![1, 1, 1], sizes: vec![4, 4, 4], offsets: vec![0, 4, 8], ..table(rows(2)) };
    assert_eq!(get_event(&new_file(t)), Err(Error::FormatError(FormatError::FieldCount)));
}

#[test]
fn failure_of_the_old_table_is_not_hidden_by_the_new() {
    let broken = Table { sizes: vec![4, 8, 4, 4], ..table(rows(2)) };
    let file = build(&Plan { old: Some(broken), new: Some(table(rows(2))), read_attributes: None });
    assert_eq!(get_event(&file), Err(Error::FormatError(FormatError::FieldWidth)));
}

#[test]
fn record_type_faults() {
    let five = Table {
        classes: vec![1; 5],
        sizes: vec![4; 5],
        offsets: vec![0, 4, 8, 12, 16],
        stride: 20,
        ..table(rows(2))
    };
    assert_eq!(get_event(&old_file(five)), Err(Error::FormatError(FormatError::FieldCount)));
    let wide = Table { sizes: vec![4, 4, 4, 8], stride: 24, ..table(rows(2)) };
    assert_eq!(get_event(&old_file(wide)), Err(Error::FormatError(FormatError::FieldWidth)));
    let integer = Table { classes: vec![0, 1, 1, 1], ..table(rows(2)) };
    assert_eq!(get_event(&old_file(integer)), Err(Error::ParseError));
    let outside = Table { offsets: vec![0, 4, 8, 14], ..table(rows(2)) };
    assert_eq!(get_event(&old_file(outside)), Err(Error::FormatError(FormatError::Malformed)));
    let version = Table { type_version: 3, ..table(rows(2)) };
    assert_eq!(get_event(&old_file(version)), Err(Error::FormatError(FormatError::Unsupported)));
}

#[test]
fn extent_and_layout_faults() {
    let rank = Table { rank: 2, ..table(rows(2)) };
    assert_eq!(get_event(&old_file(rank)), Err(Error::FormatError(FormatError::Unsupported)));
    let layout = Table { layout_version: 4, ..table(rows(2)) };
    assert_eq!(get_event(&old_file(layout)), Err(Error::FormatError(FormatError::Unsupported)));
    let zero = Table { chunk_len: Some(0), ..table(vec![]) };
    assert_eq!(get_event(&old_file(zero)), Err(Error::FormatError(FormatError::Malformed)));
}

#[test]
fn decode_faults() {
    let filter = Table { chunk_len: Some(2), filter_id: 2, ..table(rows(4)) };
    assert_eq!(get_event(&old_file(filter)), Err(Error::DecodeError(DecodeError::UnsupportedFilter)));
    let two = Table { chunk_len: Some(2), deflate: true, filter_count: 2, ..table(rows(4)) };
    assert_eq!(get_event(&old_file(two)), Err(Error::DecodeError(DecodeError::UnsupportedFilter)));
    let short = Table { chunk_len: Some(2), short_chunk: Some(1), ..table(rows(4)) };
    assert_eq!(get_event(&old_file(short)), Err(Error::DecodeError(DecodeError::TruncatedChunk)));
    let short = Table { chunk_len: Some(2), deflate: true, short_chunk: Some(0), ..table(rows(4)) };
    assert_eq!(get_event(&old_file(short)), Err(Error::DecodeError(DecodeError::TruncatedChunk)));
    let spoiled = Table { chunk_len: Some(2), deflate: true, spoil_chunk: Some(1), ..table(rows(4)) };
    assert_eq!(get_event(&old_file(spoiled)), Err(Error::DecodeError(DecodeError::CorruptChunk)));
    let missing = Table { chunk_len: Some(2), drop_chunk: Some(0), ..table(rows(4)) };
    assert_eq!(get_event(&old_file(missing)), Err(Error::DecodeError(DecodeError::MissingChunk)));
}

#[test]
fn contiguous_run_faults() {
    let declared = Table { declared: Some(5), ..table(rows(4)) };
    let file = old_file(declared);
    assert_eq!(get_event_for(&file, 0, 4).map(|v| v.len()), Ok(4));
    assert_eq!(get_event(&file), Err(Error::DecodeError(DecodeError::TruncatedChunk)));
    let beyond = Table { run_address: Some(1 << 40), ..table(rows(4)) };
    assert_eq!(get_event(&old_file(beyond)), Err(Error::IoError));
    let undefined = Table { run_address: Some(UNDEFINED), ..table(rows(4)) };
    assert_eq!(get_event(&old_file(undefined)), Err(Error::IoError));
    let huge = Table { declared: Some(u64::MAX), run_size: Some(u64::MAX), ..table(rows(4)) };
    assert_eq!(get_event_for(&old_file(huge.clone()), 1, 2).map(|v| v.len()), Ok(2));
    assert_eq!(get_event_for(&old_file(huge.clone()), 1 << 30, 2), Err(Error::IoError));
    assert_eq!(
        get_event_for(&old_file(huge.clone()), usize::MAX / 2, 2),
        Err(Error::DecodeError(DecodeError::TruncatedChunk))
    );
    assert_eq!(get_event_for(&old_file(huge), usize::MAX, 2), Ok(vec![]));
}

#[test]
fn an_object_that_is_no_dataset() {
    let mut img = Image::new();
    let inner = group(&mut img, &[]);
    let read = group(&mut img, &[("Events", inner)]);
    let reads = group(&mut img, &[("Read_1", read)]);
    let detection = group(&mut img, &[("Reads", reads)]);
    let analyses = group(&mut img, &[("EventDetection_000", detection)]);
    let root = group(&mut img, &[("Analyses", analyses)]);
    let file = img.finish(root);
    assert_eq!(get_event(&file), Err(Error::FormatError(FormatError::NotADataset)));
}

#[test]
fn read_id_variants() {
    for version in [1u8, 2, 3] {
        let file = id_file(vec![string_attribute(version, "read_id", b"abc-123", 3, 0)]);
        assert_eq!(get_read_id(&file), Ok("abc-123".to_string()));
    }
    let padded = id_file(vec![string_attribute(1, "read_id", b"abc\0\0\0\0\0", 3, 0)]);
    assert_eq!(get_read_id(&padded), Ok("abc".to_string()));
    let several = id_file(vec![
        string_attribute(1, "read_number", b"703", 3, 0),
        string_attribute(1, "read_id_long", b"no", 3, 0),
        string_attribute(1, "read_id", "r\u{e9}ad".as_bytes(), 3, 0),
    ]);
    assert_eq!(get_read_id(&several), Ok("r\u{e9}ad".to_string()));
    let empty = id_file(vec![string_attribute(1, "read_id", b"", 3, 0)]);
    assert_eq!(get_read_id(&empty), Ok(String::new()));
}

#[test]
fn read_id_faults() {
    let none = id_file(vec![string_attribute(1, "read_number", b"703", 3, 0)]);
    assert_eq!(get_read_id(&none), Err(Error::NotFound));
    let no_raw = old_file(table(rows(1)));
    assert_eq!(get_read_id(&no_raw), Err(Error::NotFound));
    let number = id_file(vec![string_attribute(1, "read_id", &[1, 0, 0, 0], 0, 0)]);
    assert_eq!(get_read_id(&number), Err(Error::FormatError(FormatError::NotAString)));
    let list = id_file(vec![string_attribute(1, "read_id", b"abc", 3, 1)]);
    assert_eq!(get_read_id(&list), Err(Error::FormatError(FormatError::Unsupported)));
    let invalid = id_file(vec![string_attribute(1, "read_id", &[0x61, 0xff, 0x62], 3, 0)]);
    assert_eq!(get_read_id(&invalid), Err(Error::FormatError(FormatError::Malformed)));
    let mut img = Image::new();
    let reads = group(&mut img, &[]);
    let raw = group(&mut img, &[("Reads", reads)]);
    let root = group(&mut img, &[("Raw", raw)]);
    assert_eq!(get_read_id(&img.finish(root)), Err(Error::NotFound));
}

#[test]
fn mapping_of_columns() {
    let raw = RawRecord(1, 2, 3, 4);
    assert_eq!(map_old_layout(raw), EventRecord { start: 1, length: 2, mean: 3, stdv: 4 });
    assert_eq!(map_new_layout(raw), EventRecord { start: 2, length: 4, mean: 1, stdv: 3 });
}

#[test]
fn container_resolves_paths() {
    let stored = rows(5);
    let file = new_file(Table { chunk_len: Some(2), deflate: true, ..table(stored.clone()) });
    let c = Container::open(&file).unwrap();
    assert_eq!(c.bytes(), &file[..]);
    assert_eq!(c.root(), u64::from_le_bytes(file[64..72].try_into().unwrap()));
    let d = c.resolve_dataset(b"/Analyses/Basecall_1D_000/BaseCalled_template/Events").unwrap();
    assert_eq!(d.len, 5);
    assert_eq!(d.stride, 16);
    assert_eq!(d.fields.len(), 4);
    assert_eq!(d.filter, Filter::Deflate);
    assert!(matches!(d.storage, Storage::Chunked { chunk_len: 2, .. }));
    let name = &file[d.fields[2].name_start..d.fields[2].name_start + d.fields[2].name_len];
    assert_eq!(name, b"third");
    assert_eq!(d.fields[2].offset, 8);
    let same = c.resolve_dataset(b"Analyses//Basecall_1D_000/BaseCalled_template/Events/").unwrap();
    assert_eq!(same.len, 5);
    let raws = c.decode(&d, 1, 2).unwrap();
    assert_eq!(raws.len(), 2);
    assert_eq!(f32::from_bits(raws[0].0), stored[1][0]);
    assert_eq!(f32::from_bits(raws[1].3), stored[2][3]);
    assert_eq!(c.resolve_dataset(b"/Analyses/Basecall_1D_001").unwrap_err(), Error::NotFound);
    assert_eq!(c.resolve_dataset(b"/Analyses/Basecall").unwrap_err(), Error::NotFound);
    assert_eq!(c.resolve_dataset(b"/Analyses").unwrap_err(), Error::FormatError(FormatError::NotADataset));
    assert_eq!(
        c.resolve_dataset(b"/Analyses/Basecall_1D_000/BaseCalled_template/Events/x").unwrap_err(),
        Error::NotFound
    );
}

#[test]
fn container_resolves_attributes() {
    let file = sample_id_file();
    let c = Container::open(&file).unwrap();
    let a = c.resolve_attribute(b"/Raw/Reads/Read_703", b"read_id").unwrap();
    assert_eq!(&file[a.data_start..a.data_start + 36], SAMPLE_ID.as_bytes());
    assert_eq!(c.resolve_attribute(b"/Raw/Reads/Read_703", b"read").unwrap_err(), Error::NotFound);
    assert_eq!(c.resolve_attribute(b"/Raw/Reads/Read_704", b"read_id").unwrap_err(), Error::NotFound);
}

#[test]
fn messages_in_a_continuation_block_are_found() {
    let mut img = Image::new();
    let mut value = SAMPLE_ID.as_bytes().to_vec();
    value.push(0);
    let block = img.put(&string_attribute(1, "read_id", &value, 3, 0));
    let block_len = string_attribute(1, "read_id", &value, 3, 0).len() as u64;
    let mut link = block.to_le_bytes().to_vec();
    link.extend_from_slice(&block_len.to_le_bytes());
    let table = symbol_table_message(&mut img, &[]);
    let read = img.put(&header_with_count(&[table, message(0x10, 0, &link)], 3));
    let reads = group(&mut img, &[("Read_0", read)]);
    let raw = group(&mut img, &[("Reads", reads)]);
    let root = group(&mut img, &[("Raw", raw)]);
    assert_eq!(get_read_id(&img.finish(root)), Ok(SAMPLE_ID.to_string()));
}

#[test]
fn error_descriptions() {
    assert_eq!(Error::IoError.description(), "IO error: the file ends too early");
    assert_eq!(Error::NotFound.description(), "not found: the path or attribute is absent");
    assert_eq!(Error::ParseError.description(), "parse error: a field is not a single-precision number");
    assert_eq!(
        Error::FormatError(FormatError::BadSignature).description(),
        "format error: not a conforming container"
    );
    assert_eq!(
        Error::DecodeError(DecodeError::TruncatedChunk).description(),
        "decode error: the records cannot be unpacked"
    );
}

#[test]
fn numbers_are_read_in_byte_order() {
    let bytes = [0x01u8, 0x02, 0x03, 0x04, 0x05, 0x06, 0x07, 0x08, 0x09];
    assert_eq!(get_u16(&bytes, 0), 0x0201);
    assert_eq!(get_u16(&bytes, 7), 0x0908);
    assert_eq!(get_u32(&bytes, 1), 0x0504_0302);
    assert_eq!(get_u32_be(&bytes, 1), 0x0203_0405);
    assert_eq!(get_u64(&bytes, 0), 0x0807_0605_0403_0201);
    assert_eq!(get_u64(&[0xff; 8], 0), u64::MAX);
    assert!(fits(&bytes, 0, 9));
    assert!(fits(&bytes, 9, 0));
    assert!(!fits(&bytes, 1, 9));
    assert!(!fits(&bytes, 10, 0));
    assert!(!fits(&bytes, u64::MAX, 2));
    assert!(!fits(&bytes, 2, u64::MAX));
}

#[test]
fn names_end_at_their_zero_byte() {
    let bytes = b"ab\0abc\0x";
    assert_eq!(find_byte(bytes, 0, 0, 10), 2);
    assert_eq!(find_byte(bytes, 0, 3, 10), 6);
    assert_eq!(find_byte(bytes, 0, 7, 8), 8);
    assert_eq!(find_byte(bytes, b'c', 0, 4), 4);
    assert!(name_matches(bytes, 0, 8, b"ab"));
    assert!(name_matches(bytes, 3, 8, b"abc"));
    assert!(name_matches(bytes, 2, 8, b""));
    assert!(!name_matches(bytes, 3, 8, b"ab"));
    assert!(!name_matches(bytes, 0, 8, b"abc"));
    assert!(!name_matches(bytes, 3, 6, b"abc"));
    assert!(!name_matches(bytes, 7, 8, b"x"));
    assert!(!name_matches(bytes, 0, 11, b"ab"));
    assert!(!name_matches(bytes, 0, 8, b"ab\0abc"));
}

#[test]
fn unpacked_chunks_are_checked_for_their_size() {
    assert_eq!(check_inflated(Some(vec![1, 2, 3]), 3), Ok(vec![1, 2, 3]));
    assert_eq!(check_inflated(Some(vec![1, 2, 3]), 2), Ok(vec![1, 2, 3]));
    assert_eq!(check_inflated(Some(vec![]), 0), Ok(vec![]));
    assert_eq!(
        check_inflated(Some(vec![1, 2, 3]), 4),
        Err(Error::DecodeError(DecodeError::TruncatedChunk))
    );
    assert_eq!(check_inflated(None, 0), Err(Error::DecodeError(DecodeError::CorruptChunk)));
}

fn symbol_node(img: &mut Image, heap: &mut Vec<u8>, links: &[(&str, u64)]) -> u64 {
    let mut node = b"SNOD".to_vec();
    node.extend_from_slice(&[1, 0]);
    node.extend_from_slice(&(links.len() as u16).to_le_bytes());
    for (name, target) in links {
        node.extend_from_slice(&(heap.len() as u64).to_le_bytes());
        node.extend_from_slice(&target.to_le_bytes());
        node.extend_from_slice(&[0u8; 24]);
        heap.extend_from_slice(name.as_bytes());
        heap.push(0);
    }
    img.put(&node)
}

fn group_node(img: &mut Image, level: u8, children: &[u64]) -> u64 {
    let mut tree = b"TREE".to_vec();
    tree.extend_from_slice(&[0, level]);
    tree.extend_from_slice(&(children.len() as u16).to_le_bytes());
    tree.extend_from_slice(&UNDEFINED.to_le_bytes());
    tree.extend_from_slice(&UNDEFINED.to_le_bytes());
    for child in children {
        tree.extend_from_slice(&0u64.to_le_bytes());
        tree.extend_from_slice(&child.to_le_bytes());
    }
    tree.extend_from_slice(&0u64.to_le_bytes());
    img.put(&tree)
}

#[test]
fn links_are_listed_in_the_order_of_the_tree() {
    let mut img = Image::new();
    let mut heap = vec![0u8; 8];
    let n1 = symbol_node(&mut img, &mut heap, &[("a", 1000), ("b", 1008)]);
    let n2 = symbol_node(&mut img, &mut heap, &[("c", 1016)]);
    let n3 = symbol_node(&mut img, &mut heap, &[]);
    let n4 = symbol_node(&mut img, &mut heap, &[("d", 1024), ("a", 1032)]);
    let left = group_node(&mut img, 0, &[n1, n2]);
    let right = group_node(&mut img, 0, &[n3, n4]);
    let top = group_node(&mut img, 1, &[left, right]);
    let data = img.put(&heap);
    let mut h = b"HEAP".to_vec();
    h.extend_from_slice(&[0, 0, 0, 0]);
    h.extend_from_slice(&(heap.len() as u64).to_le_bytes());
    h.extend_from_slice(&UNDEFINED.to_le_bytes());
    h.extend_from_slice(&data.to_le_bytes());
    let heap_addr = img.put(&h);
    let mut table = top.to_le_bytes().to_vec();
    table.extend_from_slice(&heap_addr.to_le_bytes());
    let root = img.put(&header(&[message(0x11, 0, &table)]));
    let file = img.finish(root);
    let g = read_group(&file, root).unwrap();
    let targets: Vec<u64> = g.links.iter().map(|l| l.header).collect();
    assert_eq!(targets, vec![1000, 1008, 1016, 1024, 1032]);
    assert_eq!(g.names_start, data);
    assert_eq!(g.names_end, data + heap.len() as u64);
    assert_eq!(open_child(&file, root, b"a"), Ok(1000));
    assert_eq!(open_child(&file, root, b"c"), Ok(1016));
    assert_eq!(open_child(&file, root, b"d"), Ok(1024));
    assert_eq!(open_child(&file, root, b"e"), Err(Error::NotFound));
    assert_eq!(open_child(&file, root, b""), Err(Error::NotFound));
    assert_eq!(open_first_child(&file, root), Ok(1000));
    assert_eq!(resolve(&file, root, b""), Ok(root));
    assert_eq!(resolve(&file, root, b"///"), Ok(root));
    assert_eq!(resolve(&file, root, b"/b/"), Ok(1008));
    assert_eq!(resolve(&file, root, b"b/x"), Err(Error::IoError));
    let mut wrong_level = file.clone();
    wrong_level[left as usize + 5] = 1;
    assert_eq!(open_child(&wrong_level, root, b"a"), Err(Error::FormatError(FormatError::Malformed)));
    let mut wrong_kind = file.clone();
    wrong_kind[right as usize + 4] = 1;
    assert_eq!(read_group(&wrong_kind, root).map(|g| g.links.len()), Err(Error::FormatError(FormatError::Malformed)));
    let mut wrong_node = file.clone();
    wrong_node[n2 as usize] = b'X';
    assert_eq!(open_child(&wrong_node, root, b"a"), Err(Error::FormatError(FormatError::Malformed)));
}

#[test]
fn header_messages_are_counted() {
    let mut img = Image::new();
    let one = message(0x01, 0, &[1, 2, 3]);
    let two = message(0x03, 2, &[4; 8]);
    let at = img.put(&header(&[one.clone(), two.clone()]));
    let fewer = img.put(&header_with_count(&[one.clone(), two.clone()], 1));
    let looping = {
        let here = (img.bytes.len() as u64 + 7) / 8 * 8;
        let mut link = (here + 16).to_le_bytes().to_vec();
        link.extend_from_slice(&24u64.to_le_bytes());
        img.put(&header_with_count(&[message(0x10, 0, &link)], 5))
    };
    let file = img.finish(at);
    let msgs = read_header(&file, at).unwrap();
    assert_eq!(msgs.len(), 2);
    assert_eq!((msgs[0].kind, msgs[0].flags, msgs[0].size), (1, 0, 8));
    assert_eq!((msgs[1].kind, msgs[1].flags, msgs[1].size), (3, 2, 8));
    assert_eq!(msgs[0].start as u64, at + 24);
    assert_eq!(&file[msgs[0].start..msgs[0].start + 3], &[1, 2, 3]);
    assert_eq!(read_header(&file, fewer).unwrap().len(), 1);
    let all = read_header(&file, looping).unwrap();
    assert_eq!(all.len(), 5);
    assert!(all.iter().all(|m| m.kind == 0x10));
    assert_eq!(read_header(&file, file.len() as u64 - 8).map(|v| v.len()), Err(Error::IoError));
    let mut version = file.clone();
    version[at as usize] = 2;
    assert_eq!(read_header(&version, at).map(|v| v.len()), Err(Error::FormatError(FormatError::Unsupported)));
    let mut overrun = file.clone();
    overrun[at as usize + 16 + 2] = 0xff;
    assert_eq!(read_header(&overrun, at).map(|v| v.len()), Err(Error::FormatError(FormatError::Malformed)));
}

fn heap_collection(objects: &[(u16, &[u8])]) -> Vec<u8> {
    let mut body = Vec::new();
    for (index, data) in objects {
        body.extend_from_slice(&index.to_le_bytes());
        body.extend_from_slice(&1u16.to_le_bytes());
        body.extend_from_slice(&0u32.to_le_bytes());
        body.extend_from_slice(&(data.len() as u64).to_le_bytes());
        body.extend_from_slice(data);
        while body.len() % 8 != 0 {
            body.push(0);
        }
    }
    body.extend_from_slice(&[0u8; 8]);
    body.extend_from_slice(&16u64.to_le_bytes());
    body.extend_from_slice(&[0u8; 16]);
    let mut heap = b"GCOL".to_vec();
    heap.extend_from_slice(&[1, 0, 0, 0]);
    heap.extend_from_slice(&(16 + body.len() as u64).to_le_bytes());
    heap.extend_from_slice(&body);
    heap
}

fn variable_attribute(name: &str, len: u32, heap: u64, index: u32, text: bool) -> Vec<u8> {
    let mut name_part = name.as_bytes().to_vec();
    name_part.push(0);
    let name_size = name_part.len() as u16;
    while name_part.len() % 8 != 0 {
        name_part.push(0);
    }
    let mut type_part = vec![0x19, if text { 1 } else { 0 }, 1, 0];
    type_part.extend_from_slice(&16u32.to_le_bytes());
    type_part.extend_from_slice(&[0x13, 0, 0, 0, 1, 0, 0, 0]);
    let space_part = vec![1u8, 0, 0, 0, 0, 0, 0, 0];
    let mut d = vec![1u8, 0];
    d.extend_from_slice(&name_size.to_le_bytes());
    d.extend_from_slice(&(type_part.len() as u16).to_le_bytes());
    d.extend_from_slice(&(space_part.len() as u16).to_le_bytes());
    d.extend_from_slice(&name_part);
    d.extend_from_slice(&type_part);
    d.extend_from_slice(&space_part);
    d.extend_from_slice(&len.to_le_bytes());
    d.extend_from_slice(&heap.to_le_bytes());
    d.extend_from_slice(&index.to_le_bytes());
    message(0x0c, 0, &d)
}

fn variable_id_file(objects: &[(u16, &[u8])], len: u32, index: u32, text: bool) -> Vec<u8> {
    let mut img = Image::new();
    let heap = img.put(&heap_collection(objects));
    let read = group_with(&mut img, &[], vec![variable_attribute("read_id", len, heap, index, text)]);
    let reads = group(&mut img, &[("Read_703", read)]);
    let raw = group(&mut img, &[("Reads", reads)]);
    let root = group(&mut img, &[("Raw", raw)]);
    img.finish(root)
}

#[test]
fn read_id_of_variable_length() {
    let objects: [(u16, &[u8]); 3] = [(1, b"other"), (2, SAMPLE_ID.as_bytes()), (3, b"last one")];
    assert_eq!(get_read_id(&variable_id_file(&objects, 36, 2, true)), Ok(SAMPLE_ID.to_string()));
    assert_eq!(get_read_id(&variable_id_file(&objects, 5, 1, true)), Ok("other".to_string()));
    assert_eq!(get_read_id(&variable_id_file(&objects, 4, 3, true)), Ok("last".to_string()));
    assert_eq!(get_read_id(&variable_id_file(&objects, 0, 0, true)), Ok(String::new()));
}

#[test]
fn read_id_of_variable_length_faults() {
    let objects: [(u16, &[u8]); 2] = [(1, b"other"), (2, b"abc")];
    let malformed = Err(Error::FormatError(FormatError::Malformed));
    assert_eq!(get_read_id(&variable_id_file(&objects, 3, 7, true)), malformed);
    assert_eq!(get_read_id(&variable_id_file(&objects, 4, 2, true)), malformed);
    assert_eq!(
        get_read_id(&variable_id_file(&objects, 3, 2, false)),
        Err(Error::FormatError(FormatError::NotAString))
    );
    let mut file = variable_id_file(&objects, 3, 2, true);
    file[96] = b'X';
    assert_eq!(get_read_id(&file), malformed);
    file[96] = b'G';
    file[100] = 2;
    assert_eq!(get_read_id(&file), Err(Error::FormatError(FormatError::Unsupported)));
    file[100] = 1;
    file[104..112].copy_from_slice(&u64::MAX.to_le_bytes());
    assert_eq!(get_read_id(&file), Err(Error::IoError));
}
