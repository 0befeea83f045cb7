use parkhay::error::FormatFault;
use parkhay::error::ParkhayError;
use parkhay::indexer::chunk_window;
use parkhay::indexer::page_end;
use parkhay::indexer::ROW_GROUP_MISSING_FILE_OFFSET_DEFAULT;
use parkhay::interval::before;
use parkhay::interval::contains;
use parkhay::interval::disjoint;
use parkhay::section::ParkhayDataSection;
use parkhay::wire::PageHeaderAt;
use parkhay::wire::PageHeaderValue;
use parkhay::metadata::ColumnChunkLayout;
use parkhay::metadata::ColumnLayout;
use parkhay::metadata::RowGroupLayout;
use parquet::thrift::TSerializable;
use thrift::protocol::TCompactOutputProtocol;

fn decode_page_header(window: &[u8]) -> Option<PageHeaderValue> {
    let mut cursor = std::io::Cursor::new(window);
    let raw = {
        let mut protocol = thrift::protocol::TCompactInputProtocol::new(&mut cursor);
        parquet::format::PageHeader::read_from_in_protocol(&mut protocol).ok()?
    };
    Some(PageHeaderValue {
        header_length: cursor.position(),
        compressed_page_size: raw.compressed_page_size,
        raw: std::sync::Arc::new(raw),
    })
}

/// The page headers of the chunk that `metadata` describes, decoded one
/// behind the other, up to the first that does not decode or fit.
fn scan_chunk(file: &[u8], metadata: &ColumnLayout, pages: &mut Vec<PageHeaderAt>) -> bool {
    let Ok((first, end)) = chunk_window(file.len() as u64, metadata) else {
        return false;
    };
    let mut cursor = first;
    while cursor < end {
        let Some(header) = decode_page_header(&file[cursor as usize..end as usize]) else {
            return false;
        };
        let next = page_end(cursor, end, &header);
        pages.push(PageHeaderAt { from: cursor, to: end, header });
        match next {
            Ok(next) => cursor = next,
            Err(_) => return false,
        }
    }
    true
}

/// The page headers of every chunk that `layout` declares, in its order.
fn scan_pages(file: &[u8], layout: &[RowGroupLayout]) -> Vec<PageHeaderAt> {
    let mut pages = Vec::new();
    for row_group in layout {
        for column in &row_group.columns {
            if let Some(metadata) = &column.meta_data {
                if !scan_chunk(file, metadata, &mut pages) {
                    return pages;
                }
            }
        }
    }
    pages
}

/// Indexes a file as a program does: page headers, then the layout.
fn index(metadata: &[RowGroupLayout], file: &[u8]) -> Result<ParkhayDataSection, ParkhayError> {
    let pages = scan_pages(file, metadata);
    ParkhayDataSection::new(metadata, file.len() as u64, &pages)
}

fn index_chunk(
    file: &[u8],
    at: u64,
    metadata: &ColumnLayout,
) -> Result<((u64, u64), ParkhayDataSection, usize), ParkhayError> {
    let mut pages = Vec::new();
    scan_chunk(file, metadata, &mut pages);
    ParkhayDataSection::column_chunk(file.len() as u64, &pages, at, metadata)
}

fn header_bytes(kind: parquet::format::PageType, compressed_page_size: i32) -> Vec<u8> {
    let header = parquet::format::PageHeader {
        type_: kind,
        uncompressed_page_size: 64,
        compressed_page_size,
        crc: Some(17),
        data_page_header: None,
        index_page_header: None,
        dictionary_page_header: Some(parquet::format::DictionaryPageHeader {
            num_values: 3,
            encoding: parquet::format::Encoding::PLAIN,
            is_sorted: None,
        }),
        data_page_header_v2: None,
    };
    let mut out = Vec::new();
    {
        let mut protocol = TCompactOutputProtocol::new(&mut out);
        header.write_to_out_protocol(&mut protocol).unwrap();
    }
    out
}

fn page(file: &mut Vec<u8>, compressed_page_size: i32, payload: usize) -> usize {
    let header = header_bytes(parquet::format::PageType::DATA_PAGE, compressed_page_size);
    file.extend_from_slice(&header);
    file.extend(std::iter::repeat(0xab).take(payload));
    header.len()
}

fn column(dictionary: Option<i64>, data: i64, size: i64) -> ColumnChunkLayout {
    ColumnChunkLayout {
        column_index_offset: None,
        column_index_length: None,
        offset_index_offset: None,
        offset_index_length: None,
        meta_data: Some(ColumnLayout {
            dictionary_page_offset: dictionary,
            data_page_offset: data,
            total_compressed_size: size,
            path_in_schema: vec!["outer".to_string(), "inner".to_string()],
        }),
    }
}

fn bare_column() -> ColumnChunkLayout {
    ColumnChunkLayout {
        column_index_offset: None,
        column_index_length: None,
        offset_index_offset: None,
        offset_index_length: None,
        meta_data: None,
    }
}

fn row_group(file_offset: Option<i64>, columns: Vec<ColumnChunkLayout>) -> RowGroupLayout {
    RowGroupLayout { file_offset, columns }
}

fn children(section: &ParkhayDataSection) -> &Vec<((u64, u64), ParkhayDataSection)> {
    match section {
        ParkhayDataSection::Root(m) => m,
        ParkhayDataSection::RowGroup(_, m) => m,
        ParkhayDataSection::ColumnChunk(_, m, _) => m,
        _ => panic!("a leaf holds no regions"),
    }
}

fn keys(section: &ParkhayDataSection) -> Vec<(u64, u64)> {
    children(section).iter().map(|entry| entry.0).collect()
}

fn fault(r: Result<ParkhayDataSection, ParkhayError>) -> Option<ParkhayError> {
    r.err()
}

/// Every region lies inside `own`, and the regions under one region share
/// no byte and come with ascending starts.
fn keeps_invariants(section: &ParkhayDataSection, own: (u64, u64)) -> bool {
    let inside = match section {
        ParkhayDataSection::Root(m)
        | ParkhayDataSection::RowGroup(_, m)
        | ParkhayDataSection::ColumnChunk(_, m, _) => m,
        _ => return true,
    };
    let mut last_end: Option<u64> = None;
    for (key, child) in inside {
        if key.0 > key.1 || !contains(own, *key) {
            return false;
        }
        if let Some(end) = last_end {
            if end >= key.0 {
                return false;
            }
        }
        last_end = Some(key.1);
        if !keeps_invariants(child, *key) {
            return false;
        }
    }
    true
}

#[test]
fn pages_follow_each_other_through_the_chunk() {
    let mut file = vec![0u8; 4];
    let h0 = page(&mut file, 6, 6) as u64;
    let h1 = page(&mut file, 0, 0) as u64;
    let h2 = page(&mut file, 3, 3) as u64;
    let size = file.len() as i64 - 4;
    file.extend_from_slice(&[0; 5]);

    let (key, chunk, used) = index_chunk(&file, 7, column(None, 4, size).meta_data.as_ref().unwrap())
    .unwrap();
    assert_eq!(key, (4, 4 + size as u64 - 1));
    assert_eq!(used, 3);
    match &chunk {
        ParkhayDataSection::ColumnChunk(7, _, path) => {
            assert_eq!(path, &vec!["outer".to_string(), "inner".to_string()])
        }
        _ => panic!("expected the column chunk 7"),
    }
    let first = (4, 4 + h0 + 6 - 1);
    let second = (first.1 + 1, first.1 + h1);
    let third = (second.1 + 1, second.1 + h2 + 3);
    assert_eq!(keys(&chunk), vec![first, second, third]);
    assert_eq!(third.1, key.1);
    let moved: u64 = keys(&chunk).iter().map(|k| k.1 - k.0 + 1).sum();
    assert_eq!(moved, size as u64);
    for (k, (key, leaf)) in children(&chunk).iter().enumerate() {
        match leaf {
            ParkhayDataSection::Page(index, header, slot) => {
                assert_eq!(*index, k as u64);
                assert_eq!(slot.length(), key.1 - key.0 + 1);
                assert_eq!(header.raw.crc, Some(17));
                assert_eq!(header.header_length, [h0, h1, h2][k]);
                assert_eq!(header.compressed_page_size, [6, 0, 3][k]);
            }
            _ => panic!("expected a page"),
        }
    }
    assert!(keeps_invariants(&chunk, key));
}

#[test]
fn page_without_payload_ends_with_its_header() {
    let mut file = vec![0u8; 10];
    let h = page(&mut file, 0, 0) as u64;
    let (key, chunk, used) = index_chunk(&file, 0, column(None, 10, h as i64).meta_data.as_ref().unwrap())
    .unwrap();
    assert_eq!(key, (10, 10 + h - 1));
    assert_eq!(used, 1);
    assert_eq!(keys(&chunk), vec![(10, 10 + h - 1)]);
}

#[test]
fn negative_page_size_counts_as_no_payload() {
    let mut file = vec![0u8; 4];
    let h = page(&mut file, -5, 0) as u64;
    let (key, chunk, used) = index_chunk(&file, 0, column(None, 4, h as i64).meta_data.as_ref().unwrap())
    .unwrap();
    assert_eq!(keys(&chunk), vec![key]);
    assert_eq!(used, 1);
    match &children(&chunk)[0].1 {
        ParkhayDataSection::Page(0, header, _) => assert_eq!(header.compressed_page_size, -5),
        _ => panic!("expected the page 0"),
    }
}

#[test]
fn chunk_starts_at_its_dictionary_page() {
    let mut file = vec![0u8; 4];
    let h0 = page(&mut file, 2, 2) as u64;
    let data = file.len() as i64;
    let h1 = page(&mut file, 4, 4) as u64;
    let size = file.len() as i64 - 4;
    let tree = index(&[row_group(Some(4), vec![column(Some(4), data, size)])], &file)
    .unwrap();
    let rg = &children(&tree)[0];
    assert_eq!(rg.0, (4, 4 + size as u64 - 1));
    let cc = &children(&rg.1)[0];
    assert_eq!(cc.0, rg.0);
    assert_eq!(keys(&cc.1), vec![(4, 4 + h0 + 2 - 1), (4 + h0 + 2, 4 + h0 + 2 + h1 + 4 - 1)]);
    assert!(keeps_invariants(&tree, (0, file.len() as u64 - 1)));

    let skipped = index(&[row_group(Some(4), vec![column(None, data, size - (data - 4))])], &file)
    .unwrap();
    let cc = &children(&children(&skipped)[0].1)[0];
    assert_eq!(cc.0, (data as u64, file.len() as u64 - 1));
    assert_eq!(keys(&cc.1), vec![(data as u64, file.len() as u64 - 1)]);
}

#[test]
fn row_groups_and_chunks_are_numbered_by_position() {
    let mut file = vec![0u8; 4];
    let mut starts = vec![];
    for _ in 0..4 {
        starts.push(file.len() as i64);
        page(&mut file, 5, 5);
    }
    let end = file.len() as i64;
    let size = |k: usize| if k == 3 { end - starts[3] } else { starts[k + 1] - starts[k] };
    let metadata = [
        row_group(
            Some(starts[0]),
            vec![column(None, starts[0], size(0)), bare_column(), column(None, starts[1], size(1))],
        ),
        row_group(
            Some(starts[2]),
            vec![column(None, starts[2], size(2)), column(None, starts[3], size(3))],
        ),
    ];
    let tree = index(&metadata, &file).unwrap();
    assert!(keeps_invariants(&tree, (0, file.len() as u64 - 1)));
    assert_eq!(
        keys(&tree),
        vec![(starts[0] as u64, starts[2] as u64 - 1), (starts[2] as u64, end as u64 - 1)]
    );
    let mut seen = vec![];
    for (r, (_, rg)) in children(&tree).iter().enumerate() {
        match rg {
            ParkhayDataSection::RowGroup(index, _) => assert_eq!(*index, r as u64),
            _ => panic!("expected a row group"),
        }
        for (_, cc) in children(rg) {
            match cc {
                ParkhayDataSection::ColumnChunk(index, pages, _) => {
                    seen.push((r, *index));
                    assert_eq!(pages.len(), 1);
                }
                _ => panic!("expected a column chunk"),
            }
        }
    }
    assert_eq!(seen, vec![(0, 0), (0, 2), (1, 0), (1, 1)]);
}

#[test]
fn chunks_out_of_file_order_come_out_in_file_order() {
    let mut file = vec![0u8; 4];
    let a = file.len() as i64;
    page(&mut file, 1, 1);
    let b = file.len() as i64;
    page(&mut file, 2, 2);
    let c = file.len() as i64;
    page(&mut file, 3, 3);
    let end = file.len() as i64;
    let middle_first = [row_group(
        Some(4),
        vec![column(None, b, c - b), column(None, a, b - a), column(None, c, end - c)],
    )];
    let tree = index(&middle_first, &file).unwrap();
    let rg = &children(&tree)[0];
    assert_eq!(rg.0, (4, end as u64 - 1));
    assert_eq!(
        keys(&rg.1),
        vec![(a as u64, b as u64 - 1), (b as u64, c as u64 - 1), (c as u64, end as u64 - 1)]
    );
    let order: Vec<u64> = children(&rg.1)
        .iter()
        .map(|(_, chunk)| match chunk {
            ParkhayDataSection::ColumnChunk(index, _, _) => *index,
            _ => panic!("expected a column chunk"),
        })
        .collect();
    assert_eq!(order, vec![1, 0, 2]);
    assert!(keeps_invariants(&tree, (0, file.len() as u64 - 1)));
}

#[test]
fn chunk_behind_the_end_of_its_row_group_is_an_overshoot() {
    let mut file = vec![0u8; 4];
    let a = file.len() as i64;
    page(&mut file, 1, 1);
    let b = file.len() as i64;
    page(&mut file, 2, 2);
    let end = file.len() as i64;
    let later_first =
        [row_group(Some(4), vec![column(None, b, end - b), column(None, a, b - a)])];
    assert_eq!(
        fault(index(&later_first, &file)),
        Some(ParkhayError::Format(FormatFault::Overshoot))
    );
}

#[test]
fn chunk_before_the_start_of_its_row_group_is_an_overshoot() {
    let mut file = vec![0u8; 4];
    page(&mut file, 1, 1);
    let end = file.len() as i64;
    file.extend_from_slice(&[0; 8]);
    assert_eq!(
        fault(index(&[row_group(Some(5), vec![column(None, 4, end - 4)])], &file)),
        Some(ParkhayError::Format(FormatFault::Overshoot))
    );
    assert!(index(&[row_group(Some(4), vec![column(None, 4, end - 4)])], &file).is_ok());
    assert!(index(&[row_group(Some(0), vec![column(None, 4, end - 4)])], &file).is_ok());
}

#[test]
fn row_group_behind_the_file_is_an_overshoot() {
    let file = vec![0u8; 2];
    let overshoot = Some(ParkhayError::Format(FormatFault::Overshoot));
    assert_eq!(fault(index(&[row_group(Some(100), vec![])], &file)), overshoot);
    assert_eq!(fault(index(&[row_group(Some(2), vec![])], &file)), overshoot);
    assert_eq!(fault(index(&[row_group(None, vec![])], &file)), overshoot);
    assert_eq!(fault(index(&[row_group(Some(0), vec![])], &[])), overshoot);
    let tree = index(&[row_group(Some(1), vec![])], &file).unwrap();
    assert_eq!(keys(&tree), vec![(1, 1)]);
    assert!(keeps_invariants(&tree, (0, 1)));
}

#[test]
fn row_group_without_offset_starts_at_the_default() {
    assert_eq!(ROW_GROUP_MISSING_FILE_OFFSET_DEFAULT, 4);
    let file = vec![0u8; 16];
    let tree = index(&[row_group(None, vec![bare_column()])], &file).unwrap();
    assert_eq!(keys(&tree), vec![(4, 4)]);
    assert_eq!(children(&children(&tree)[0].1).len(), 0);
    let tree = index(&[row_group(Some(9), vec![])], &file).unwrap();
    assert_eq!(keys(&tree), vec![(9, 9)]);
    let empty = index(&[], &file).unwrap();
    assert!(matches!(&empty, ParkhayDataSection::Root(m) if m.is_empty()));
}

#[test]
fn row_groups_that_share_a_byte_are_an_overlap() {
    let mut file = vec![0u8; 4];
    page(&mut file, 1, 1);
    let mid = file.len() as i64;
    page(&mut file, 1, 1);
    let end = file.len() as i64;
    let overlap = Some(ParkhayError::Format(FormatFault::Overlap));
    let same_start = [
        row_group(None, vec![column(None, 4, mid - 4)]),
        row_group(None, vec![column(None, mid, end - mid)]),
    ];
    assert_eq!(fault(index(&same_start, &file)), overlap);
    let same_key = [
        row_group(Some(4), vec![column(None, 4, mid - 4)]),
        row_group(Some(4), vec![column(None, 4, mid - 4)]),
    ];
    assert_eq!(fault(index(&same_key, &file)), overlap);
    let side_by_side = [
        row_group(Some(mid), vec![column(None, mid, end - mid)]),
        row_group(None, vec![column(None, 4, mid - 4)]),
    ];
    let tree = index(&side_by_side, &file).unwrap();
    assert_eq!(keys(&tree), vec![(4, mid as u64 - 1), (mid as u64, end as u64 - 1)]);
    assert!(matches!(children(&tree)[0].1, ParkhayDataSection::RowGroup(1, _)));
    assert!(matches!(children(&tree)[1].1, ParkhayDataSection::RowGroup(0, _)));
    assert!(keeps_invariants(&tree, (0, file.len() as u64 - 1)));
}

#[test]
fn header_that_does_not_decode_is_a_format_error() {
    let file = vec![0xffu8; 32];
    let r = index(&[row_group(Some(4), vec![column(None, 4, 20)])], &file);
    assert_eq!(fault(r), Some(ParkhayError::Format(FormatFault::PageHeader)));
    let mut file = vec![0u8; 4];
    let h = page(&mut file, 3, 3);
    let cut = index(&[row_group(Some(4), vec![column(None, 4, h as i64 - 1)])], &file);
    assert_eq!(fault(cut), Some(ParkhayError::Format(FormatFault::PageHeader)));
}

#[test]
fn page_behind_the_chunk_end_is_an_overshoot() {
    let mut file = vec![0u8; 4];
    let h = page(&mut file, 8, 8) as i64;
    for size in [h, h + 1, h + 7] {
        let r = index(&[row_group(Some(4), vec![column(None, 4, size)])], &file);
        assert_eq!(fault(r), Some(ParkhayError::Format(FormatFault::Overshoot)));
    }
    let exact = index(&[row_group(Some(4), vec![column(None, 4, h + 8)])], &file);
    assert!(exact.is_ok());
    let beyond =
        index(&[row_group(Some(4), vec![column(None, 4, h + 9)])], &file);
    assert_eq!(fault(beyond), Some(ParkhayError::Format(FormatFault::Overshoot)));
    let far = index(&[row_group(Some(4), vec![column(None, i64::MAX, i64::MAX)])], &file);
    assert_eq!(fault(far), Some(ParkhayError::Format(FormatFault::Overshoot)));
}

#[test]
fn offsets_and_sizes_out_of_range_are_an_overflow() {
    let mut file = vec![0u8; 4];
    let h = page(&mut file, 0, 0) as i64;
    let overflow = Some(ParkhayError::Format(FormatFault::Overflow));
    let index = |metadata: &[RowGroupLayout]| fault(index(metadata, &file));
    assert_eq!(index(&[row_group(Some(-1), vec![])]), overflow);
    assert_eq!(index(&[row_group(Some(4), vec![column(None, -4, h)])]), overflow);
    assert_eq!(index(&[row_group(Some(4), vec![column(Some(-4), 4, h)])]), overflow);
    assert_eq!(index(&[row_group(Some(4), vec![column(None, 4, 0)])]), overflow);
    assert_eq!(index(&[row_group(Some(4), vec![column(None, 4, -h)])]), overflow);

    let mut ranged = column(None, 4, h);
    ranged.column_index_offset = Some(i64::MAX);
    ranged.column_index_length = Some(2);
    assert_eq!(index(&[row_group(Some(4), vec![ranged])]), overflow);
    let mut ranged = bare_column();
    ranged.offset_index_offset = Some(i64::MIN);
    ranged.offset_index_length = Some(0);
    assert_eq!(index(&[row_group(Some(4), vec![ranged])]), overflow);

    let mut ranged = column(None, 4, h);
    ranged.column_index_offset = Some(i64::MAX);
    ranged.column_index_length = Some(1);
    ranged.offset_index_offset = Some(i64::MAX);
    ranged.offset_index_length = None;
    assert_eq!(index(&[row_group(Some(4), vec![ranged])]), None);
}

#[test]
fn first_fault_ends_the_walk() {
    let mut file = vec![0u8; 4];
    let h = page(&mut file, 0, 0) as i64;
    let metadata = [
        row_group(Some(4), vec![column(None, 4, h)]),
        row_group(Some(4 + h), vec![column(None, 4, h + 1), column(None, -1, h)]),
        row_group(Some(-1), vec![]),
    ];
    assert_eq!(
        fault(index(&metadata, &file)),
        Some(ParkhayError::Format(FormatFault::Overshoot))
    );
}

#[test]
fn region_inside_another_is_an_overlap() {
    let mut file = vec![0u8; 4];
    let h = page(&mut file, 20, 20) as i64;
    let metadata = [
        row_group(Some(4), vec![column(None, 4, h + 20)]),
        row_group(Some(10), vec![]),
    ];
    assert_eq!(
        fault(index(&metadata, &file)),
        Some(ParkhayError::Format(FormatFault::Overlap))
    );
    let twice = [row_group(Some(4), vec![column(None, 4, h + 20), column(None, 4, h + 20)])];
    assert_eq!(
        fault(index(&twice, &file)),
        Some(ParkhayError::Format(FormatFault::Overlap))
    );
}

#[test]
fn headers_from_other_bytes_are_no_page_headers() {
    let mut file = vec![0u8; 4];
    let h0 = page(&mut file, 2, 2) as u64;
    page(&mut file, 1, 1);
    let end = file.len() as u64;
    let metadata = [row_group(Some(4), vec![column(None, 4, end as i64 - 4)])];
    let no_header = Some(ParkhayError::Format(FormatFault::PageHeader));
    let index_with = |pages: &[PageHeaderAt]| {
        fault(ParkhayDataSection::new(&metadata, file.len() as u64, pages))
    };
    let pages = scan_pages(&file, &metadata);
    assert_eq!(pages.len(), 2);
    assert_eq!((pages[0].from, pages[0].to), (4, end));
    assert_eq!((pages[1].from, pages[1].to), (4 + h0 + 2, end));
    assert_eq!(index_with(&pages), None);
    assert_eq!(index_with(&pages[..1]), no_header);
    assert_eq!(index_with(&pages[1..]), no_header);
    assert_eq!(index_with(&[]), no_header);
    let mut swapped = scan_pages(&file, &metadata);
    swapped.swap(0, 1);
    assert_eq!(index_with(&swapped), no_header);
    let mut moved = scan_pages(&file, &metadata);
    moved[1].to = end - 1;
    assert_eq!(index_with(&moved), no_header);
    let mut empty_header = scan_pages(&file, &metadata);
    empty_header[0].header.header_length = 0;
    assert_eq!(index_with(&empty_header), no_header);
    let mut longer = scan_pages(&file, &metadata);
    longer[1].header.header_length += 1;
    assert_eq!(index_with(&longer), Some(ParkhayError::Format(FormatFault::Overshoot)));
}

#[test]
fn page_end_and_chunk_window_follow_the_declared_sizes() {
    let header = |header_length: u64, compressed_page_size: i32| PageHeaderValue {
        header_length,
        compressed_page_size,
        raw: std::sync::Arc::new(parquet::format::PageHeader {
            type_: parquet::format::PageType::DATA_PAGE,
            uncompressed_page_size: 0,
            compressed_page_size,
            crc: None,
            data_page_header: None,
            index_page_header: None,
            dictionary_page_header: None,
            data_page_header_v2: None,
        }),
    };
    assert_eq!(page_end(10, 40, &header(5, 20)), Ok(35));
    assert_eq!(page_end(10, 35, &header(5, 20)), Ok(35));
    assert_eq!(page_end(10, 40, &header(5, 0)), Ok(15));
    assert_eq!(page_end(10, 40, &header(5, -3)), Ok(15));
    let overshoot = Err(ParkhayError::Format(FormatFault::Overshoot));
    assert_eq!(page_end(10, 34, &header(5, 20)), overshoot);
    assert_eq!(page_end(10, 12, &header(5, 0)), overshoot);
    assert_eq!(page_end(10, 9, &header(1, 0)), overshoot);
    assert_eq!(page_end(u64::MAX - 1, u64::MAX, &header(2, i32::MAX)), overshoot);
    assert_eq!(
        page_end(10, 40, &header(0, 20)),
        Err(ParkhayError::Format(FormatFault::PageHeader))
    );
    let layout = |dictionary, data, size| column(dictionary, data, size).meta_data.unwrap();
    assert_eq!(chunk_window(100, &layout(None, 4, 96)), Ok((4, 100)));
    assert_eq!(chunk_window(100, &layout(Some(20), 4, 10)), Ok((20, 30)));
    assert_eq!(chunk_window(100, &layout(None, 4, 97)), overshoot.map(|_: u64| (0, 0)));
    let overflow = Err(ParkhayError::Format(FormatFault::Overflow));
    assert_eq!(chunk_window(100, &layout(None, 4, 0)), overflow);
    assert_eq!(chunk_window(100, &layout(Some(-1), 4, 10)), overflow);
}

#[test]
fn insert_places_a_region_inside_the_region_that_contains_it() {
    let mut root = ParkhayDataSection::Root(Vec::new());
    root.insert((100, 199), ParkhayDataSection::RowGroup(1, Vec::new()));
    root.insert((0, 99), ParkhayDataSection::RowGroup(0, Vec::new()));
    assert_eq!(keys(&root), vec![(0, 99), (100, 199)]);
    root.insert((150, 199), ParkhayDataSection::ColumnChunk(1, Vec::new(), Vec::new()));
    root.insert((100, 149), ParkhayDataSection::ColumnChunk(0, Vec::new(), Vec::new()));
    root.insert((100, 120), ParkhayDataSection::OffsetIndex(
        9,
        Box::new(parquet::format::OffsetIndex {
            page_locations: vec![],
            unencoded_byte_array_data_bytes: None,
        }),
    ));
    assert_eq!(keys(&root), vec![(0, 99), (100, 199)]);
    assert_eq!(children(&children(&root)[0].1).len(), 0);
    let second = &children(&root)[1].1;
    assert_eq!(keys(second), vec![(100, 149), (150, 199)]);
    assert_eq!(keys(&children(second)[0].1), vec![(100, 120)]);
    assert!(matches!(
        children(&children(second)[0].1)[0].1,
        ParkhayDataSection::OffsetIndex(9, _)
    ));
    assert!(keeps_invariants(&root, (0, 199)));

    assert!(root.is_clear((200, 300)));
    assert!(!root.is_clear((199, 300)));
    assert!(!root.is_clear((50, 60)));
    assert!(second.is_clear((300, 400)));
    assert!(!second.is_clear((149, 150)));
    assert!(root.ends_by(199));
    assert!(!root.ends_by(198));
    assert!(second.ends_by(u64::MAX));
    assert!(children(&root)[0].1.ends_by(0));
    assert!(root.accepts((0, 200)));
    assert!(root.accepts((121, 130)));
    assert!(!root.accepts((100, 120)));
    assert!(!root.accepts((105, 110)));
    assert!(!children(&children(second)[0].1)[0].1.accepts((300, 400)));
}

#[test]
fn insert_beside_regions_that_only_overlap() {
    let mut root = ParkhayDataSection::Root(Vec::new());
    root.insert((10, 20), ParkhayDataSection::RowGroup(0, Vec::new()));
    root.insert((15, 25), ParkhayDataSection::RowGroup(1, Vec::new()));
    root.insert((10, 15), ParkhayDataSection::RowGroup(2, Vec::new()));
    root.insert((5, 30), ParkhayDataSection::RowGroup(3, Vec::new()));
    assert_eq!(keys(&root), vec![(5, 30), (10, 20), (15, 25)]);
    assert_eq!(keys(&children(&root)[1].1), vec![(10, 15)]);
    root.insert((16, 17), ParkhayDataSection::RowGroup(4, Vec::new()));
    assert_eq!(keys(&children(&root)[0].1), vec![(16, 17)]);
    assert_eq!(keys(&children(&root)[1].1), vec![(10, 15)]);
}

#[test]
fn insert_with_a_key_that_is_there_replaces_the_region() {
    let mut root = ParkhayDataSection::Root(Vec::new());
    root.insert((10, 20), ParkhayDataSection::RowGroup(0, Vec::new()));
    root.insert((30, 40), ParkhayDataSection::RowGroup(1, Vec::new()));
    assert_eq!(keys(&root), vec![(10, 20), (30, 40)]);
    let mut flat = ParkhayDataSection::Root(vec![
        ((10, 12), ParkhayDataSection::ColumnIndex(
            0,
            Box::new(parquet::format::ColumnIndex {
                null_pages: vec![],
                min_values: vec![],
                max_values: vec![],
                boundary_order: parquet::format::BoundaryOrder::UNORDERED,
                null_counts: None,
                repetition_level_histograms: None,
                definition_level_histograms: None,
            }),
        )),
    ]);
    assert!(!flat.accepts((10, 12)));
    assert!(flat.accepts((10, 13)));
    flat.insert((10, 13), ParkhayDataSection::RowGroup(5, Vec::new()));
    flat.insert((9, 12), ParkhayDataSection::RowGroup(6, Vec::new()));
    assert_eq!(keys(&flat), vec![(9, 12), (10, 12), (10, 13)]);
}

#[test]
fn interval_relations() {
    assert!(contains((4, 9), (4, 9)));
    assert!(contains((4, 9), (5, 8)));
    assert!(!contains((4, 9), (3, 8)));
    assert!(!contains((4, 9), (5, 10)));
    assert!(!contains((4, 9), (10, 12)));
    assert!(disjoint((4, 9), (10, 12)));
    assert!(disjoint((10, 12), (4, 9)));
    assert!(!disjoint((4, 10), (10, 12)));
    assert!(before((4, 9), (5, 6)));
    assert!(before((4, 9), (4, 10)));
    assert!(!before((4, 9), (4, 9)));
    assert!(!before((5, 6), (4, 9)));
}
