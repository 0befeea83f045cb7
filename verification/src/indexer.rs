//! The indexer: from the byte ranges that the metadata declares, and the
//! page headers decoded from the file, to the tree of regions.

use crate::containment::clear_of;
use crate::containment::ends_within;
use crate::containment::lemma_clear_inserted;
use crate::error::FormatFault;
use crate::error::ParkhayError;
use crate::interval::interval_valid;
use crate::interval::ByteInterval;
use crate::metadata::ColumnChunkLayout;
use crate::metadata::ColumnLayout;
use crate::metadata::RowGroupLayout;
use crate::section::host_from;
use crate::section::lemma_children;
use crate::section::lemma_host_from;
use crate::section::lemma_rank_from;
use crate::section::rank_from;
use crate::section::Entries;
use crate::section::ParkhayDataSection;
use crate::section::SectionIndex;
use crate::section::SectionKind;
use crate::section::SectionView;
use crate::slot::SharedSlot;
use crate::tiling::chunks_tiled;
use crate::tiling::cursor_movement;
use crate::tiling::lemma_chunk_well_formed;
use crate::tiling::lemma_layout_well_formed;
use crate::tiling::lemma_row_group_well_formed;
use crate::tiling::tiles;
use crate::wire::PageHeaderAt;
use crate::wire::PageHeaderValue;
use vstd::prelude::*;
use vstd::slice::slice_subrange;

verus! {

/// The number of payload bytes behind a header that declares the size
/// `compressed_page_size`: none where the size is not positive.
pub open spec fn payload_length(compressed_page_size: int) -> int {
    if compressed_page_size > 0 {
        compressed_page_size
    } else {
        0
    }
}

/// The leaf of the page with the given index and header, whose region takes
/// `length` bytes.
pub open spec fn page_view(index: int, header_length: int, size: int, length: int) -> SectionView {
    SectionView {
        kind: SectionKind::Page {
            index,
            header_length,
            compressed_page_size: size,
            capacity: length as nat,
        },
        children: Seq::empty(),
    }
}

/// Where the read cursor stands behind a page that starts at `cursor` in a
/// chunk that ends before `end`: behind the header and the payload. A header
/// of no bytes is a fault, and so is a page that ends behind the chunk.
pub open spec fn page_next(cursor: int, end: int, header_length: int, size: int) -> Result<
    int,
    FormatFault,
> {
    if header_length <= 0 {
        Err(FormatFault::PageHeader)
    } else if cursor + header_length + payload_length(size) > end {
        Err(FormatFault::Overshoot)
    } else {
        Ok(cursor + header_length + payload_length(size))
    }
}

/// The pages found from `cursor` up to `end`, numbered from `index`, where
/// `pages` are the headers decoded on the way, in their order: each page
/// starts where the one before it ends, covers its header and its payload,
/// and the last ends at `end`. Where the next header is missing, or was
/// decoded from other bytes than those from the cursor up to `end`, no page
/// header was decoded at the cursor.
pub open spec fn page_walk(pages: Seq<PageHeaderAt>, cursor: int, end: int, index: int) -> Result<
    Entries,
    FormatFault,
>
    decreases end - cursor,
{
    if cursor >= end {
        Ok(Seq::empty())
    } else if pages.len() == 0 || pages[0].from != cursor || pages[0].to != end {
        Err(FormatFault::PageHeader)
    } else {
        let header_length = pages[0].header.header_length as int;
        let size = pages[0].header.compressed_page_size as int;
        match page_next(cursor, end, header_length, size) {
            Err(e) => Err(e),
            Ok(next) => match page_walk(pages.drop_first(), next, end, index + 1) {
                Err(e) => Err(e),
                Ok(rest) => Ok(
                    seq![
                        (
                            (cursor as u64, (next - 1) as u64),
                            page_view(index, header_length, size, next - cursor),
                        ),
                    ] + rest,
                ),
            },
        }
    }
}

/// Where a column chunk starts: at its dictionary page if it has one, else
/// at its first data page.
pub open spec fn chunk_start(m: ColumnLayout) -> int {
    match m.dictionary_page_offset {
        Some(o) => o as int,
        None => m.data_page_offset as int,
    }
}

/// The bytes of a column chunk in a file of `file_length` bytes: from its
/// start, as many as its declared size. A negative start and a size that is
/// not positive are faults, and so is a chunk that ends behind the file.
pub open spec fn chunk_bounds(file_length: int, m: ColumnLayout) -> Result<(int, int), FormatFault> {
    let start = chunk_start(m);
    let size = m.total_compressed_size as int;
    if start < 0 || size <= 0 {
        Err(FormatFault::Overflow)
    } else if start + size > file_length {
        Err(FormatFault::Overshoot)
    } else {
        Ok((start, start + size))
    }
}

/// The region of the column chunk that `m` describes, with its key: the
/// bytes from its start over its declared size, and the pages found in them.
pub open spec fn chunk_section(
    file_length: int,
    pages: Seq<PageHeaderAt>,
    index: int,
    m: ColumnLayout,
) -> Result<(ByteInterval, SectionView), FormatFault> {
    match chunk_bounds(file_length, m) {
        Err(e) => Err(e),
        Ok((start, end)) => match page_walk(pages, start, end, 0) {
            Err(e) => Err(e),
            Ok(found) => Ok(
                (
                    (start as u64, (end - 1) as u64),
                    SectionView {
                        kind: SectionKind::ColumnChunk {
                            index,
                            path: m.path_in_schema.deep_view(),
                        },
                        children: found,
                    },
                ),
            ),
        },
    }
}

/// Where a row group starts if its metadata does not say.
pub const ROW_GROUP_MISSING_FILE_OFFSET_DEFAULT: i64 = 4;

/// Where a row group starts: at its declared offset, or at the default.
pub open spec fn row_group_start(rg: RowGroupLayout) -> int {
    match rg.file_offset {
        Some(o) => o as int,
        None => ROW_GROUP_MISSING_FILE_OFFSET_DEFAULT as int,
    }
}

/// The last byte of the range that starts at `offset` and takes `length`
/// bytes is no 64-bit offset.
pub open spec fn index_range_fault(offset: Option<i64>, length: Option<i32>) -> bool {
    &&& offset is Some
    &&& length is Some
    &&& !(i64::MIN <= offset->0 + length->0 - 1 <= i64::MAX)
}

/// A range of a secondary index that the column chunk declares cannot be
/// represented.
pub open spec fn index_ranges_fault(cc: ColumnChunkLayout) -> bool {
    index_range_fault(cc.column_index_offset, cc.column_index_length) || index_range_fault(
        cc.offset_index_offset,
        cc.offset_index_length,
    )
}

/// A row group while its column chunks are placed in it.
pub struct RowGroupSoFar {
    /// The region with the chunks placed so far.
    pub section: SectionView,
    /// The last byte that the row group has reached: its start to begin
    /// with, then the end of the chunk placed last.
    pub end: int,
    /// The number of page headers that the chunks have used.
    pub used: int,
}

/// The row group after its first `n` column chunks have been placed in it.
/// A chunk without column metadata is passed over. A row group that starts
/// behind the file, a chunk that starts before its row group, and a chunk
/// that shares a byte with a chunk placed before it are faults.
pub open spec fn row_group_after(
    file_length: int,
    pages: Seq<PageHeaderAt>,
    index: int,
    rg: RowGroupLayout,
    n: nat,
) -> Result<RowGroupSoFar, FormatFault>
    decreases n,
{
    if n == 0 {
        if row_group_start(rg) < 0 {
            Err(FormatFault::Overflow)
        } else if row_group_start(rg) >= file_length {
            Err(FormatFault::Overshoot)
        } else {
            Ok(
                (RowGroupSoFar {
                    section: SectionView {
                        kind: SectionKind::RowGroup { index },
                        children: Seq::empty(),
                    },
                    end: row_group_start(rg),
                    used: 0,
                }),
            )
        }
    } else {
        match row_group_after(file_length, pages, index, rg, (n - 1) as nat) {
            Err(e) => Err(e),
            Ok(before) => {
                let cc = rg.columns@[n - 1];
                if index_ranges_fault(cc) {
                    Err(FormatFault::Overflow)
                } else {
                    match cc.meta_data {
                        None => Ok(before),
                        Some(m) => match chunk_section(
                            file_length,
                            pages.skip(before.used),
                            n - 1,
                            m,
                        ) {
                            Err(e) => Err(e),
                            Ok((interval, chunk)) => if interval.0 < row_group_start(rg) {
                                Err(FormatFault::Overshoot)
                            } else if !clear_of(before.section.children, interval) {
                                Err(FormatFault::Overlap)
                            } else {
                                Ok(
                                    (RowGroupSoFar {
                                        section: before.section.inserted(interval, chunk),
                                        end: interval.1 as int,
                                        used: before.used + chunk.children.len(),
                                    }),
                                )
                            },
                        },
                    }
                }
            },
        }
    }
}

/// An indexed row group: its key, its region, and the number of page
/// headers that it used.
pub struct RowGroupFound {
    pub key: ByteInterval,
    pub section: SectionView,
    pub used: int,
}

/// The region of a row group with its key: from its start to the end of
/// the column chunk placed last. A chunk that ends behind that byte is a
/// fault.
pub open spec fn row_group_section(
    file_length: int,
    pages: Seq<PageHeaderAt>,
    index: int,
    rg: RowGroupLayout,
) -> Result<RowGroupFound, FormatFault> {
    match row_group_after(file_length, pages, index, rg, rg.columns@.len()) {
        Err(e) => Err(e),
        Ok(all) => if !ends_within(all.section.children, all.end) {
            Err(FormatFault::Overshoot)
        } else {
            Ok(
                (RowGroupFound {
                    key: (row_group_start(rg) as u64, all.end as u64),
                    section: all.section,
                    used: all.used,
                }),
            )
        },
    }
}

/// The root after the first `n` row groups have been placed in it, and the
/// number of page headers that they used. A row group that shares a byte
/// with a row group placed before it is a fault.
pub open spec fn root_after(
    file_length: int,
    pages: Seq<PageHeaderAt>,
    row_groups: Seq<RowGroupLayout>,
    n: nat,
) -> Result<(SectionView, int), FormatFault>
    decreases n,
{
    if n == 0 {
        Ok((SectionView { kind: SectionKind::Root, children: Seq::empty() }, 0))
    } else {
        match root_after(file_length, pages, row_groups, (n - 1) as nat) {
            Err(e) => Err(e),
            Ok((root, used)) => match row_group_section(
                file_length,
                pages.skip(used),
                n - 1,
                row_groups[n - 1],
            ) {
                Err(e) => Err(e),
                Ok(found) => if !clear_of(root.children, found.key) {
                    Err(FormatFault::Overlap)
                } else {
                    Ok((root.inserted(found.key, found.section), used + found.used))
                },
            },
        }
    }
}

/// The layout of a file of `file_length` bytes: the root after every row
/// group that the metadata declares has been placed, with the pages that
/// the headers in `pages` describe.
pub open spec fn layout_of(
    file_length: int,
    pages: Seq<PageHeaderAt>,
    row_groups: Seq<RowGroupLayout>,
) -> Result<SectionView, FormatFault> {
    match root_after(file_length, pages, row_groups, row_groups.len()) {
        Err(e) => Err(e),
        Ok((root, _)) => Ok(root),
    }
}

/// A fault at one column chunk is the fault of the row group.
pub proof fn lemma_row_group_fault(
    file_length: int,
    pages: Seq<PageHeaderAt>,
    index: int,
    rg: RowGroupLayout,
    k: nat,
    n: nat,
)
    requires
        k <= n,
        row_group_after(file_length, pages, index, rg, k) is Err,
    ensures
        row_group_after(file_length, pages, index, rg, n) == row_group_after(
            file_length,
            pages,
            index,
            rg,
            k,
        ),
    decreases n,
{
    if k < n {
        lemma_row_group_fault(file_length, pages, index, rg, k, (n - 1) as nat);
    }
}

/// A fault at one row group is the fault of the layout.
pub proof fn lemma_root_fault(
    file_length: int,
    pages: Seq<PageHeaderAt>,
    row_groups: Seq<RowGroupLayout>,
    k: nat,
    n: nat,
)
    requires
        k <= n,
        root_after(file_length, pages, row_groups, k) is Err,
    ensures
        root_after(file_length, pages, row_groups, n) == root_after(
            file_length,
            pages,
            row_groups,
            k,
        ),
    decreases n,
{
    if k < n {
        lemma_root_fault(file_length, pages, row_groups, k, (n - 1) as nat);
    }
}

/// Whether the last byte of a declared range is no 64-bit offset.
fn range_fault(offset: Option<i64>, length: Option<i32>) -> (r: bool)
    ensures
        r == index_range_fault(offset, length),
{
    match (offset, length) {
        (Some(start), Some(length)) => start.checked_add(length as i64 - 1).is_none(),
        _ => false,
    }
}

/// A copy of a path in the schema.
fn clone_path(path: &Vec<String>) -> (r: Vec<String>)
    ensures
        r.deep_view() == path.deep_view(),
{
    let mut r: Vec<String> = Vec::new();
    let mut k: usize = 0;
    while k < path.len()
        invariant
            0 <= k <= path.len(),
            r@.len() == k,
            forall|j: int| 0 <= j < k ==> r@[j]@ == path@[j]@,
        decreases path.len() - k,
    {
        r.push(path[k].clone());
        k = k + 1;
    }
    assert(r.deep_view() =~= path.deep_view());
    r
}

/// A region that starts behind every region of `c` lands behind them all.
proof fn lemma_insert_behind(t: SectionView, i: ByteInterval, s: SectionView)
    requires
        t.kind.is_container(),
        interval_valid(i),
        forall|k: int| 0 <= k < t.children.len() ==> (#[trigger] t.children[k]).0.1 < i.0,
        forall|k: int| 0 <= k < t.children.len() ==> interval_valid((#[trigger] t.children[k]).0),
    ensures
        t.accepts(i),
        t.inserted(i, s) == (SectionView { kind: t.kind, children: t.children.push((i, s)) }),
{
    let c = t.children;
    lemma_host_from(c, i, 0);
    let h = host_from(c, i, 0);
    if h < c.len() {
        assert(c[h].0.1 < i.0);
    }
    lemma_rank_from(c, i, 0);
    let r = rank_from(c, i, 0);
    if r < c.len() {
        assert(c[r].0.1 < i.0);
        assert(interval_valid(c[r].0));
    }
    assert(c.insert(c.len() as int, (i, s)) =~= c.push((i, s)));
}

/// The bytes of the column chunk that `m` describes, in a file of
/// `file_length` bytes: its first byte, and the byte behind its last.
pub fn chunk_window(file_length: u64, m: &ColumnLayout) -> (r: Result<(u64, u64), ParkhayError>)
    ensures
        match chunk_bounds(file_length as int, *m) {
            Ok((start, end)) => r is Ok && r->Ok_0.0 == start && r->Ok_0.1 == end,
            Err(e) => r is Err && r->Err_0 == ParkhayError::Format(e),
        },
{
    let start: i64 = match m.dictionary_page_offset {
        Some(o) => o,
        None => m.data_page_offset,
    };
    let size: i64 = m.total_compressed_size;
    if start < 0 || size <= 0 {
        return Err(ParkhayError::Format(FormatFault::Overflow));
    }
    let first: u64 = start as u64;
    let length: u64 = size as u64;
    if length > file_length || first > file_length - length {
        return Err(ParkhayError::Format(FormatFault::Overshoot));
    }
    Ok((first, first + length))
}

/// Where the read cursor stands behind the page with the header `header`
/// that starts at `cursor`, in a chunk that ends before `end`.
pub fn page_end(cursor: u64, end: u64, header: &PageHeaderValue) -> (r: Result<u64, ParkhayError>)
    ensures
        match page_next(
            cursor as int,
            end as int,
            header.header_length as int,
            header.compressed_page_size as int,
        ) {
            Ok(next) => r is Ok && r->Ok_0 == next,
            Err(e) => r is Err && r->Err_0 == ParkhayError::Format(e),
        },
{
    if header.header_length == 0 {
        return Err(ParkhayError::Format(FormatFault::PageHeader));
    }
    if cursor > end || header.header_length > end - cursor {
        return Err(ParkhayError::Format(FormatFault::Overshoot));
    }
    let payload: u64 = if header.compressed_page_size > 0 {
        header.compressed_page_size as u64
    } else {
        0
    };
    if payload > end - cursor - header.header_length {
        return Err(ParkhayError::Format(FormatFault::Overshoot));
    }
    Ok(cursor + header.header_length + payload)
}

impl ParkhayDataSection {
    /// Indexes the column chunk that `m` describes, in a file of
    /// `file_length` bytes: takes the page headers from `pages` in their
    /// order, each decoded where the page before it ends, until the
    /// declared size of the chunk is used up, and places each page in the
    /// chunk. Hands out the key of the chunk, the chunk, and the number of
    /// headers used. The pages cover the chunk without gap or overlap.
    pub fn column_chunk(
        file_length: u64,
        pages: &[PageHeaderAt],
        index: SectionIndex,
        m: &ColumnLayout,
    ) -> (r: Result<(ByteInterval, ParkhayDataSection, usize), ParkhayError>)
        ensures
            match chunk_section(file_length as int, pages@, index as int, *m) {
                Ok((i, t)) => r is Ok && r->Ok_0.0 == i && r->Ok_0.1@ == t && r->Ok_0.2
                    == t.children.len(),
                Err(e) => r is Err && r->Err_0 == ParkhayError::Format(e),
            },
            r is Ok ==> {
                let key = r->Ok_0.0;
                let found = r->Ok_0.1@.children;
                &&& r->Ok_0.2 <= pages@.len()
                &&& r->Ok_0.1@.well_formed(key)
                &&& tiles(found, key.0 as int, key.1 + 1)
                &&& cursor_movement(found) == m.total_compressed_size
            },
    {
        proof {
            if chunk_section(file_length as int, pages@, index as int, *m) is Ok {
                lemma_chunk_well_formed(file_length as int, pages@, index as int, *m);
            }
        }
        let (first, end) = match chunk_window(file_length, m) {
            Ok(window) => window,
            Err(e) => {
                return Err(e);
            },
        };
        let mut chunk = ParkhayDataSection::ColumnChunk(
            index,
            Vec::new(),
            clone_path(&m.path_in_schema),
        );
        proof {
            lemma_children(chunk);
        }
        let ghost kind = chunk@.kind;
        let count = pages.len();
        let mut cursor: u64 = first;
        let mut page_idx: SectionIndex = 0;
        let mut k: usize = 0;
        proof {
            assert(pages@.skip(0) =~= pages@);
            let all = page_walk(pages@, first as int, end as int, 0);
            if all is Ok {
                assert(chunk@.children + all->Ok_0 =~= all->Ok_0);
            }
        }
        while cursor < end
            invariant
                first <= cursor <= end,
                first < end,
                count == pages@.len(),
                k <= count,
                k == chunk@.children.len(),
                chunk_bounds(file_length as int, *m) == Ok::<(int, int), FormatFault>(
                    (first as int, end as int),
                ),
                page_idx <= cursor - first,
                chunk@.kind == kind,
                kind.is_container(),
                forall|j: int|
                    0 <= j < chunk@.children.len() ==> (#[trigger] chunk@.children[j]).0.1
                        < cursor,
                forall|j: int|
                    0 <= j < chunk@.children.len() ==> interval_valid(
                        (#[trigger] chunk@.children[j]).0,
                    ),
                page_walk(pages@, first as int, end as int, 0) == match page_walk(
                    pages@.skip(k as int),
                    cursor as int,
                    end as int,
                    page_idx as int,
                ) {
                    Ok(rest) => Ok::<Entries, FormatFault>(chunk@.children + rest),
                    Err(e) => Err(e),
                },
            decreases end - cursor,
        {
            proof {
                if k < count {
                    assert(pages@.skip(k as int)[0] == pages@[k as int]);
                    assert(pages@.skip(k as int).drop_first() =~= pages@.skip(k + 1));
                }
            }
            if k >= count {
                return Err(ParkhayError::Format(FormatFault::PageHeader));
            }
            let entry = &pages[k];
            if entry.from != cursor || entry.to != end {
                return Err(ParkhayError::Format(FormatFault::PageHeader));
            }
            let next: u64 = match page_end(cursor, end, &entry.header) {
                Ok(next) => next,
                Err(e) => {
                    return Err(e);
                },
            };
            let header = PageHeaderValue {
                header_length: entry.header.header_length,
                compressed_page_size: entry.header.compressed_page_size,
                raw: entry.header.raw.clone(),
            };
            let interval: ByteInterval = (cursor, next - 1);
            let page = ParkhayDataSection::Page(page_idx, header, SharedSlot::new(next - cursor));
            proof {
                lemma_insert_behind(chunk@, interval, page@);
                let rest = page_walk(pages@.skip(k + 1), next as int, end as int, page_idx + 1);
                if rest is Ok {
                    assert(chunk@.children + (seq![(interval, page@)] + rest->Ok_0)
                        =~= chunk@.children.push((interval, page@)) + rest->Ok_0);
                }
            }
            chunk.insert(interval, page);
            page_idx = page_idx + 1;
            k = k + 1;
            cursor = next;
        }
        assert(chunk@.children + Seq::<(ByteInterval, SectionView)>::empty() =~= chunk@.children);
        Ok(((first, end - 1), chunk, k))
    }

    /// Indexes one row group: checks the ranges of the secondary indexes
    /// that its column chunks declare, indexes each chunk that carries
    /// column metadata, and places it in the row group. Hands out the key
    /// of the row group, the row group, and the number of headers used. The
    /// tree under the row group keeps the invariants of a layout.
    pub fn row_group(
        file_length: u64,
        pages: &[PageHeaderAt],
        index: SectionIndex,
        rg: &RowGroupLayout,
    ) -> (r: Result<(ByteInterval, ParkhayDataSection, usize), ParkhayError>)
        ensures
            match row_group_section(file_length as int, pages@, index as int, *rg) {
                Ok(found) => r is Ok && r->Ok_0.0 == found.key && r->Ok_0.1@ == found.section
                    && r->Ok_0.2 == found.used,
                Err(e) => r is Err && r->Err_0 == ParkhayError::Format(e),
            },
            r is Ok ==> interval_valid(r->Ok_0.0) && r->Ok_0.0.1 < file_length
                && r->Ok_0.1@.well_formed(r->Ok_0.0) && r->Ok_0.2 <= pages@.len(),
    {
        proof {
            if row_group_section(file_length as int, pages@, index as int, *rg) is Ok {
                lemma_row_group_well_formed(file_length as int, pages@, index as int, *rg);
            }
        }
        let ghost len = file_length as int;
        let start: i64 = match rg.file_offset {
            Some(o) => o,
            None => ROW_GROUP_MISSING_FILE_OFFSET_DEFAULT,
        };
        if start < 0 {
            proof {
                lemma_row_group_fault(len, pages@, index as int, *rg, 0, rg.columns@.len());
            }
            return Err(ParkhayError::Format(FormatFault::Overflow));
        }
        let rg_start: u64 = start as u64;
        if rg_start >= file_length {
            proof {
                lemma_row_group_fault(len, pages@, index as int, *rg, 0, rg.columns@.len());
            }
            return Err(ParkhayError::Format(FormatFault::Overshoot));
        }
        let mut rg_end: u64 = rg_start;
        let mut used: usize = 0;
        let mut section = ParkhayDataSection::RowGroup(index, Vec::new());
        proof {
            lemma_children(section);
        }
        let total = pages.len();
        let count = rg.columns.len();
        let mut cc_idx: usize = 0;
        while cc_idx < count
            invariant
                0 <= cc_idx <= count,
                count == rg.columns@.len(),
                total == pages@.len(),
                used <= total,
                len == file_length,
                rg_start == row_group_start(*rg),
                section@.kind.is_container(),
                row_group_after(len, pages@, index as int, *rg, cc_idx as nat) == Ok::<
                    RowGroupSoFar,
                    FormatFault,
                >(RowGroupSoFar { section: section@, end: rg_end as int, used: used as int }),
            decreases count - cc_idx,
        {
            let cc = &rg.columns[cc_idx];
            if range_fault(cc.column_index_offset, cc.column_index_length) || range_fault(
                cc.offset_index_offset,
                cc.offset_index_length,
            ) {
                proof {
                    lemma_row_group_fault(len, pages@, index as int, *rg, (cc_idx + 1) as nat, count as nat);
                }
                return Err(ParkhayError::Format(FormatFault::Overflow));
            }
            match &cc.meta_data {
                None => {},
                Some(m) => {
                    let rest = slice_subrange(pages, used, total);
                    assert(rest@ == pages@.skip(used as int));
                    let (interval, chunk, more) = match ParkhayDataSection::column_chunk(
                        file_length,
                        rest,
                        cc_idx as SectionIndex,
                        m,
                    ) {
                        Ok(found) => found,
                        Err(e) => {
                            proof {
                                lemma_row_group_fault(
                                    len,
                                    pages@,
                                    index as int,
                                    *rg,
                                    (cc_idx + 1) as nat,
                                    count as nat,
                                );
                            }
                            return Err(e);
                        },
                    };
                    if interval.0 < rg_start {
                        proof {
                            lemma_row_group_fault(
                                len,
                                pages@,
                                index as int,
                                *rg,
                                (cc_idx + 1) as nat,
                                count as nat,
                            );
                        }
                        return Err(ParkhayError::Format(FormatFault::Overshoot));
                    }
                    if !section.is_clear(interval) {
                        proof {
                            lemma_row_group_fault(
                                len,
                                pages@,
                                index as int,
                                *rg,
                                (cc_idx + 1) as nat,
                                count as nat,
                            );
                        }
                        return Err(ParkhayError::Format(FormatFault::Overlap));
                    }
                    proof {
                        lemma_clear_inserted(section@, interval, chunk@);
                    }
                    section.insert(interval, chunk);
                    rg_end = interval.1;
                    used = used + more;
                },
            }
            cc_idx = cc_idx + 1;
        }
        if !section.ends_by(rg_end) {
            return Err(ParkhayError::Format(FormatFault::Overshoot));
        }
        Ok(((rg_start, rg_end), section, used))
    }

    /// Indexes a file of `file_length` bytes: each row group of the
    /// metadata in turn, placed under the root, with the pages that the
    /// headers in `pages` describe, taken in their order. The first fault
    /// ends the walk, and no tree is handed out. The tree keeps the
    /// invariants of a layout: every region lies inside the region above it,
    /// the root's inside the file, and the regions under one region share no
    /// byte and come in the order of the file. Each row group stands in the
    /// root, and the pages of each column chunk cover it without a gap.
    pub fn new(rg_metadata: &[RowGroupLayout], file_length: u64, pages: &[PageHeaderAt]) -> (r:
        Result<ParkhayDataSection, ParkhayError>)
        ensures
            match layout_of(file_length as int, pages@, rg_metadata@) {
                Ok(t) => r is Ok && r->Ok_0@ == t,
                Err(e) => r is Err && r->Err_0 == ParkhayError::Format(e),
            },
            r is Ok ==> {
                let own: ByteInterval = (0, (file_length - 1) as u64);
                &&& r->Ok_0@.well_formed(own)
                &&& r->Ok_0@.ordered()
                &&& r->Ok_0@.children.len() == rg_metadata@.len()
                &&& chunks_tiled(r->Ok_0@, own)
            },
    {
        proof {
            if layout_of(file_length as int, pages@, rg_metadata@) is Ok {
                lemma_layout_well_formed(file_length as int, pages@, rg_metadata@);
            }
        }
        let ghost len = file_length as int;
        let mut root = ParkhayDataSection::Root(Vec::new());
        proof {
            lemma_children(root);
        }
        let total = pages.len();
        let count = rg_metadata.len();
        let mut used: usize = 0;
        let mut rg_idx: usize = 0;
        while rg_idx < count
            invariant
                0 <= rg_idx <= count,
                count == rg_metadata@.len(),
                total == pages@.len(),
                used <= total,
                len == file_length,
                root@.kind.is_container(),
                root_after(len, pages@, rg_metadata@, rg_idx as nat) == Ok::<
                    (SectionView, int),
                    FormatFault,
                >((root@, used as int)),
            decreases count - rg_idx,
        {
            let rest = slice_subrange(pages, used, total);
            assert(rest@ == pages@.skip(used as int));
            let (interval, section, more) = match ParkhayDataSection::row_group(
                file_length,
                rest,
                rg_idx as SectionIndex,
                &rg_metadata[rg_idx],
            ) {
                Ok(found) => found,
                Err(e) => {
                    proof {
                        lemma_root_fault(len, pages@, rg_metadata@, (rg_idx + 1) as nat, count as nat);
                    }
                    return Err(e);
                },
            };
            if !root.is_clear(interval) {
                proof {
                    lemma_root_fault(len, pages@, rg_metadata@, (rg_idx + 1) as nat, count as nat);
                }
                return Err(ParkhayError::Format(FormatFault::Overlap));
            }
            proof {
                lemma_clear_inserted(root@, interval, section@);
            }
            root.insert(interval, section);
            used = used + more;
            rg_idx = rg_idx + 1;
        }
        Ok(root)
    }
}

} // verus!
