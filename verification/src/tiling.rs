//! What holds of every layout that the indexer hands out.

use crate::containment::apart;
use crate::containment::ends_within;
use crate::containment::lemma_clear_inserted;
use crate::containment::lemma_placed_sound;
use crate::containment::lemma_sound_well_formed;
use crate::containment::lemma_well_formed_ordered;
use crate::containment::sound;
use crate::error::FormatFault;
use crate::indexer::chunk_bounds;
use crate::indexer::chunk_section;
use crate::indexer::layout_of;
use crate::indexer::page_next;
use crate::indexer::page_view;
use crate::indexer::page_walk;
use crate::indexer::payload_length;
use crate::indexer::root_after;
use crate::indexer::row_group_after;
use crate::indexer::row_group_section;
use crate::indexer::row_group_start;
use crate::interval::interval_contains;
use crate::interval::interval_valid;
use crate::interval::ByteInterval;
use crate::metadata::ColumnLayout;
use crate::metadata::RowGroupLayout;
use crate::section::placed;
use crate::section::Entries;
use crate::section::SectionKind;
use crate::section::SectionView;
use crate::wire::PageHeaderAt;
use vstd::prelude::*;

verus! {

/// The number of bytes that the cursor moves over the pages: for each page
/// its header and its payload.
pub open spec fn cursor_movement(pages: Entries) -> int
    decreases pages.len(),
{
    if pages.len() == 0 {
        0
    } else {
        let kind = pages.last().1.kind;
        cursor_movement(pages.drop_last()) + kind->Page_header_length + payload_length(
            kind->Page_compressed_page_size,
        )
    }
}

/// The pages cover the bytes from `from` up to `to` without a gap: the
/// first starts at `from`, each other starts behind the end of the one
/// before it, and the last ends before `to`.
pub open spec fn tiles(pages: Entries, from: int, to: int) -> bool {
    &&& pages.len() == 0 ==> from == to
    &&& pages.len() > 0 ==> pages[0].0.0 == from && pages.last().0.1 == to - 1
    &&& forall|k: int| 0 <= k < pages.len() ==> interval_valid((#[trigger] pages[k]).0)
    &&& forall|k: int|
        0 <= k < pages.len() - 1 ==> (#[trigger] pages[k + 1]).0.0 == pages[k].0.1 + 1
}

/// The entry `k` of `pages` is the page with the index `first + k`; its
/// region takes its header and its payload, and so does its cell.
pub open spec fn is_page(pages: Entries, k: int, first: int) -> bool {
    let key = pages[k].0;
    let page = pages[k].1;
    &&& page.kind is Page
    &&& page.children.len() == 0
    &&& page.kind->Page_index == first + k
    &&& page.kind->Page_header_length >= 1
    &&& key.1 - key.0 + 1 == page.kind->Page_header_length + payload_length(
        page.kind->Page_compressed_page_size,
    )
    &&& page.kind->Page_capacity == key.1 - key.0 + 1
}

/// Under every column chunk of the tree the pages cover the chunk without
/// gap or overlap, numbered in their order, and the cursor moves over as
/// many bytes as the chunk takes.
pub open spec fn chunks_tiled(t: SectionView, own: ByteInterval) -> bool
    decreases t,
{
    if t.kind is ColumnChunk {
        &&& tiles(t.children, own.0 as int, own.1 + 1)
        &&& cursor_movement(t.children) == own.1 - own.0 + 1
        &&& forall|k: int| 0 <= k < t.children.len() ==> #[trigger] is_page(t.children, k, 0)
    } else {
        forall|k: int|
            0 <= k < t.children.len() ==> chunks_tiled(
                (#[trigger] t.children[k]).1,
                t.children[k].0,
            )
    }
}

proof fn lemma_movement_prepend(first: (ByteInterval, SectionView), rest: Entries)
    ensures
        cursor_movement(seq![first] + rest) == first.1.kind->Page_header_length + payload_length(
            first.1.kind->Page_compressed_page_size,
        ) + cursor_movement(rest),
    decreases rest.len(),
{
    let all = seq![first] + rest;
    if rest.len() == 0 {
        assert(all.drop_last() =~= Seq::empty());
        assert(cursor_movement(all.drop_last()) == 0);
    } else {
        assert(all.drop_last() =~= seq![first] + rest.drop_last());
        assert(all.last() == rest.last());
        lemma_movement_prepend(first, rest.drop_last());
    }
}

/// Termination of the page loop: where pages are found from `cursor` up to
/// `end`, the cursor moves over exactly `end - cursor` bytes, the pages
/// cover those bytes without gap or overlap, none reaches `end`, they are
/// numbered in their order, and each uses one header.
pub proof fn lemma_page_walk_tiles(pages: Seq<PageHeaderAt>, cursor: int, end: int, index: int)
    requires
        0 <= cursor <= end <= u64::MAX,
        page_walk(pages, cursor, end, index) is Ok,
    ensures
        ({
            let found = page_walk(pages, cursor, end, index)->Ok_0;
            &&& cursor_movement(found) == end - cursor
            &&& tiles(found, cursor, end)
            &&& apart(found)
            &&& found.len() <= pages.len()
            &&& forall|k: int|
                0 <= k < found.len() ==> cursor <= (#[trigger] found[k]).0.0 && found[k].0.1 < end
            &&& forall|k: int| 0 <= k < found.len() ==> #[trigger] is_page(found, k, index)
        }),
    decreases end - cursor,
{
    let found = page_walk(pages, cursor, end, index)->Ok_0;
    if cursor < end {
        let header_length = pages[0].header.header_length as int;
        let size = pages[0].header.compressed_page_size as int;
        let next = page_next(cursor, end, header_length, size)->Ok_0;
        lemma_page_walk_tiles(pages.drop_first(), next, end, index + 1);
        let rest = page_walk(pages.drop_first(), next, end, index + 1)->Ok_0;
        let first = (
            (cursor as u64, (next - 1) as u64),
            page_view(index, header_length, size, next - cursor),
        );
        assert(found == seq![first] + rest);
        lemma_movement_prepend(first, rest);
        assert forall|k: int| 0 <= k < found.len() implies #[trigger] is_page(found, k, index) by {
            if k > 0 {
                assert(found[k] == rest[k - 1]);
                assert(is_page(rest, k - 1, index + 1));
            }
        }
        assert forall|k: int| 0 <= k < found.len() implies cursor <= (#[trigger] found[k]).0.0
            && found[k].0.1 < end && interval_valid(found[k].0) by {
            if k > 0 {
                assert(found[k] == rest[k - 1]);
            }
        }
        assert forall|a: int, b: int| 0 <= a < b < found.len() implies (#[trigger] found[a].0).1 < (
        #[trigger] found[b].0).0 by {
            assert(found[b] == rest[b - 1]);
            if a > 0 {
                assert(found[a] == rest[a - 1]);
            }
        }
        assert forall|k: int| 0 <= k < found.len() - 1 implies (#[trigger] found[k + 1]).0.0
            == found[k].0.1 + 1 by {
            assert(found[k + 1] == rest[k]);
            if k > 0 {
                assert(found[k] == rest[k - 1]);
                assert(rest[(k - 1) + 1].0.0 == rest[k - 1].0.1 + 1);
            } else {
                assert(rest[0].0.0 == next);
                assert(found[0] == first);
            }
        }
        if rest.len() > 0 {
            assert(found.last() == rest.last());
        }
    }
}

/// Containment under a column chunk: the region of an indexed column chunk
/// is a valid range inside the file, its pages cover it without gap or
/// overlap, and the cursor moves over exactly its declared size.
pub proof fn lemma_chunk_well_formed(
    file_length: int,
    pages: Seq<PageHeaderAt>,
    index: int,
    m: ColumnLayout,
)
    requires
        chunk_section(file_length, pages, index, m) is Ok,
        file_length <= u64::MAX,
    ensures
        ({
            let key = chunk_section(file_length, pages, index, m)->Ok_0.0;
            let chunk = chunk_section(file_length, pages, index, m)->Ok_0.1;
            &&& interval_valid(key)
            &&& key.0 == chunk_bounds(file_length, m)->Ok_0.0
            &&& key.1 < file_length
            &&& key.1 - key.0 + 1 == m.total_compressed_size
            &&& chunk.kind == (SectionKind::ColumnChunk { index, path: m.path_in_schema.deep_view() })
            &&& chunk.children.len() <= pages.len()
            &&& chunk.well_formed(key)
            &&& chunks_tiled(chunk, key)
            &&& tiles(chunk.children, key.0 as int, key.1 + 1)
            &&& cursor_movement(chunk.children) == m.total_compressed_size
            &&& forall|k: int|
                0 <= k < chunk.children.len() ==> #[trigger] is_page(chunk.children, k, 0)
        }),
{
    let bounds = chunk_bounds(file_length, m)->Ok_0;
    lemma_page_walk_tiles(pages, bounds.0, bounds.1, 0);
    let key = chunk_section(file_length, pages, index, m)->Ok_0.0;
    let chunk = chunk_section(file_length, pages, index, m)->Ok_0.1;
    assert forall|k: int| 0 <= k < chunk.children.len() implies {
        &&& interval_valid((#[trigger] chunk.children[k]).0)
        &&& interval_contains(key, chunk.children[k].0)
        &&& chunk.children[k].1.well_formed(chunk.children[k].0)
    } by {
        assert(is_page(chunk.children, k, 0));
    }
}

/// Placing a region that is tiled among regions that are tiled leaves
/// regions that are tiled.
proof fn lemma_inserted_tiled(c: Entries, r: int, i: ByteInterval, s: SectionView)
    requires
        0 <= r <= c.len(),
        forall|k: int| 0 <= k < c.len() ==> chunks_tiled((#[trigger] c[k]).1, c[k].0),
        chunks_tiled(s, i),
    ensures
        forall|k: int|
            0 <= k < c.insert(r, (i, s)).len() ==> chunks_tiled(
                (#[trigger] c.insert(r, (i, s))[k]).1,
                c.insert(r, (i, s))[k].0,
            ),
{
    let p = c.insert(r, (i, s));
    assert forall|k: int| 0 <= k < p.len() implies chunks_tiled((#[trigger] p[k]).1, p[k].0) by {
        if k < r {
            assert(p[k] == c[k]);
        } else if k > r {
            assert(p[k] == c[k - 1]);
        }
    }
}

/// The row group after its first `n` column chunks: its chunks are sound
/// between the start of the row group and the end of the file, and it has
/// reached a byte inside the file.
proof fn lemma_row_group_prefix(
    file_length: int,
    pages: Seq<PageHeaderAt>,
    index: int,
    rg: RowGroupLayout,
    n: nat,
)
    requires
        n <= rg.columns@.len(),
        file_length <= u64::MAX,
        row_group_after(file_length, pages, index, rg, n) is Ok,
    ensures
        ({
            let so_far = row_group_after(file_length, pages, index, rg, n)->Ok_0;
            &&& so_far.section.kind == SectionKind::RowGroup { index }
            &&& sound(so_far.section.children, row_group_start(rg), file_length)
            &&& 0 <= row_group_start(rg) <= so_far.end < file_length
            &&& 0 <= so_far.used <= pages.len()
            &&& forall|k: int|
                0 <= k < so_far.section.children.len() ==> chunks_tiled(
                    (#[trigger] so_far.section.children[k]).1,
                    so_far.section.children[k].0,
                )
        }),
    decreases n,
{
    if n > 0 {
        lemma_row_group_prefix(file_length, pages, index, rg, (n - 1) as nat);
        let before = row_group_after(file_length, pages, index, rg, (n - 1) as nat)->Ok_0;
        match rg.columns@[n - 1].meta_data {
            None => {},
            Some(m) => {
                let rest = pages.skip(before.used);
                let found = chunk_section(file_length, rest, n - 1, m)->Ok_0;
                lemma_chunk_well_formed(file_length, rest, n - 1, m);
                lemma_clear_inserted(before.section, found.0, found.1);
                lemma_placed_sound(
                    before.section.children,
                    row_group_start(rg),
                    file_length,
                    found.0,
                    found.1,
                );
                let r = choose|r: int|
                    0 <= r <= before.section.children.len() && placed(
                        before.section.children,
                        found.0,
                        found.1,
                    ) == before.section.children.insert(r, found);
                lemma_inserted_tiled(before.section.children, r, found.0, found.1);
            },
        }
    }
}

/// Containment under a row group: the key of an indexed row group is a
/// valid range inside the file, and the tree under it keeps the invariants
/// of a layout.
pub proof fn lemma_row_group_well_formed(
    file_length: int,
    pages: Seq<PageHeaderAt>,
    index: int,
    rg: RowGroupLayout,
)
    requires
        file_length <= u64::MAX,
        row_group_section(file_length, pages, index, rg) is Ok,
    ensures
        ({
            let found = row_group_section(file_length, pages, index, rg)->Ok_0;
            &&& interval_valid(found.key)
            &&& found.key.0 == row_group_start(rg)
            &&& found.key.1 < file_length
            &&& 0 <= found.used <= pages.len()
            &&& found.section.kind == SectionKind::RowGroup { index }
            &&& found.section.well_formed(found.key)
            &&& chunks_tiled(found.section, found.key)
        }),
{
    lemma_row_group_prefix(file_length, pages, index, rg, rg.columns@.len());
    let found = row_group_section(file_length, pages, index, rg)->Ok_0;
    lemma_sound_well_formed(found.section, found.key, file_length);
}

/// The root after its first `n` row groups: they are sound inside the file,
/// and each of them stands in the root under its own key.
proof fn lemma_root_prefix(
    file_length: int,
    pages: Seq<PageHeaderAt>,
    row_groups: Seq<RowGroupLayout>,
    n: nat,
)
    requires
        n <= row_groups.len(),
        file_length <= u64::MAX,
        root_after(file_length, pages, row_groups, n) is Ok,
    ensures
        ({
            let root = root_after(file_length, pages, row_groups, n)->Ok_0.0;
            let used = root_after(file_length, pages, row_groups, n)->Ok_0.1;
            &&& root.kind == SectionKind::Root
            &&& sound(root.children, 0, file_length)
            &&& 0 <= used <= pages.len()
            &&& root.children.len() == n
            &&& forall|k: int|
                0 <= k < root.children.len() ==> chunks_tiled(
                    (#[trigger] root.children[k]).1,
                    root.children[k].0,
                )
        }),
    decreases n,
{
    if n > 0 {
        lemma_root_prefix(file_length, pages, row_groups, (n - 1) as nat);
        let before = root_after(file_length, pages, row_groups, (n - 1) as nat)->Ok_0;
        let rest = pages.skip(before.1);
        let found = row_group_section(file_length, rest, n - 1, row_groups[n - 1])->Ok_0;
        lemma_row_group_well_formed(file_length, rest, n - 1, row_groups[n - 1]);
        lemma_clear_inserted(before.0, found.key, found.section);
        lemma_placed_sound(before.0.children, 0, file_length, found.key, found.section);
        let r = choose|r: int|
            0 <= r <= before.0.children.len() && placed(
                before.0.children,
                found.key,
                found.section,
            ) == before.0.children.insert(r, (found.key, found.section));
        lemma_inserted_tiled(before.0.children, r, found.key, found.section);
    }
}

/// Containment and physical order: every layout that the indexer hands out
/// keeps the invariants. Every region is a valid range inside the region
/// above it, the root's inside the file; the regions under one region share
/// no byte and come with strictly increasing `start`; each row group of the
/// metadata stands in the root; and under every column chunk the pages
/// cover the chunk without gap or overlap.
pub proof fn lemma_layout_well_formed(
    file_length: int,
    pages: Seq<PageHeaderAt>,
    row_groups: Seq<RowGroupLayout>,
)
    requires
        file_length <= u64::MAX,
        layout_of(file_length, pages, row_groups) is Ok,
    ensures
        ({
            let root = layout_of(file_length, pages, row_groups)->Ok_0;
            let own: ByteInterval = (0, (file_length - 1) as u64);
            &&& root.kind == SectionKind::Root
            &&& root.well_formed(own)
            &&& root.ordered()
            &&& root.children.len() == row_groups.len()
            &&& chunks_tiled(root, own)
            &&& forall|a: int, b: int|
                0 <= a < b < root.children.len() ==> (#[trigger] root.children[a].0).0 < (
                #[trigger] root.children[b].0).0
        }),
{
    lemma_root_prefix(file_length, pages, row_groups, row_groups.len());
    let root = layout_of(file_length, pages, row_groups)->Ok_0;
    let own: ByteInterval = (0, (file_length - 1) as u64);
    assert(ends_within(root.children, own.1 as int)) by {
        assert forall|k: int| 0 <= k < root.children.len() implies (#[trigger] root.children[k]).0.1
            <= own.1 by {
            assert(root.children[k].0.1 < file_length);
        }
    }
    lemma_sound_well_formed(root, own, file_length);
    lemma_well_formed_ordered(root, own);
}

/// A fault that the indexer can end in: an offset or size out of range, a
/// page header that was not decoded at the cursor, a region that ends
/// behind the region that holds it, or two regions that share a byte.
pub open spec fn is_layout_fault(e: FormatFault) -> bool {
    e is Overflow || e is PageHeader || e is Overshoot || e is Overlap
}

proof fn lemma_page_walk_faults(pages: Seq<PageHeaderAt>, cursor: int, end: int, index: int)
    requires
        page_walk(pages, cursor, end, index) is Err,
    ensures
        is_layout_fault(page_walk(pages, cursor, end, index)->Err_0),
    decreases end - cursor,
{
    if cursor < end && pages.len() > 0 && pages[0].from == cursor && pages[0].to == end {
        let next = page_next(
            cursor,
            end,
            pages[0].header.header_length as int,
            pages[0].header.compressed_page_size as int,
        );
        if next is Ok {
            lemma_page_walk_faults(pages.drop_first(), next->Ok_0, end, index + 1);
        }
    }
}

proof fn lemma_row_group_faults(
    file_length: int,
    pages: Seq<PageHeaderAt>,
    index: int,
    rg: RowGroupLayout,
    n: nat,
)
    requires
        row_group_after(file_length, pages, index, rg, n) is Err,
    ensures
        is_layout_fault(row_group_after(file_length, pages, index, rg, n)->Err_0),
    decreases n,
{
    if n > 0 {
        let before = row_group_after(file_length, pages, index, rg, (n - 1) as nat);
        if before is Err {
            lemma_row_group_faults(file_length, pages, index, rg, (n - 1) as nat);
        } else {
            match rg.columns@[n - 1].meta_data {
                None => {},
                Some(m) => {
                    let bounds = chunk_bounds(file_length, m);
                    if bounds is Ok {
                        let rest = pages.skip(before->Ok_0.used);
                        let window = bounds->Ok_0;
                        if page_walk(rest, window.0, window.1, 0) is Err {
                            lemma_page_walk_faults(rest, window.0, window.1, 0);
                        }
                    }
                },
            }
        }
    }
}

proof fn lemma_root_faults(
    file_length: int,
    pages: Seq<PageHeaderAt>,
    row_groups: Seq<RowGroupLayout>,
    n: nat,
)
    requires
        root_after(file_length, pages, row_groups, n) is Err,
    ensures
        is_layout_fault(root_after(file_length, pages, row_groups, n)->Err_0),
    decreases n,
{
    if n > 0 {
        let before = root_after(file_length, pages, row_groups, (n - 1) as nat);
        if before is Err {
            lemma_root_faults(file_length, pages, row_groups, (n - 1) as nat);
        } else {
            let rg = row_groups[n - 1];
            let rest = pages.skip(before->Ok_0.1);
            if row_group_after(file_length, rest, n - 1, rg, rg.columns@.len()) is Err {
                lemma_row_group_faults(file_length, rest, n - 1, rg, rg.columns@.len());
            }
        }
    }
}

/// The faults of the indexer: where a file has no layout, the fault is one
/// of the four that the walk over the row groups can meet.
pub proof fn lemma_layout_faults(
    file_length: int,
    pages: Seq<PageHeaderAt>,
    row_groups: Seq<RowGroupLayout>,
)
    requires
        layout_of(file_length, pages, row_groups) is Err,
    ensures
        is_layout_fault(layout_of(file_length, pages, row_groups)->Err_0),
{
    lemma_root_faults(file_length, pages, row_groups, row_groups.len());
}

} // verus!
