//! The layout of a file: a tree of typed regions, each keyed by the bytes it
//! covers, and the rule that places a new region in it.

use crate::interval::interval_before;
use crate::interval::interval_contains;
use crate::interval::ByteInterval;
use crate::containment::clear_of;
use crate::containment::ends_within;
use crate::containment::lemma_insert_ordered;
use crate::interval::before;
use crate::interval::disjoint;
use crate::interval::contains;
use crate::slot::SharedSlot;
use crate::wire::PageHeaderValue;
use vstd::prelude::*;

verus! {

/// The position of a region among the regions of its kind.
pub type SectionIndex = u64;

/// The regions directly inside one region, in the order of their keys.
pub type SectionMap = Vec<(ByteInterval, ParkhayDataSection)>;

/// A region of the file.
pub enum ParkhayDataSection {
    /// The part of one row group that holds one column: pages, and the
    /// path of the column in the schema.
    ColumnChunk(SectionIndex, SectionMap, Vec<String>),
    /// One page: its header, and the cell for its bytes.
    Page(SectionIndex, PageHeaderValue, SharedSlot),
    /// The whole file: row groups.
    Root(SectionMap),
    /// One row group: column chunks.
    RowGroup(SectionIndex, SectionMap),
    /// The decoded page locations of one column chunk.
    OffsetIndex(SectionIndex, Box<parquet::format::OffsetIndex>),
    /// The decoded page statistics of one column chunk.
    ColumnIndex(SectionIndex, Box<parquet::format::ColumnIndex>),
    /// One filter: its header, and the cell for its bits.
    BloomFilter(SectionIndex, Box<parquet::format::BloomFilterHeader>, SharedSlot),
}

/// What kind of region a node of the tree is, with the plain values it holds.
pub enum SectionKind {
    Root,
    RowGroup { index: int },
    ColumnChunk { index: int, path: Seq<Seq<char>> },
    /// `header_length` bytes of header, then a payload of
    /// `compressed_page_size` bytes where that is positive; the cell of the
    /// page takes `capacity` bytes.
    Page { index: int, header_length: int, compressed_page_size: int, capacity: nat },
    OffsetIndex { index: int },
    ColumnIndex { index: int },
    /// The cell of the filter takes `capacity` bytes.
    BloomFilter { index: int, capacity: nat },
}

/// The regions directly inside one region, as a sequence of keys and nodes.
pub type Entries = Seq<(ByteInterval, SectionView)>;

/// A node of the tree as a mathematical value.
pub struct SectionView {
    pub kind: SectionKind,
    pub children: Entries,
}

impl SectionKind {
    /// Roots, row groups and column chunks hold regions; the others are leaves.
    pub open spec fn is_container(self) -> bool {
        self is Root || self is RowGroup || self is ColumnChunk
    }
}

impl View for ParkhayDataSection {
    type V = SectionView;

    open spec fn view(&self) -> SectionView
        decreases self,
    {
        match self {
            ParkhayDataSection::Root(m) => SectionView {
                kind: SectionKind::Root,
                children: views_upto(m@, m@.len()),
            },
            ParkhayDataSection::RowGroup(i, m) => SectionView {
                kind: SectionKind::RowGroup { index: *i as int },
                children: views_upto(m@, m@.len()),
            },
            ParkhayDataSection::ColumnChunk(i, m, p) => SectionView {
                kind: SectionKind::ColumnChunk { index: *i as int, path: p.deep_view() },
                children: views_upto(m@, m@.len()),
            },
            ParkhayDataSection::Page(i, h, slot) => SectionView {
                kind: SectionKind::Page {
                    index: *i as int,
                    header_length: h.header_length as int,
                    compressed_page_size: h.compressed_page_size as int,
                    capacity: slot.capacity(),
                },
                children: Seq::empty(),
            },
            ParkhayDataSection::OffsetIndex(i, _) => SectionView {
                kind: SectionKind::OffsetIndex { index: *i as int },
                children: Seq::empty(),
            },
            ParkhayDataSection::ColumnIndex(i, _) => SectionView {
                kind: SectionKind::ColumnIndex { index: *i as int },
                children: Seq::empty(),
            },
            ParkhayDataSection::BloomFilter(i, _, slot) => SectionView {
                kind: SectionKind::BloomFilter { index: *i as int, capacity: slot.capacity() },
                children: Seq::empty(),
            },
        }
    }
}

/// The first `n` entries of a section map as mathematical values.
pub open spec fn views_upto(m: Seq<(ByteInterval, ParkhayDataSection)>, n: nat) -> Entries
    decreases m, n,
{
    if n == 0 || n > m.len() {
        Seq::empty()
    } else {
        views_upto(m, (n - 1) as nat).push((m[n - 1].0, m[n - 1].1.view()))
    }
}

/// The entries of a section map as mathematical values.
pub open spec fn entry_views(m: Seq<(ByteInterval, ParkhayDataSection)>) -> Entries {
    Seq::new(m.len(), |k: int| (m[k].0, m[k].1@))
}

/// The first position at or behind `from` whose region contains `i`, or the
/// number of entries if there is none.
pub open spec fn host_from(c: Entries, i: ByteInterval, from: int) -> int
    decreases c.len() - from,
{
    if from < 0 || from >= c.len() {
        c.len() as int
    } else if interval_contains(c[from].0, i) {
        from
    } else {
        host_from(c, i, from + 1)
    }
}

/// The first position at or behind `from` whose key does not come before
/// `i`, or the number of entries if there is none.
pub open spec fn rank_from(c: Entries, i: ByteInterval, from: int) -> int
    decreases c.len() - from,
{
    if from < 0 || from >= c.len() {
        c.len() as int
    } else if !interval_before(c[from].0, i) {
        from
    } else {
        rank_from(c, i, from + 1)
    }
}

/// `c` with the entry `(i, s)` at the place of its key: in place of the
/// entry that has this key, if there is one.
pub open spec fn placed(c: Entries, i: ByteInterval, s: SectionView) -> Entries {
    let r = rank_from(c, i, 0);
    if 0 <= r < c.len() && c[r].0 == i {
        c.update(r, (i, s))
    } else {
        c.insert(r, (i, s))
    }
}

impl SectionView {
    /// Placing a region with the key `i` under this node ends in a container.
    pub open spec fn accepts(self, i: ByteInterval) -> bool
        decreases self,
    {
        let h = host_from(self.children, i, 0);
        &&& self.kind.is_container()
        &&& 0 <= h < self.children.len() ==> self.children[h].1.accepts(i)
    }

    /// This node after the region `s` with the key `i` has been placed under
    /// it: inside the first region that contains `i`, if there is one, and
    /// else among the regions of this node.
    pub open spec fn inserted(self, i: ByteInterval, s: SectionView) -> SectionView
        decreases self,
    {
        let h = host_from(self.children, i, 0);
        if 0 <= h < self.children.len() {
            SectionView {
                kind: self.kind,
                children: self.children.update(
                    h,
                    (self.children[h].0, self.children[h].1.inserted(i, s)),
                ),
            }
        } else {
            SectionView { kind: self.kind, children: placed(self.children, i, s) }
        }
    }
}

/// What `host_from` finds: no region between `from` and the result contains
/// `i`, and the region at the result does, if there is one.
pub proof fn lemma_host_from(c: Entries, i: ByteInterval, from: int)
    requires
        0 <= from <= c.len(),
    ensures
        from <= host_from(c, i, from) <= c.len(),
        forall|k: int| from <= k < host_from(c, i, from) ==> !interval_contains(#[trigger] c[k].0, i),
        host_from(c, i, from) < c.len() ==> interval_contains(c[host_from(c, i, from)].0, i),
    decreases c.len() - from,
{
    if from < c.len() && !interval_contains(c[from].0, i) {
        lemma_host_from(c, i, from + 1);
    }
}

/// What `rank_from` finds: every key between `from` and the result comes
/// before `i`, and the key at the result does not, if there is one.
pub proof fn lemma_rank_from(c: Entries, i: ByteInterval, from: int)
    requires
        0 <= from <= c.len(),
    ensures
        from <= rank_from(c, i, from) <= c.len(),
        forall|k: int| from <= k < rank_from(c, i, from) ==> interval_before(#[trigger] c[k].0, i),
        rank_from(c, i, from) < c.len() ==> !interval_before(c[rank_from(c, i, from)].0, i),
    decreases c.len() - from,
{
    if from < c.len() && interval_before(c[from].0, i) {
        lemma_rank_from(c, i, from + 1);
    }
}

/// `views_upto` takes the entries one by one.
pub proof fn lemma_views_upto(m: Seq<(ByteInterval, ParkhayDataSection)>, n: nat)
    requires
        n <= m.len(),
    ensures
        views_upto(m, n).len() == n,
        forall|k: int| 0 <= k < n ==> #[trigger] views_upto(m, n)[k] == (m[k].0, m[k].1@),
    decreases n,
{
    reveal_with_fuel(views_upto, 2);
    if n > 0 {
        lemma_views_upto(m, (n - 1) as nat);
    }
}

/// The children of a container are the views of its entries.
pub proof fn lemma_children(section: ParkhayDataSection)
    ensures
        match section {
            ParkhayDataSection::Root(m) => section@.children == entry_views(m@),
            ParkhayDataSection::RowGroup(_, m) => section@.children == entry_views(m@),
            ParkhayDataSection::ColumnChunk(_, m, _) => section@.children == entry_views(m@),
            _ => section@.children == Seq::<(ByteInterval, SectionView)>::empty(),
        },
{
    match section {
        ParkhayDataSection::Root(m) => {
            lemma_views_upto(m@, m@.len());
            assert(section@.children =~= entry_views(m@));
        },
        ParkhayDataSection::RowGroup(_, m) => {
            lemma_views_upto(m@, m@.len());
            assert(section@.children =~= entry_views(m@));
        },
        ParkhayDataSection::ColumnChunk(_, m, _) => {
            lemma_views_upto(m@, m@.len());
            assert(section@.children =~= entry_views(m@));
        },
        _ => {},
    }
}

/// The entries of `c` after the region `s` with the key `i` has been placed
/// among them or inside one of them.
pub open spec fn inserted_among(c: Entries, i: ByteInterval, s: SectionView) -> Entries {
    (SectionView { kind: SectionKind::Root, children: c }).inserted(i, s).children
}

/// Placing a region with the key `i` among `c` or inside one of them ends
/// in a container.
pub open spec fn accepted_among(c: Entries, i: ByteInterval) -> bool {
    (SectionView { kind: SectionKind::Root, children: c }).accepts(i)
}

/// Places `section` with the key `interval` among `sections`, or inside the
/// first of them that contains `interval`.
fn insert_among(sections: &mut SectionMap, interval: ByteInterval, section: ParkhayDataSection)
    requires
        accepted_among(entry_views(old(sections)@), interval),
    ensures
        entry_views(final(sections)@) == inserted_among(
            entry_views(old(sections)@),
            interval,
            section@,
        ),
    decreases *old(sections),
{
    let ghost before_views = entry_views(sections@);
    let ghost placed_view = section@;
    let n = sections.len();
    let mut h: usize = 0;
    while h < n && !contains(sections[h].0, interval)
        invariant
            0 <= h <= n,
            n == sections@.len(),
            sections@ == old(sections)@,
            before_views == entry_views(sections@),
            host_from(before_views, interval, 0) == host_from(before_views, interval, h as int),
        decreases n - h,
    {
        h = h + 1;
    }
    if h < n {
        assert(host_from(before_views, interval, 0) == h);
        let ghost key = sections@[h as int].0;
        let ghost child_before = sections@[h as int].1@;
        sections[h].1.insert(interval, section);
        assert(entry_views(sections@) =~= before_views.update(
            h as int,
            (key, child_before.inserted(interval, placed_view)),
        ));
    } else {
        assert(host_from(before_views, interval, 0) == n);
        let mut r: usize = 0;
        while r < n && before(sections[r].0, interval)
            invariant
                0 <= r <= n,
                n == sections@.len(),
                sections@ == old(sections)@,
                before_views == entry_views(sections@),
                rank_from(before_views, interval, 0) == rank_from(before_views, interval, r as int),
            decreases n - r,
        {
            r = r + 1;
        }
        assert(rank_from(before_views, interval, 0) == r);
        if r < n && sections[r].0.0 == interval.0 && sections[r].0.1 == interval.1 {
            sections.set(r, (interval, section));
            assert(entry_views(sections@) =~= before_views.update(
                r as int,
                (interval, placed_view),
            ));
        } else {
            sections.insert(r, (interval, section));
            assert(entry_views(sections@) =~= before_views.insert(
                r as int,
                (interval, placed_view),
            ));
        }
    }
}

impl ParkhayDataSection {
    /// Places `section` with the key `byte_interval` under this region:
    /// inside the first region directly under it that contains the key, and
    /// so on downwards; among the regions of the last container reached
    /// otherwise. Only a root, a row group or a column chunk takes regions.
    /// The keys of an ordered tree stay in strictly ascending order.
    pub fn insert(&mut self, byte_interval: ByteInterval, section: Self)
        requires
            old(self)@.accepts(byte_interval),
        ensures
            final(self)@ == old(self)@.inserted(byte_interval, section@),
            old(self)@.ordered() && section@.ordered() ==> final(self)@.ordered(),
        decreases *old(self),
    {
        proof {
            lemma_children(*self);
            if self@.ordered() && section@.ordered() {
                lemma_insert_ordered(self@, byte_interval, section@);
            }
        }
        match self {
            ParkhayDataSection::Root(sections) => {
                insert_among(sections, byte_interval, section);
            },
            ParkhayDataSection::RowGroup(_, sections) => {
                insert_among(sections, byte_interval, section);
            },
            ParkhayDataSection::ColumnChunk(_, sections, _) => {
                insert_among(sections, byte_interval, section);
            },
            _ => {},
        }
        proof {
            lemma_children(*self);
        }
    }
}

/// Whether placing a region with the key `interval` among `sections`, or
/// inside one of them, ends in a container.
fn accepts_among(sections: &SectionMap, interval: ByteInterval) -> (r: bool)
    ensures
        r == accepted_among(entry_views(sections@), interval),
    decreases sections,
{
    let ghost views = entry_views(sections@);
    let n = sections.len();
    let mut h: usize = 0;
    while h < n && !contains(sections[h].0, interval)
        invariant
            0 <= h <= n,
            n == sections@.len(),
            views == entry_views(sections@),
            host_from(views, interval, 0) == host_from(views, interval, h as int),
        decreases n - h,
    {
        h = h + 1;
    }
    if h < n {
        sections[h].1.accepts(interval)
    } else {
        true
    }
}

impl ParkhayDataSection {
    /// Whether a region with the key `interval` can be placed under this
    /// region: whether the way down, through the first region that contains
    /// the key at each level, ends in a root, a row group or a column chunk.
    pub fn accepts(&self, interval: ByteInterval) -> (r: bool)
        ensures
            r == self@.accepts(interval),
        decreases self,
    {
        proof {
            lemma_children(*self);
        }
        match self {
            ParkhayDataSection::Root(sections) => accepts_among(sections, interval),
            ParkhayDataSection::RowGroup(_, sections) => accepts_among(sections, interval),
            ParkhayDataSection::ColumnChunk(_, sections, _) => accepts_among(sections, interval),
            _ => false,
        }
    }
}

/// Whether `interval` shares no byte with any of `sections`.
fn clear_among(sections: &SectionMap, interval: ByteInterval) -> (r: bool)
    ensures
        r == clear_of(entry_views(sections@), interval),
{
    let n = sections.len();
    let mut k: usize = 0;
    while k < n
        invariant
            0 <= k <= n,
            n == sections@.len(),
            forall|j: int|
                0 <= j < k ==> crate::interval::interval_disjoint(
                    (#[trigger] entry_views(sections@)[j]).0,
                    interval,
                ),
        decreases n - k,
    {
        if !disjoint(sections[k].0, interval) {
            assert(entry_views(sections@)[k as int].0 == sections@[k as int].0);
            return false;
        }
        assert(entry_views(sections@)[k as int].0 == sections@[k as int].0);
        k = k + 1;
    }
    true
}

/// Whether none of `sections` ends behind the byte `end`.
fn end_among(sections: &SectionMap, end: u64) -> (r: bool)
    ensures
        r == ends_within(entry_views(sections@), end as int),
{
    let n = sections.len();
    let mut k: usize = 0;
    while k < n
        invariant
            0 <= k <= n,
            n == sections@.len(),
            forall|j: int| 0 <= j < k ==> (#[trigger] entry_views(sections@)[j]).0.1 <= end,
        decreases n - k,
    {
        assert(entry_views(sections@)[k as int].0 == sections@[k as int].0);
        if sections[k].0.1 > end {
            return false;
        }
        k = k + 1;
    }
    true
}

impl ParkhayDataSection {
    /// Whether `interval` shares no byte with any region directly under
    /// this one.
    pub fn is_clear(&self, interval: ByteInterval) -> (r: bool)
        ensures
            r == clear_of(self@.children, interval),
    {
        proof {
            lemma_children(*self);
        }
        match self {
            ParkhayDataSection::Root(sections) => clear_among(sections, interval),
            ParkhayDataSection::RowGroup(_, sections) => clear_among(sections, interval),
            ParkhayDataSection::ColumnChunk(_, sections, _) => clear_among(sections, interval),
            _ => true,
        }
    }

    /// Whether no region directly under this one ends behind the byte `end`.
    pub fn ends_by(&self, end: u64) -> (r: bool)
        ensures
            r == ends_within(self@.children, end as int),
    {
        proof {
            lemma_children(*self);
        }
        match self {
            ParkhayDataSection::Root(sections) => end_among(sections, end),
            ParkhayDataSection::RowGroup(_, sections) => end_among(sections, end),
            ParkhayDataSection::ColumnChunk(_, sections, _) => end_among(sections, end),
            _ => true,
        }
    }
}

} // verus!
