//! The invariants of a layout, and what placing a region does to them.

use crate::interval::interval_before;
use crate::interval::interval_contains;
use crate::interval::interval_disjoint;
use crate::interval::interval_valid;
use crate::interval::ByteInterval;
use crate::section::host_from;
use crate::section::lemma_host_from;
use crate::section::lemma_rank_from;
use crate::section::placed;
use crate::section::rank_from;
use crate::section::Entries;
use crate::section::SectionView;
use vstd::prelude::*;

verus! {

/// The keys of `c` come in strictly ascending order, by `start` and then by
/// `end`.
pub open spec fn keys_ascend(c: Entries) -> bool {
    forall|a: int, b: int| 0 <= a < b < c.len() ==> interval_before(#[trigger] c[a].0, #[trigger] c[b].0)
}

/// Each region of `c` ends before the next one starts.
pub open spec fn apart(c: Entries) -> bool {
    forall|a: int, b: int| 0 <= a < b < c.len() ==> (#[trigger] c[a].0).1 < (#[trigger] c[b].0).0
}

/// The range `i` shares no byte with any region of `c`.
pub open spec fn clear_of(c: Entries, i: ByteInterval) -> bool {
    forall|k: int| 0 <= k < c.len() ==> interval_disjoint((#[trigger] c[k]).0, i)
}

/// No region of `c` ends behind the byte `end`.
pub open spec fn ends_within(c: Entries, end: int) -> bool {
    forall|k: int| 0 <= k < c.len() ==> (#[trigger] c[k]).0.1 <= end
}

/// The regions of `c` are valid ranges that start at `lo` or behind it and
/// end before `hi`; no two of them share a byte, they come in the order of
/// the file, and the tree under each keeps the invariants of a layout.
pub open spec fn sound(c: Entries, lo: int, hi: int) -> bool {
    &&& apart(c)
    &&& forall|k: int|
        0 <= k < c.len() ==> {
            &&& interval_valid((#[trigger] c[k]).0)
            &&& lo <= c[k].0.0
            &&& c[k].0.1 < hi
            &&& c[k].1.well_formed(c[k].0)
        }
}

impl SectionView {
    /// At every level of the tree the keys come in strictly ascending order.
    pub open spec fn ordered(self) -> bool
        decreases self,
    {
        &&& keys_ascend(self.children)
        &&& forall|k: int|
            0 <= k < self.children.len() ==> (#[trigger] self.children[k]).1.ordered()
    }

    /// The tree under a region that covers `own` keeps the invariants of a
    /// layout: every region directly under another is a valid range inside
    /// the range of that other, the regions directly under one region share
    /// no byte and come in the order of the file, and a leaf holds no region.
    pub open spec fn well_formed(self, own: ByteInterval) -> bool
        decreases self,
    {
        &&& !self.kind.is_container() ==> self.children.len() == 0
        &&& apart(self.children)
        &&& forall|k: int|
            0 <= k < self.children.len() ==> {
                &&& interval_valid((#[trigger] self.children[k]).0)
                &&& interval_contains(own, self.children[k].0)
                &&& self.children[k].1.well_formed(self.children[k].0)
            }
    }

    /// Some region of the tree under this node has the key `i`.
    pub open spec fn has_key(self, i: ByteInterval) -> bool
        decreases self,
    {
        exists|k: int|
            0 <= k < self.children.len() && ((#[trigger] self.children[k]).0 == i
                || self.children[k].1.has_key(i))
    }

    /// The region `s` stands under this node with the key `i`, directly
    /// under the deepest container whose range contains `i`, and no other
    /// region of the tree has that key: on the way down one region at each
    /// level contains `i`, and the last of them is `s` itself.
    pub open spec fn stands(self, i: ByteInterval, s: SectionView) -> bool
        decreases self,
    {
        let h = host_from(self.children, i, 0);
        &&& 0 <= h < self.children.len()
        &&& forall|j: int|
            0 <= j < self.children.len() && j != h ==> !interval_contains(
                (#[trigger] self.children[j]).0,
                i,
            ) && !self.children[j].1.has_key(i)
        &&& if self.children[h].0 == i {
            self.children[h].1 == s
        } else {
            self.children[h].1.stands(i, s)
        }
    }

    /// Where a region with the key `i` comes to lie under this node, it
    /// shares no byte with the regions beside it.
    pub open spec fn fits(self, i: ByteInterval) -> bool
        decreases self,
    {
        let h = host_from(self.children, i, 0);
        if 0 <= h < self.children.len() {
            self.children[h].1.fits(i)
        } else {
            forall|k: int|
                0 <= k < self.children.len() ==> interval_disjoint(
                    (#[trigger] self.children[k]).0,
                    i,
                )
        }
    }
}

/// Placing an entry by its key keeps ascending keys ascending.
pub proof fn lemma_placed_ascend(c: Entries, i: ByteInterval, s: SectionView)
    requires
        keys_ascend(c),
    ensures
        keys_ascend(placed(c, i, s)),
{
    lemma_rank_from(c, i, 0);
    let r = rank_from(c, i, 0);
    let p = placed(c, i, s);
    assert forall|a: int, b: int| 0 <= a < b < p.len() implies interval_before(
        #[trigger] p[a].0,
        #[trigger] p[b].0,
    ) by {
        if 0 <= r < c.len() && c[r].0 == i {
            assert(p[a].0 == c[a].0);
            assert(p[b].0 == c[b].0);
        } else {
            let ca = if a < r { a } else { a - 1 };
            let cb = if b < r { b } else { b - 1 };
            if a == r {
                assert(p[b].0 == c[cb].0);
                assert(!interval_before(c[r].0, i));
                if cb > r {
                    assert(interval_before(c[r].0, c[cb].0));
                }
            } else if b == r {
                assert(p[a].0 == c[ca].0);
                assert(interval_before(c[ca].0, i));
            } else {
                assert(p[a].0 == c[ca].0);
                assert(p[b].0 == c[cb].0);
            }
        }
    }
}

/// Of every layout, however its regions lie: placing a region whose own
/// tree is ordered in an ordered tree leaves an ordered tree.
pub proof fn lemma_insert_ordered(t: SectionView, i: ByteInterval, s: SectionView)
    requires
        t.ordered(),
        s.ordered(),
    ensures
        t.inserted(i, s).ordered(),
    decreases t,
{
    lemma_host_from(t.children, i, 0);
    let h = host_from(t.children, i, 0);
    let after = t.inserted(i, s);
    if 0 <= h < t.children.len() {
        lemma_insert_ordered(t.children[h].1, i, s);
        assert forall|k: int| 0 <= k < after.children.len() implies (
        #[trigger] after.children[k]).1.ordered() by {
            if k != h {
                assert(after.children[k] == t.children[k]);
            }
        }
        assert forall|a: int, b: int| 0 <= a < b < after.children.len() implies interval_before(
            #[trigger] after.children[a].0,
            #[trigger] after.children[b].0,
        ) by {
            assert(after.children[a].0 == t.children[a].0);
            assert(after.children[b].0 == t.children[b].0);
        }
    } else {
        lemma_placed_ascend(t.children, i, s);
        lemma_rank_from(t.children, i, 0);
        let r = rank_from(t.children, i, 0);
        assert forall|k: int| 0 <= k < after.children.len() implies (
        #[trigger] after.children[k]).1.ordered() by {
            if 0 <= r < t.children.len() && t.children[r].0 == i {
                if k != r {
                    assert(after.children[k] == t.children[k]);
                }
            } else {
                if k < r {
                    assert(after.children[k] == t.children[k]);
                } else if k > r {
                    assert(after.children[k] == t.children[k - 1]);
                }
            }
        }
    }
}

/// Placing a valid range that shares no byte with any region of `c` keeps
/// the regions apart.
pub proof fn lemma_placed_apart(c: Entries, i: ByteInterval, s: SectionView)
    requires
        apart(c),
        interval_valid(i),
        forall|k: int| 0 <= k < c.len() ==> interval_valid((#[trigger] c[k]).0),
        forall|k: int| 0 <= k < c.len() ==> interval_disjoint((#[trigger] c[k]).0, i),
    ensures
        apart(placed(c, i, s)),
        placed(c, i, s) == c.insert(rank_from(c, i, 0), (i, s)),
        0 <= rank_from(c, i, 0) <= c.len(),
{
    lemma_rank_from(c, i, 0);
    let r = rank_from(c, i, 0);
    if 0 <= r < c.len() && c[r].0 == i {
        assert(interval_disjoint(c[r].0, i));
    }
    let p = placed(c, i, s);
    assert forall|a: int, b: int| 0 <= a < b < p.len() implies (#[trigger] p[a].0).1 < (
    #[trigger] p[b].0).0 by {
        let ca = if a < r { a } else { a - 1 };
        let cb = if b < r { b } else { b - 1 };
        if a == r {
            assert(p[b].0 == c[cb].0);
            assert(interval_disjoint(c[cb].0, i));
            assert(interval_valid(c[cb].0));
            assert(!interval_before(c[r].0, i));
            assert(interval_disjoint(c[r].0, i));
            assert(interval_valid(c[r].0));
            if cb > r {
                assert(c[r].0.1 < c[cb].0.0);
            }
        } else if b == r {
            assert(p[a].0 == c[ca].0);
            assert(interval_before(c[ca].0, i));
            assert(interval_disjoint(c[ca].0, i));
            assert(interval_valid(c[ca].0));
        } else {
            assert(p[a].0 == c[ca].0);
            assert(p[b].0 == c[cb].0);
        }
    }
}

/// Containment: in a tree that keeps the invariants of a layout, placing a
/// valid range that lies inside the range of the tree, and that shares no
/// byte with the regions beside which it comes to lie, leaves a tree that
/// keeps them: every region still lies inside the region above it, and the
/// regions under one region still share no byte.
pub proof fn lemma_insert_well_formed(
    t: SectionView,
    own: ByteInterval,
    i: ByteInterval,
    s: SectionView,
)
    requires
        t.well_formed(own),
        t.accepts(i),
        t.fits(i),
        interval_valid(i),
        interval_contains(own, i),
        s.well_formed(i),
    ensures
        t.inserted(i, s).well_formed(own),
    decreases t,
{
    lemma_host_from(t.children, i, 0);
    let h = host_from(t.children, i, 0);
    let after = t.inserted(i, s);
    if 0 <= h < t.children.len() {
        lemma_insert_well_formed(t.children[h].1, t.children[h].0, i, s);
        assert forall|k: int| 0 <= k < after.children.len() implies {
            &&& interval_valid((#[trigger] after.children[k]).0)
            &&& interval_contains(own, after.children[k].0)
            &&& after.children[k].1.well_formed(after.children[k].0)
        } by {
            if k != h {
                assert(after.children[k] == t.children[k]);
            }
        }
        assert forall|a: int, b: int| 0 <= a < b < after.children.len() implies (
        #[trigger] after.children[a].0).1 < (#[trigger] after.children[b].0).0 by {
            assert(after.children[a].0 == t.children[a].0);
            assert(after.children[b].0 == t.children[b].0);
        }
    } else {
        lemma_placed_apart(t.children, i, s);
        let r = rank_from(t.children, i, 0);
        assert forall|k: int| 0 <= k < after.children.len() implies {
            &&& interval_valid((#[trigger] after.children[k]).0)
            &&& interval_contains(own, after.children[k].0)
            &&& after.children[k].1.well_formed(after.children[k].0)
        } by {
            if k < r {
                assert(after.children[k] == t.children[k]);
            } else if k > r {
                assert(after.children[k] == t.children[k - 1]);
            }
        }
    }
}

/// Physical order: in a tree that keeps the invariants of a layout, the
/// regions under one region come with strictly increasing `start`, at every
/// level; the tree is ordered.
pub proof fn lemma_well_formed_ordered(t: SectionView, own: ByteInterval)
    requires
        t.well_formed(own),
    ensures
        t.ordered(),
        forall|a: int, b: int|
            0 <= a < b < t.children.len() ==> (#[trigger] t.children[a].0).0 < (
            #[trigger] t.children[b].0).0,
    decreases t,
{
    assert forall|a: int, b: int| 0 <= a < b < t.children.len() implies (
    #[trigger] t.children[a].0).0 < (#[trigger] t.children[b].0).0 by {
        assert(interval_valid(t.children[a].0));
        assert(t.children[a].0.1 < t.children[b].0.0);
    }
    assert forall|k: int| 0 <= k < t.children.len() implies (#[trigger] t.children[k]).1.ordered() by {
        lemma_well_formed_ordered(t.children[k].1, t.children[k].0);
    }
}

/// A valid range that shares no byte with the regions under a container
/// comes to lie among them, at the place of its key.
pub proof fn lemma_clear_inserted(t: SectionView, i: ByteInterval, s: SectionView)
    requires
        t.kind.is_container(),
        clear_of(t.children, i),
    ensures
        t.accepts(i),
        t.fits(i),
        t.inserted(i, s) == (SectionView { kind: t.kind, children: placed(t.children, i, s) }),
{
    lemma_host_from(t.children, i, 0);
    let h = host_from(t.children, i, 0);
    if h < t.children.len() {
        assert(interval_disjoint(t.children[h].0, i));
    }
}

/// Placing a valid range between `lo` and `hi` that shares no byte with
/// sound regions, with a tree under it that keeps the invariants, leaves
/// sound regions: the old ones and the new one.
pub proof fn lemma_placed_sound(c: Entries, lo: int, hi: int, i: ByteInterval, s: SectionView)
    requires
        sound(c, lo, hi),
        clear_of(c, i),
        interval_valid(i),
        lo <= i.0,
        i.1 < hi,
        s.well_formed(i),
    ensures
        sound(placed(c, i, s), lo, hi),
        placed(c, i, s).len() == c.len() + 1,
        exists|r: int| 0 <= r <= c.len() && placed(c, i, s) == c.insert(r, (i, s)),
{
    lemma_placed_apart(c, i, s);
    let r = rank_from(c, i, 0);
    let p = placed(c, i, s);
    assert(p == c.insert(r, (i, s)));
    assert forall|k: int| 0 <= k < p.len() implies {
        &&& interval_valid((#[trigger] p[k]).0)
        &&& lo <= p[k].0.0
        &&& p[k].0.1 < hi
        &&& p[k].1.well_formed(p[k].0)
    } by {
        if k < r {
            assert(p[k] == c[k]);
        } else if k > r {
            assert(p[k] == c[k - 1]);
        }
    }
}

/// Sound regions that end by the last byte of a container's range, and
/// start at its first byte or behind it, make a tree that keeps the
/// invariants of a layout.
pub proof fn lemma_sound_well_formed(t: SectionView, own: ByteInterval, hi: int)
    requires
        t.kind.is_container(),
        sound(t.children, own.0 as int, hi),
        ends_within(t.children, own.1 as int),
    ensures
        t.well_formed(own),
{
    assert forall|k: int| 0 <= k < t.children.len() implies {
        &&& interval_valid((#[trigger] t.children[k]).0)
        &&& interval_contains(own, t.children[k].0)
        &&& t.children[k].1.well_formed(t.children[k].0)
    } by {
        assert(t.children[k].0.1 <= own.1);
    }
}

/// Where a region lands: in a tree that keeps the invariants of a layout
/// and holds no region with the key `i`, placing a region with that key,
/// which holds none with it either, puts it directly under the deepest
/// container whose range contains `i`, and under no other.
pub proof fn lemma_insert_stands(t: SectionView, own: ByteInterval, i: ByteInterval, s: SectionView)
    requires
        t.well_formed(own),
        t.accepts(i),
        t.fits(i),
        interval_valid(i),
        !t.has_key(i),
    ensures
        t.inserted(i, s).stands(i, s),
    decreases t,
{
    lemma_host_from(t.children, i, 0);
    let c = t.children;
    let h = host_from(c, i, 0);
    let after = t.inserted(i, s);
    let a = after.children;
    assert forall|j: int| 0 <= j < c.len() implies (#[trigger] c[j]).0 != i && !c[j].1.has_key(i) by {
        assert(c[j].0 == i || c[j].1.has_key(i) ==> t.has_key(i));
    }
    if 0 <= h < c.len() {
        lemma_insert_stands(c[h].1, c[h].0, i, s);
        assert(a[h].0 == c[h].0);
        assert forall|j: int| 0 <= j < a.len() && j != h implies !interval_contains(
            (#[trigger] a[j]).0,
            i,
        ) && !a[j].1.has_key(i) by {
            assert(a[j] == c[j]);
            if j < h {
                assert(c[j].0.1 < c[h].0.0);
            } else {
                assert(c[h].0.1 < c[j].0.0);
            }
        }
        lemma_host_from(a, i, 0);
        let ha = host_from(a, i, 0);
        assert(interval_contains(a[h].0, i));
        if ha < h {
            assert(interval_contains(a[ha].0, i));
        }
        assert(ha == h);
    } else {
        lemma_rank_from(c, i, 0);
        let r = rank_from(c, i, 0);
        if 0 <= r < c.len() && c[r].0 == i {
            assert(t.has_key(i));
        }
        assert(a == c.insert(r, (i, s)));
        assert(a[r] == (i, s));
        assert forall|j: int| 0 <= j < a.len() && j != r implies !interval_contains(
            (#[trigger] a[j]).0,
            i,
        ) && !a[j].1.has_key(i) by {
            let cj = if j < r { j } else { j - 1 };
            assert(a[j] == c[cj]);
            assert(interval_disjoint(c[cj].0, i));
        }
        lemma_host_from(a, i, 0);
        let ha = host_from(a, i, 0);
        assert(interval_contains(a[r].0, i));
        if ha < r {
            assert(interval_contains(a[ha].0, i));
        }
        assert(ha == r);
    }
}

} // verus!
