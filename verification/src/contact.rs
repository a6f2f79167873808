//! Contact generation and resolution math: axis-aligned overlap records
//! between two rectangle groups or between a rectangle group and the
//! solid tiles of a level, minimum-translation displacements, the
//! deepest-first resolution order, and removal-list compaction.

use vstd::prelude::*;
use vstd::pervasive::VecAdditionalExecFns;

use crate::geom::{Rect, Vec2, rects_overlap, x_extent, y_extent};
use crate::grid::{Level, TileHit};

verus! {

/// A detected overlap between two rectangles: the raw (unsigned) overlap
/// extents and enough indices to resolve or classify it. Built fresh
/// each tick and consumed immediately.
#[derive(Clone, Copy, Debug, PartialEq, Eq, Structural)]
pub struct Contact {
    /// Pre-resolution overlap extents, both components positive.
    pub displacement: Vec2,
    pub a_index: usize,
    pub a_rect: Rect,
    pub b_index: usize,
    pub b_rect: Rect,
}

/// Squared magnitude of a contact's overlap, the depth key for the
/// deepest-first resolution order.
pub open spec fn contact_mag_sq(c: Contact) -> int {
    c.displacement.x * c.displacement.x + c.displacement.y * c.displacement.y
}

/// The contact record emitted for an overlapping pair.
pub open spec fn overlap_contact(a_i: int, a: Rect, b_i: int, b: Rect) -> Contact {
    Contact {
        displacement: Vec2 { x: x_extent(a, b) as i64, y: y_extent(a, b) as i64 },
        a_index: a_i as usize,
        a_rect: a,
        b_index: b_i as usize,
        b_rect: b,
    }
}

/// Minimum-translation displacement: zero when the rects do not overlap;
/// otherwise the axis with the larger overlap is zeroed (push out along
/// the axis of least penetration) and the remaining extent is signed to
/// push `a` away from `b`. When the two extents are exactly equal the x
/// axis is zeroed, so the correction runs along y.
pub open spec fn spec_displacement(a: Rect, b: Rect) -> Vec2 {
    if !rects_overlap(a, b) {
        Vec2 { x: 0i64, y: 0i64 }
    } else {
        let dx = x_extent(a, b);
        let dy = y_extent(a, b);
        if dx < dy {
            Vec2 { x: (if a.x < b.x { -dx } else { dx }) as i64, y: 0i64 }
        } else {
            Vec2 { x: 0i64, y: (if a.y < b.y { -dy } else { dy }) as i64 }
        }
    }
}

/// Compute the minimum-translation displacement that pushes `a` out of
/// `b`, the zero vector when they do not overlap.
pub fn find_displacement(a: Rect, b: Rect) -> (r: Vec2)
    requires
        a.wf(),
        b.wf(),
    ensures
        r == spec_displacement(a, b),
        r.wf(),
{
    match a.overlap(b) {
        Some(overlap) => {
            let (x, y) = if overlap.x < overlap.y {
                (if a.x < b.x { -overlap.x } else { overlap.x }, 0i64)
            } else {
                (0i64, if a.y < b.y { -overlap.y } else { overlap.y })
            };
            Vec2 { x, y }
        },
        None => Vec2 { x: 0, y: 0 },
    }
}

/// Contacts of `a` (at group index `a_i`) against `b[0..j]`, in index order.
pub open spec fn row_pairs(a_i: int, a: Rect, b: Seq<Rect>, j: int) -> Seq<Contact>
    decreases j,
{
    if j <= 0 {
        Seq::empty()
    } else {
        let rest = row_pairs(a_i, a, b, j - 1);
        if rects_overlap(a, b[j - 1]) {
            rest.push(overlap_contact(a_i, a, j - 1, b[j - 1]))
        } else {
            rest
        }
    }
}

/// Contacts of `a[0..i]` against all of `b`, rows in index order.
pub open spec fn all_pairs(a: Seq<Rect>, b: Seq<Rect>, i: int) -> Seq<Contact>
    decreases i,
{
    if i <= 0 {
        Seq::empty()
    } else {
        all_pairs(a, b, i - 1) + row_pairs(i - 1, a[i - 1], b, b.len() as int)
    }
}

/// All-pairs overlap test between two rectangle groups: appends one
/// contact per overlapping pair, keyed by both indices, in lexicographic
/// index order. Reads the groups, mutates only the output list.
pub fn generate_contact(group_a: &Vec<Rect>, group_b: &Vec<Rect>, contacts: &mut Vec<Contact>)
    requires
        forall|i: int| 0 <= i < group_a@.len() ==> (#[trigger] group_a@[i]).wf(),
        forall|i: int| 0 <= i < group_b@.len() ==> (#[trigger] group_b@[i]).wf(),
    ensures
        final(contacts)@ == old(contacts)@ + all_pairs(group_a@, group_b@, group_a@.len() as int),
{
    let ghost old_contacts = contacts@;
    let mut i: usize = 0;
    proof {
        assert(contacts@ =~= old_contacts + all_pairs(group_a@, group_b@, 0));
    }
    while i < group_a.len()
        invariant
            forall|k: int| 0 <= k < group_a@.len() ==> (#[trigger] group_a@[k]).wf(),
            forall|k: int| 0 <= k < group_b@.len() ==> (#[trigger] group_b@[k]).wf(),
            i <= group_a@.len(),
            contacts@ == old_contacts + all_pairs(group_a@, group_b@, i as int),
        decreases group_a@.len() - i,
    {
        let a_rect = group_a[i];
        let mut j: usize = 0;
        while j < group_b.len()
            invariant
                forall|k: int| 0 <= k < group_a@.len() ==> (#[trigger] group_a@[k]).wf(),
                forall|k: int| 0 <= k < group_b@.len() ==> (#[trigger] group_b@[k]).wf(),
                i < group_a@.len(),
                j <= group_b@.len(),
                a_rect == group_a@[i as int],
                contacts@ == old_contacts + all_pairs(group_a@, group_b@, i as int) + row_pairs(
                    i as int,
                    a_rect,
                    group_b@,
                    j as int,
                ),
            decreases group_b@.len() - j,
        {
            let b_rect = group_b[j];
            if let Some(overlap) = a_rect.overlap(b_rect) {
                contacts.push(
                    Contact { displacement: overlap, a_index: i, a_rect, b_index: j, b_rect },
                );
                proof {
                    assert(contacts@ =~= old_contacts + all_pairs(group_a@, group_b@, i as int)
                        + row_pairs(i as int, a_rect, group_b@, j as int + 1));
                }
            }
            j = j + 1;
        }
        proof {
            assert(contacts@ =~= old_contacts + all_pairs(group_a@, group_b@, i as int + 1));
        }
        i = i + 1;
    }
}

/// Contacts of `a` (at group index `a_i`) against the solid tiles among
/// the query entries `hits[0..j]`: `b_index` is fixed at zero, tile
/// contacts only need the resolving rect.
pub open spec fn tile_row(a_i: int, a: Rect, hits: Seq<TileHit>, j: int) -> Seq<Contact>
    decreases j,
{
    if j <= 0 {
        Seq::empty()
    } else {
        let rest = tile_row(a_i, a, hits, j - 1);
        let e = hits[j - 1];
        if e.3.solid && rects_overlap(a, e.2) {
            rest.push(overlap_contact(a_i, a, 0, e.2))
        } else {
            rest
        }
    }
}

/// Tile contacts of `a[0..i]` against the solid tiles each rect reaches
/// through the grid query.
pub open spec fn tile_all(a: Seq<Rect>, lvl: Level, i: int) -> Seq<Contact>
    decreases i,
{
    if i <= 0 {
        Seq::empty()
    } else {
        let hits = lvl.hits_within(a[i - 1]);
        tile_all(a, lvl, i - 1) + tile_row(i - 1, a[i - 1], hits, hits.len() as int)
    }
}

/// For each rect of the group, query the tiles it can touch, keep the
/// solid ones that really overlap, and append one contact per such tile.
pub fn generate_tile_contact(group_a: &Vec<Rect>, lvl: &Level, contacts: &mut Vec<Contact>)
    requires
        lvl.wf(),
        forall|i: int| 0 <= i < group_a@.len() ==> (#[trigger] group_a@[i]).wf(),
    ensures
        final(contacts)@ == old(contacts)@ + tile_all(group_a@, *lvl, group_a@.len() as int),
{
    let ghost old_contacts = contacts@;
    let mut i: usize = 0;
    proof {
        assert(contacts@ =~= old_contacts + tile_all(group_a@, *lvl, 0));
    }
    while i < group_a.len()
        invariant
            lvl.wf(),
            forall|k: int| 0 <= k < group_a@.len() ==> (#[trigger] group_a@[k]).wf(),
            i <= group_a@.len(),
            contacts@ == old_contacts + tile_all(group_a@, *lvl, i as int),
        decreases group_a@.len() - i,
    {
        let a_rect = group_a[i];
        let hits = lvl.tiles_within(a_rect);
        proof {
            lvl.lemma_hits_within_props(a_rect);
        }
        let mut j: usize = 0;
        while j < hits.len()
            invariant
                i < group_a@.len(),
                j <= hits@.len(),
                a_rect == group_a@[i as int],
                a_rect.wf(),
                hits@ == lvl.hits_within(a_rect),
                forall|k: int| 0 <= k < hits@.len() ==> (#[trigger] hits@[k]).2.wf(),
                contacts@ == old_contacts + tile_all(group_a@, *lvl, i as int) + tile_row(
                    i as int,
                    a_rect,
                    hits@,
                    j as int,
                ),
            decreases hits@.len() - j,
        {
            let (_tx, _ty, b_rect, desc) = hits[j];
            if desc.solid {
                if let Some(overlap) = a_rect.overlap(b_rect) {
                    contacts.push(
                        Contact { displacement: overlap, a_index: i, a_rect, b_index: 0, b_rect },
                    );
                    proof {
                        assert(contacts@ =~= old_contacts + tile_all(group_a@, *lvl, i as int)
                            + tile_row(i as int, a_rect, hits@, j as int + 1));
                    }
                }
            }
            j = j + 1;
        }
        proof {
            assert(contacts@ =~= old_contacts + tile_all(group_a@, *lvl, i as int + 1));
        }
        i = i + 1;
    }
}

/// What holds of every contact in one generated row.
proof fn lemma_row_pairs_props(a_i: int, a: Rect, b: Seq<Rect>, j: int)
    requires
        a.wf(),
        forall|k: int| 0 <= k < b.len() ==> (#[trigger] b[k]).wf(),
        0 <= a_i <= usize::MAX,
        j <= b.len() <= usize::MAX,
    ensures
        forall|k: int|
            0 <= k < row_pairs(a_i, a, b, j).len() ==> {
                let c = #[trigger] row_pairs(a_i, a, b, j)[k];
                &&& c.a_index == a_i
                &&& c.a_rect == a
                &&& c.b_index < b.len()
                &&& c.b_rect == b[c.b_index as int]
                &&& rects_overlap(c.a_rect, c.b_rect)
                &&& c == overlap_contact(a_i, a, c.b_index as int, c.b_rect)
                &&& c.displacement.wf()
            },
    decreases j,
{
    if j > 0 {
        lemma_row_pairs_props(a_i, a, b, j - 1);
        let rest = row_pairs(a_i, a, b, j - 1);
        let whole = row_pairs(a_i, a, b, j);
        assert forall|k: int| 0 <= k < whole.len() implies {
            let c = #[trigger] whole[k];
            &&& c.a_index == a_i
            &&& c.a_rect == a
            &&& c.b_index < b.len()
            &&& c.b_rect == b[c.b_index as int]
            &&& rects_overlap(c.a_rect, c.b_rect)
            &&& c == overlap_contact(a_i, a, c.b_index as int, c.b_rect)
            &&& c.displacement.wf()
        } by {
            if k < rest.len() {
                assert(whole[k] == rest[k]);
            } else {
                assert(rects_overlap(a, b[j - 1]) && whole[k] == overlap_contact(
                    a_i,
                    a,
                    j - 1,
                    b[j - 1],
                ));
                assert(0 < x_extent(a, b[j - 1]) <= a.w);
                assert(0 < y_extent(a, b[j - 1]) <= a.h);
            }
        }
    }
}

/// What holds of every contact `generate_contact` emits: the indices
/// are in range, the rects are the groups' rects at those indices, the
/// pair overlaps, and the record is the pair's overlap record.
pub proof fn lemma_all_pairs_props(a: Seq<Rect>, b: Seq<Rect>, i: int)
    requires
        forall|k: int| 0 <= k < a.len() ==> (#[trigger] a[k]).wf(),
        forall|k: int| 0 <= k < b.len() ==> (#[trigger] b[k]).wf(),
        i <= a.len() <= usize::MAX,
        b.len() <= usize::MAX,
    ensures
        forall|k: int|
            0 <= k < all_pairs(a, b, i).len() ==> {
                let c = #[trigger] all_pairs(a, b, i)[k];
                &&& c.a_index < i
                &&& c.a_rect == a[c.a_index as int]
                &&& c.b_index < b.len()
                &&& c.b_rect == b[c.b_index as int]
                &&& rects_overlap(c.a_rect, c.b_rect)
                &&& c == overlap_contact(c.a_index as int, c.a_rect, c.b_index as int, c.b_rect)
                &&& c.displacement.wf()
            },
    decreases i,
{
    if i > 0 {
        lemma_all_pairs_props(a, b, i - 1);
        lemma_row_pairs_props(i - 1, a[i - 1], b, b.len() as int);
        let left = all_pairs(a, b, i - 1);
        let right = row_pairs(i - 1, a[i - 1], b, b.len() as int);
        let whole = all_pairs(a, b, i);
        assert forall|k: int| 0 <= k < whole.len() implies {
            let c = #[trigger] whole[k];
            &&& c.a_index < i
            &&& c.a_rect == a[c.a_index as int]
            &&& c.b_index < b.len()
            &&& c.b_rect == b[c.b_index as int]
            &&& rects_overlap(c.a_rect, c.b_rect)
            &&& c == overlap_contact(c.a_index as int, c.a_rect, c.b_index as int, c.b_rect)
            &&& c.displacement.wf()
        } by {
            if k < left.len() {
                assert(whole[k] == left[k]);
            } else {
                assert(whole[k] == right[k - left.len()]);
            }
        }
    }
}

/// What holds of every tile contact of one row: it points at a solid,
/// in-grid, tile-sized rect that overlaps the querying rect.
proof fn lemma_tile_row_props(lvl: Level, a_i: int, a: Rect, hits: Seq<TileHit>, j: int)
    requires
        lvl.wf(),
        a.wf(),
        0 <= a_i <= usize::MAX,
        j <= hits.len() <= usize::MAX,
        forall|k: int|
            0 <= k < hits.len() ==> {
                let e = #[trigger] hits[k];
                &&& lvl.in_grid(e.0 as int, e.1 as int)
                &&& e == lvl.tile_hit(e.0 as int, e.1 as int)
                &&& e.2.wf()
            },
    ensures
        forall|k: int|
            0 <= k < tile_row(a_i, a, hits, j).len() ==> {
                let c = #[trigger] tile_row(a_i, a, hits, j)[k];
                &&& c.a_index == a_i
                &&& c.a_rect == a
                &&& c.b_index == 0
                &&& c.b_rect.wf()
                &&& c.b_rect.w == crate::geom::TILE
                &&& c.b_rect.h == crate::geom::TILE
                &&& rects_overlap(c.a_rect, c.b_rect)
                &&& c == overlap_contact(a_i, a, 0, c.b_rect)
                &&& c.displacement.wf()
                &&& exists|tx: int, ty: int|
                    lvl.in_grid(tx, ty) && c.b_rect == Level::tile_rect(tx, ty)
                        && (#[trigger] lvl.tile_at(tx, ty)).solid
            },
    decreases j,
{
    if j > 0 {
        lemma_tile_row_props(lvl, a_i, a, hits, j - 1);
        let rest = tile_row(a_i, a, hits, j - 1);
        let whole = tile_row(a_i, a, hits, j);
        let e = hits[j - 1];
        assert forall|k: int| 0 <= k < whole.len() implies {
            let c = #[trigger] whole[k];
            &&& c.a_index == a_i
            &&& c.a_rect == a
            &&& c.b_index == 0
            &&& c.b_rect.wf()
            &&& c.b_rect.w == crate::geom::TILE
            &&& c.b_rect.h == crate::geom::TILE
            &&& rects_overlap(c.a_rect, c.b_rect)
            &&& c == overlap_contact(a_i, a, 0, c.b_rect)
            &&& c.displacement.wf()
            &&& exists|tx: int, ty: int|
                lvl.in_grid(tx, ty) && c.b_rect == Level::tile_rect(tx, ty)
                    && (#[trigger] lvl.tile_at(tx, ty)).solid
        } by {
            if k < rest.len() {
                assert(whole[k] == rest[k]);
            } else {
                assert(e.3.solid && rects_overlap(a, e.2));
                assert(whole[k] == overlap_contact(a_i, a, 0, e.2));
                assert(lvl.in_grid(e.0 as int, e.1 as int) && e.2 == Level::tile_rect(
                    e.0 as int,
                    e.1 as int,
                ) && lvl.tile_at(e.0 as int, e.1 as int).solid);
                assert(0 < x_extent(a, e.2) <= a.w);
                assert(0 < y_extent(a, e.2) <= a.h);
            }
        }
    }
}

/// What holds of every contact `generate_tile_contact` emits: the group
/// index is in range, the resolving rect is the group's rect there, and
/// the other rect is a solid, in-grid, tile-sized rect overlapping it.
pub proof fn lemma_tile_all_props(a: Seq<Rect>, lvl: Level, i: int)
    requires
        lvl.wf(),
        forall|k: int| 0 <= k < a.len() ==> (#[trigger] a[k]).wf(),
        i <= a.len() <= usize::MAX,
    ensures
        forall|k: int|
            0 <= k < tile_all(a, lvl, i).len() ==> {
                let c = #[trigger] tile_all(a, lvl, i)[k];
                &&& c.a_index < i
                &&& c.a_rect == a[c.a_index as int]
                &&& c.b_index == 0
                &&& c.b_rect.wf()
                &&& c.b_rect.w == crate::geom::TILE
                &&& c.b_rect.h == crate::geom::TILE
                &&& rects_overlap(c.a_rect, c.b_rect)
                &&& c == overlap_contact(c.a_index as int, c.a_rect, 0, c.b_rect)
                &&& c.displacement.wf()
                &&& exists|tx: int, ty: int|
                    lvl.in_grid(tx, ty) && c.b_rect == Level::tile_rect(tx, ty)
                        && (#[trigger] lvl.tile_at(tx, ty)).solid
            },
    decreases i,
{
    if i > 0 {
        lemma_tile_all_props(a, lvl, i - 1);
        let hits = lvl.hits_within(a[i - 1]);
        lvl.lemma_hits_within_props(a[i - 1]);
        lvl.lemma_hits_within_len(a[i - 1]);
        lemma_tile_row_props(lvl, i - 1, a[i - 1], hits, hits.len() as int);
        let left = tile_all(a, lvl, i - 1);
        let right = tile_row(i - 1, a[i - 1], hits, hits.len() as int);
        let whole = tile_all(a, lvl, i);
        assert forall|k: int| 0 <= k < whole.len() implies {
            let c = #[trigger] whole[k];
            &&& c.a_index < i
            &&& c.a_rect == a[c.a_index as int]
            &&& c.b_index == 0
            &&& c.b_rect.wf()
            &&& c.b_rect.w == crate::geom::TILE
            &&& c.b_rect.h == crate::geom::TILE
            &&& rects_overlap(c.a_rect, c.b_rect)
            &&& c == overlap_contact(c.a_index as int, c.a_rect, 0, c.b_rect)
            &&& c.displacement.wf()
            &&& exists|tx: int, ty: int|
                lvl.in_grid(tx, ty) && c.b_rect == Level::tile_rect(tx, ty)
                    && (#[trigger] lvl.tile_at(tx, ty)).solid
        } by {
            if k < left.len() {
                assert(whole[k] == left[k]);
            } else {
                assert(whole[k] == right[k - left.len()]);
            }
        }
    }
}

/// Contacts ordered deepest first: squared overlap magnitudes are
/// non-increasing.
pub open spec fn sorted_by_depth(s: Seq<Contact>) -> bool {
    forall|i: int, j: int|
        0 <= i < j < s.len() ==> contact_mag_sq(#[trigger] s[i]) >= contact_mag_sq(#[trigger] s[j])
}

/// All overlap extents of a contact list are in the safe range.
pub open spec fn depths_wf(s: Seq<Contact>) -> bool {
    forall|i: int| 0 <= i < s.len() ==> (#[trigger] s[i]).displacement.wf()
}

/// Depth key of one contact.
fn contact_depth(c: &Contact) -> (r: i64)
    requires
        c.displacement.wf(),
    ensures
        r == contact_mag_sq(*c),
{
    c.displacement.mag_sq()
}

/// Swapping two positions of a list leaves its multiset unchanged.
proof fn lemma_swap_multiset<T>(s: Seq<T>, i: int, j: int)
    requires
        0 <= i < j < s.len(),
    ensures
        s.update(i, s[j]).update(j, s[i]).to_multiset() == s.to_multiset(),
{
    broadcast use vstd::seq_lib::group_to_multiset_ensures;
    broadcast use vstd::multiset::group_multiset_axioms;

    let s1 = s.update(i, s[j]);
    let s2 = s1.update(j, s[i]);
    assert(s.to_multiset().count(s[i]) > 0) by {
        assert(s.contains(s[i]));
    }
    assert(s1.to_multiset() == s.to_multiset().insert(s[j]).remove(s[i]));
    assert(s1[j] == s[j]);
    assert(s2.to_multiset() == s1.to_multiset().insert(s[i]).remove(s[j]));
    assert(s2.to_multiset() =~= s.to_multiset());
}

/// Sort contacts deepest first (descending squared overlap magnitude),
/// so the deepest interpenetrations are resolved before shallow ones.
/// Integer keys give a total order: no tie is left to platform float
/// ordering.
pub fn sort_contacts(contacts: &mut Vec<Contact>)
    requires
        depths_wf(old(contacts)@),
    ensures
        sorted_by_depth(final(contacts)@),
        final(contacts)@.to_multiset() == old(contacts)@.to_multiset(),
        final(contacts)@.len() == old(contacts)@.len(),
        depths_wf(final(contacts)@),
{
    broadcast use vstd::seq_lib::group_to_multiset_ensures;
    broadcast use vstd::multiset::group_multiset_axioms;

    let n = contacts.len();
    if n < 2 {
        return ;
    }
    let mut i: usize = 1;
    while i < n
        invariant
            n == contacts@.len(),
            1 <= i <= n,
            depths_wf(contacts@),
            contacts@.to_multiset() == old(contacts)@.to_multiset(),
            forall|p: int, q: int|
                0 <= p < q < i ==> contact_mag_sq(#[trigger] contacts@[p]) >= contact_mag_sq(
                    #[trigger] contacts@[q],
                ),
        decreases n - i,
    {
        let mut j: usize = i;
        let mut done = false;
        while !done && j > 0
            invariant
                n == contacts@.len(),
                0 <= j <= i < n,
                depths_wf(contacts@),
                contacts@.to_multiset() == old(contacts)@.to_multiset(),
                forall|p: int, q: int|
                    0 <= p < q <= i && q != j ==> contact_mag_sq(#[trigger] contacts@[p])
                        >= contact_mag_sq(#[trigger] contacts@[q]),
                done ==> (j >= 1 && contact_mag_sq(contacts@[j - 1]) >= contact_mag_sq(
                    contacts@[j as int],
                )),
            decreases j + (if done { 0int } else { 1int }),
        {
            let prev = contacts[j - 1];
            let cur = contacts[j];
            if contact_depth(&prev) < contact_depth(&cur) {
                let ghost s0 = contacts@;
                contacts.set(j - 1, cur);
                contacts.set(j, prev);
                proof {
                    assert(contacts@ == s0.update(j as int - 1, s0[j as int]).update(
                        j as int,
                        s0[j as int - 1],
                    ));
                    lemma_swap_multiset(s0, j as int - 1, j as int);
                }
                j = j - 1;
            } else {
                done = true;
            }
        }
        proof {
            assert(forall|p: int, q: int|
                0 <= p < q <= i ==> contact_mag_sq(#[trigger] contacts@[p]) >= contact_mag_sq(
                    #[trigger] contacts@[q],
                ));
        }
        i = i + 1;
    }
}

/// One generated row holds at most one contact per right-hand rect.
proof fn lemma_row_pairs_len(a_i: int, a: Rect, b: Seq<Rect>, j: int)
    requires
        0 <= j,
    ensures
        row_pairs(a_i, a, b, j).len() <= j,
    decreases j,
{
    if j > 0 {
        lemma_row_pairs_len(a_i, a, b, j - 1);
    }
}

/// The all-pairs contact list is bounded by the product of the group
/// sizes.
pub proof fn lemma_all_pairs_len(a: Seq<Rect>, b: Seq<Rect>, i: int)
    requires
        0 <= i,
    ensures
        all_pairs(a, b, i).len() <= i * b.len(),
    decreases i,
{
    if i > 0 {
        lemma_all_pairs_len(a, b, i - 1);
        lemma_row_pairs_len(i - 1, a[i - 1], b, b.len() as int);
        assert(i * b.len() == (i - 1) * b.len() + b.len()) by (nonlinear_arith);
    }
}

/// A pointwise property survives any permutation: what holds of every
/// element of a list holds of every element of a list with the same
/// multiset.
pub proof fn lemma_perm_preserves<T>(s: Seq<T>, t: Seq<T>, p: spec_fn(T) -> bool)
    requires
        s.to_multiset() == t.to_multiset(),
        forall|k: int| 0 <= k < s.len() ==> p(#[trigger] s[k]),
    ensures
        forall|k: int| 0 <= k < t.len() ==> p(#[trigger] t[k]),
{
    broadcast use vstd::seq_lib::group_to_multiset_ensures;
    broadcast use vstd::multiset::group_multiset_axioms;

    assert forall|k: int| 0 <= k < t.len() implies p(#[trigger] t[k]) by {
        assert(t.contains(t[k]));
        assert(t.to_multiset().count(t[k]) > 0);
        assert(s.to_multiset().count(t[k]) > 0);
        assert(s.contains(t[k]));
        let w = choose|i: int| 0 <= i < s.len() && s[i] == t[k];
        assert(p(s[w]));
    }
}

/// Indices in non-decreasing order.
pub open spec fn sorted_ascending(s: Seq<usize>) -> bool {
    forall|i: int, j: int| 0 <= i < j < s.len() ==> s[i] <= s[j]
}

/// Sort a list of indices ascending.
pub fn sort_indices(v: &mut Vec<usize>)
    ensures
        sorted_ascending(final(v)@),
        final(v)@.to_multiset() == old(v)@.to_multiset(),
        final(v)@.len() == old(v)@.len(),
{
    let n = v.len();
    if n < 2 {
        return ;
    }
    let mut i: usize = 1;
    while i < n
        invariant
            n == v@.len(),
            1 <= i <= n,
            v@.to_multiset() == old(v)@.to_multiset(),
            forall|p: int, q: int| 0 <= p < q < i ==> v@[p] <= v@[q],
        decreases n - i,
    {
        let mut j: usize = i;
        let mut done = false;
        while !done && j > 0
            invariant
                n == v@.len(),
                0 <= j <= i < n,
                v@.to_multiset() == old(v)@.to_multiset(),
                forall|p: int, q: int| 0 <= p < q <= i && q != j ==> v@[p] <= v@[q],
                done ==> (j >= 1 && v@[j - 1] <= v@[j as int]),
            decreases j + (if done {
                0int
            } else {
                1int
            }),
        {
            let prev = v[j - 1];
            let cur = v[j];
            if prev > cur {
                let ghost s0 = v@;
                v.set(j - 1, cur);
                v.set(j, prev);
                proof {
                    assert(v@ == s0.update(j as int - 1, s0[j as int]).update(
                        j as int,
                        s0[j as int - 1],
                    ));
                    lemma_swap_multiset(s0, j as int - 1, j as int);
                }
                j = j - 1;
            } else {
                done = true;
            }
        }
        i = i + 1;
    }
}

/// A sorted copy of a duplicate-free, in-range index list is a valid
/// removal list: strictly ascending and inside the bound.
pub proof fn lemma_sorted_unique_ascending(s: Seq<usize>, t: Seq<usize>, n: int)
    requires
        t.to_multiset() == s.to_multiset(),
        s.no_duplicates(),
        forall|k: int| 0 <= k < s.len() ==> (#[trigger] s[k]) < n,
        sorted_ascending(t),
    ensures
        valid_removal(t, n),
{
    broadcast use vstd::seq_lib::group_to_multiset_ensures;
    broadcast use vstd::multiset::group_multiset_axioms;

    s.lemma_multiset_has_no_duplicates();
    t.lemma_multiset_has_no_duplicates_conv();
    assert forall|k: int| 0 <= k < t.len() implies (#[trigger] t[k]) < n by {
        assert(t.contains(t[k]));
        assert(t.to_multiset().count(t[k]) > 0);
        assert(s.to_multiset().count(t[k]) > 0);
        assert(s.contains(t[k]));
        let w = choose|i: int| 0 <= i < s.len() && s[i] == t[k];
        assert(s[w] < n);
    }
    assert forall|p: int, q: int| 0 <= p < q < t.len() implies t[p] < t[q] by {
        assert(t[p] <= t[q]);
    }
}

/// Does this list contain the index?
pub(crate) fn contains_idx(v: &Vec<usize>, x: usize) -> (r: bool)
    ensures
        r == v@.contains(x),
{
    let mut i: usize = 0;
    while i < v.len()
        invariant
            i <= v@.len(),
            forall|k: int| 0 <= k < i ==> v@[k] != x,
        decreases v@.len() - i,
    {
        if v[i] == x {
            assert(v@.contains(x));
            return true;
        }
        i = i + 1;
    }
    assert(!v@.contains(x));
    false
}

/// A strictly ascending list of indices, all inside a list of length `n`.
pub open spec fn valid_removal(idxs: Seq<usize>, n: int) -> bool {
    &&& forall|p: int, q: int| 0 <= p < q < idxs.len() ==> idxs[p] < idxs[q]
    &&& forall|p: int| 0 <= p < idxs.len() ==> (#[trigger] idxs[p]) < n
}

/// The list after processing the removal indices `idxs[k..]` from the
/// highest down, each step a swap-remove: the slot is overwritten with
/// the last element and the last slot dropped.
pub open spec fn remove_desc<T>(s: Seq<T>, idxs: Seq<usize>, k: int) -> Seq<T>
    decreases idxs.len() - k,
{
    if k < 0 || k >= idxs.len() {
        s
    } else {
        let t = remove_desc(s, idxs, k + 1);
        t.update(idxs[k] as int, t.last()).drop_last()
    }
}

/// The order-preserving survivors: the same removal processed from the
/// highest index down with plain removes, keeping the rest in order.
pub open spec fn survivors<T>(s: Seq<T>, idxs: Seq<usize>, k: int) -> Seq<T>
    decreases idxs.len() - k,
{
    if k < 0 || k >= idxs.len() {
        s
    } else {
        survivors(s, idxs, k + 1).remove(idxs[k] as int)
    }
}

/// Strictly ascending indices grow at least as fast as their positions.
proof fn lemma_ascending_gap(idxs: Seq<usize>, p: int, q: int)
    requires
        forall|a: int, b: int| 0 <= a < b < idxs.len() ==> idxs[a] < idxs[b],
        0 <= p <= q < idxs.len(),
    ensures
        idxs[q] >= idxs[p] + (q - p),
    decreases q - p,
{
    if p < q {
        lemma_ascending_gap(idxs, p, q - 1);
    }
}

/// One swap-remove step removes exactly the element at the slot from the
/// multiset.
proof fn lemma_swap_remove_multiset<T>(t: Seq<T>, i: int)
    requires
        0 <= i < t.len(),
    ensures
        t.update(i, t.last()).drop_last().to_multiset() == t.to_multiset().remove(t[i]),
{
    broadcast use vstd::seq_lib::group_to_multiset_ensures;
    broadcast use vstd::multiset::group_multiset_axioms;

    let u = t.update(i, t.last());
    assert(u.drop_last() =~= u.remove(u.len() - 1));
    if i == t.len() - 1 {
        assert(u =~= t);
        assert(u.remove(u.len() - 1).to_multiset() == u.to_multiset().remove(u[u.len() - 1]));
        assert(t.update(i, t.last()).drop_last().to_multiset() =~= t.to_multiset().remove(t[i]));
    } else {
        assert(u.to_multiset() == t.to_multiset().insert(t.last()).remove(t[i]));
        assert(u[u.len() - 1] == t.last());
        assert(u.remove(u.len() - 1).to_multiset() == u.to_multiset().remove(t.last()));
        assert(t.to_multiset().count(t[i]) > 0) by {
            assert(t.contains(t[i]));
        }
        assert(t.to_multiset().insert(t.last()).remove(t[i]).remove(t.last())
            =~= t.to_multiset().remove(t[i]));
    }
}

/// Shape of a partially processed removal: lengths, the untouched prefix
/// below the next index to process, and the multiset agreement between
/// the swap-remove result and the order-preserving survivors.
proof fn lemma_remove_desc_props<T>(s: Seq<T>, idxs: Seq<usize>, k: int)
    requires
        valid_removal(idxs, s.len() as int),
        0 <= k <= idxs.len(),
    ensures
        remove_desc(s, idxs, k).len() == s.len() - (idxs.len() - k),
        survivors(s, idxs, k).len() == s.len() - (idxs.len() - k),
        forall|i: int|
            0 <= i < (if k < idxs.len() {
                idxs[k] as int
            } else {
                s.len() as int
            }) ==> #[trigger] remove_desc(s, idxs, k)[i] == s[i],
        forall|i: int|
            0 <= i < (if k < idxs.len() {
                idxs[k] as int
            } else {
                s.len() as int
            }) ==> #[trigger] survivors(s, idxs, k)[i] == s[i],
        remove_desc(s, idxs, k).to_multiset() == survivors(s, idxs, k).to_multiset(),
        forall|x: T|
            #[trigger] remove_desc(s, idxs, k).to_multiset().count(x) <= s.to_multiset().count(x),
    decreases idxs.len() - k,
{
    broadcast use vstd::seq_lib::group_to_multiset_ensures;
    broadcast use vstd::multiset::group_multiset_axioms;

    if k < idxs.len() {
        lemma_remove_desc_props(s, idxs, k + 1);
        let t = remove_desc(s, idxs, k + 1);
        let u = survivors(s, idxs, k + 1);
        let i = idxs[k] as int;
        if k + 1 < idxs.len() {
            lemma_ascending_gap(idxs, k, k + 1);
            lemma_ascending_gap(idxs, k + 1, idxs.len() - 1);
        }
        assert(i < t.len());
        assert(t[i] == s[i]);
        assert(u[i] == s[i]);
        lemma_swap_remove_multiset(t, i);
        assert(u.remove(i).to_multiset() == u.to_multiset().remove(u[i]));
        assert(remove_desc(s, idxs, k).to_multiset() == survivors(s, idxs, k).to_multiset());
    }
}

/// Remove the listed indices from `v` by sorted-descending swap-removes:
/// indices are processed from the highest down, each removed slot is
/// refilled with the then-last element, so earlier-collected indices
/// stay valid despite prior removals in the same pass.
pub fn remove_indices<T>(v: &mut Vec<T>, idxs: &Vec<usize>)
    requires
        valid_removal(idxs@, old(v)@.len() as int),
    ensures
        final(v)@ == remove_desc(old(v)@, idxs@, 0),
        final(v)@.len() == old(v)@.len() - idxs@.len(),
        final(v)@.to_multiset() == survivors(old(v)@, idxs@, 0).to_multiset(),
        forall|k: int| 0 <= k < final(v)@.len() ==> old(v)@.contains(#[trigger] final(v)@[k]),
{
    let ghost s = v@;
    let mut k: usize = idxs.len();
    while k > 0
        invariant
            valid_removal(idxs@, s.len() as int),
            k <= idxs@.len(),
            v@ == remove_desc(s, idxs@, k as int),
        decreases k,
    {
        k = k - 1;
        proof {
            lemma_remove_desc_props(s, idxs@, k as int + 1);
            if k as int + 1 < idxs@.len() {
                lemma_ascending_gap(idxs@, k as int, idxs@.len() - 1);
            }
        }
        let i = idxs[k];
        v.swap_remove(i);
    }
    proof {
        broadcast use vstd::seq_lib::group_to_multiset_ensures;
        broadcast use vstd::multiset::group_multiset_axioms;

        lemma_remove_desc_props(s, idxs@, 0);
        assert forall|k: int| 0 <= k < v@.len() implies s.contains(#[trigger] v@[k]) by {
            assert(v@.contains(v@[k]));
            assert(v@.to_multiset().count(v@[k]) > 0);
            assert(s.to_multiset().count(v@[k]) > 0);
        }
    }
}

/// Removal-index compaction law: removing a strictly ascending index set
/// via sorted-descending swap-removes leaves exactly the elements at the
/// surviving positions — the same multiset the order-preserving removal
/// leaves, no matter how the swaps shuffled them.
pub proof fn lemma_removal_compaction<T>(s: Seq<T>, idxs: Seq<usize>)
    requires
        valid_removal(idxs, s.len() as int),
    ensures
        remove_desc(s, idxs, 0).to_multiset() == survivors(s, idxs, 0).to_multiset(),
        remove_desc(s, idxs, 0).len() == s.len() - idxs.len(),
{
    lemma_remove_desc_props(s, idxs, 0);
}

/// Overlap is symmetric: `a` overlaps `b` exactly when `b` overlaps `a`,
/// with the same extents.
pub proof fn lemma_overlap_symmetric(a: Rect, b: Rect)
    ensures
        rects_overlap(a, b) == rects_overlap(b, a),
        x_extent(a, b) == x_extent(b, a),
        y_extent(a, b) == y_extent(b, a),
{
}

/// The all-pairs contact lists of two single rects, taken in either
/// order, agree in length, and are nonempty exactly when the two
/// rects overlap: the existence of a contact is symmetric in the
/// order of the groups.
pub proof fn lemma_generate_symmetric(a: Rect, b: Rect)
    ensures
        all_pairs(seq![a], seq![b], 1).len() == all_pairs(seq![b], seq![a], 1).len(),
        all_pairs(seq![a], seq![b], 1).len() > 0 <==> rects_overlap(a, b),
        all_pairs(seq![b], seq![a], 1).len() > 0 <==> rects_overlap(b, a),
{
    lemma_overlap_symmetric(a, b);
    let sa: Seq<Rect> = seq![a];
    let sb: Seq<Rect> = seq![b];
    assert(sa[0] == a && sb[0] == b && sa.len() == 1 && sb.len() == 1);
    assert(all_pairs(sa, sb, 0) == Seq::<Contact>::empty());
    assert(all_pairs(sb, sa, 0) == Seq::<Contact>::empty());
    assert(all_pairs(sa, sb, 1) == all_pairs(sa, sb, 0) + row_pairs(0, sa[0], sb, sb.len() as int));
    assert(all_pairs(sb, sa, 1) == all_pairs(sb, sa, 0) + row_pairs(0, sb[0], sa, sa.len() as int));
    assert(all_pairs(sa, sb, 1) =~= row_pairs(0, a, sb, 1));
    assert(all_pairs(sb, sa, 1) =~= row_pairs(0, b, sa, 1));
    assert(row_pairs(0, a, sb, 0) == Seq::<Contact>::empty());
    assert(row_pairs(0, b, sa, 0) == Seq::<Contact>::empty());
    assert(row_pairs(0, a, sb, 1) == (if rects_overlap(a, sb[0]) {
        row_pairs(0, a, sb, 0).push(overlap_contact(0, a, 0, sb[0]))
    } else {
        row_pairs(0, a, sb, 0)
    }));
    assert(row_pairs(0, b, sa, 1) == (if rects_overlap(b, sa[0]) {
        row_pairs(0, b, sa, 0).push(overlap_contact(0, b, 0, sa[0]))
    } else {
        row_pairs(0, b, sa, 0)
    }));
    assert(row_pairs(0, a, sb, 1).len() == (if rects_overlap(a, b) {
        1int
    } else {
        0int
    }));
    assert(row_pairs(0, b, sa, 1).len() == (if rects_overlap(b, a) {
        1int
    } else {
        0int
    }));
}

/// The minimum-translation displacements of an overlapping pair are
/// opposite, provided the anchors differ on the pushed axis (with equal
/// anchors both sides are pushed the same way and the law cannot hold).
pub proof fn lemma_displacement_antisymmetric(a: Rect, b: Rect)
    requires
        rects_overlap(a, b),
        x_extent(a, b) < y_extent(a, b) ==> a.x != b.x,
        x_extent(a, b) >= y_extent(a, b) ==> a.y != b.y,
    ensures
        spec_displacement(a, b).x == -spec_displacement(b, a).x,
        spec_displacement(a, b).y == -spec_displacement(b, a).y,
{
    lemma_overlap_symmetric(a, b);
}

/// `r` translated by `d`.
pub open spec fn moved_by(r: Rect, d: Vec2) -> Rect {
    Rect { x: (r.x + d.x) as i64, y: (r.y + d.y) as i64, w: r.w, h: r.h }
}

/// Neither rect's span strictly contains the other's along the x axis:
/// the left edges and the right edges are ordered the same way.
pub open spec fn no_x_containment(a: Rect, b: Rect) -> bool {
    &&& a.x < b.x ==> a.x + a.w <= b.x + b.w
    &&& a.x >= b.x ==> b.x + b.w <= a.x + a.w
}

/// Neither rect's span strictly contains the other's along the y axis.
pub open spec fn no_y_containment(a: Rect, b: Rect) -> bool {
    &&& a.y < b.y ==> a.y + a.h <= b.y + b.h
    &&& a.y >= b.y ==> b.y + b.h <= a.y + a.h
}

/// Applying the minimum-translation displacement once separates the two
/// rects: re-testing overlap between the moved rect and the static one
/// finds none. Needs the spans not to strictly contain one another on
/// the pushed axis (a rect buried inside a wider one cannot be freed by
/// one axis push of the overlap extent).
pub proof fn lemma_displacement_separates(a: Rect, b: Rect)
    requires
        a.wf(),
        b.wf(),
        rects_overlap(a, b),
        x_extent(a, b) < y_extent(a, b) ==> no_x_containment(a, b),
        x_extent(a, b) >= y_extent(a, b) ==> no_y_containment(a, b),
    ensures
        !rects_overlap(moved_by(a, spec_displacement(a, b)), b),
{
}

/// Equal-size boxes never contain one another, so one displacement
/// always separates them.
pub proof fn lemma_displacement_separates_same_size(a: Rect, b: Rect)
    requires
        a.wf(),
        b.wf(),
        rects_overlap(a, b),
        a.w == b.w,
        a.h == b.h,
    ensures
        !rects_overlap(moved_by(a, spec_displacement(a, b)), b),
{
    lemma_displacement_separates(a, b);
}

/// The point `(px, py)` lies in the half-open area of `r`.
pub open spec fn point_in_rect(px: int, py: int, r: Rect) -> bool {
    r.x <= px < r.x + r.w && r.y <= py < r.y + r.h
}

/// A non-overlapping, non-empty rect keeps its center point outside the
/// other rect's area.
pub proof fn lemma_no_overlap_center_outside(a: Rect, b: Rect)
    requires
        1 <= a.w,
        1 <= a.h,
        !rects_overlap(a, b),
    ensures
        !point_in_rect(a.x + a.w / 2, a.y + a.h / 2, b),
{
    assert(0 <= a.w / 2 < a.w);
    assert(0 <= a.h / 2 < a.h);
}

/// After a tile-contact resolution step, the entity's rectangle center
/// cannot land inside the solid tile it was pushed out of: either the
/// rects did not overlap (the displacement is zero and the center was
/// outside the tile already), or the push separates them and the center
/// of the separated rect stays outside.
pub proof fn lemma_resolution_center_outside(a: Rect, b: Rect)
    requires
        a.wf(),
        b.wf(),
        1 <= a.w,
        1 <= a.h,
        a.w == b.w,
        a.h == b.h,
    ensures
        ({
            let m = moved_by(a, spec_displacement(a, b));
            !point_in_rect(m.x + m.w / 2, m.y + m.h / 2, b)
        }),
{
    let m = moved_by(a, spec_displacement(a, b));
    if rects_overlap(a, b) {
        lemma_displacement_separates_same_size(a, b);
        lemma_no_overlap_center_outside(m, b);
    } else {
        assert(m == a);
        lemma_no_overlap_center_outside(a, b);
    }
}

} // verus!
