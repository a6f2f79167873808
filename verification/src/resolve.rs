//! Applying resolved contacts: walk a (deepest-first) contact list and
//! add each minimum-translation displacement to the owning entity's
//! stored position. Displacements are always computed against the
//! pre-pass rectangles, as the contact records carry them.

use vstd::prelude::*;
use vstd::pervasive::VecAdditionalExecFns;

use crate::contact::{
    lemma_no_overlap_center_outside, lemma_displacement_separates_same_size, moved_by,
    point_in_rect, spec_displacement, Contact, find_displacement,
};
use crate::geom::{
    rects_overlap, spec_add_clamped, spec_make_rect, Rect, Vec2, TILE, WORLD_LIMIT,
};

verus! {

/// One position pushed out of every contacted tile in list order, each
/// displacement computed against the fixed pre-pass rect `base`.
pub open spec fn spec_resolve_pos(pos: Vec2, base: Rect, contacts: Seq<Contact>, j: int) -> Vec2
    decreases j,
{
    if j <= 0 {
        pos
    } else {
        let p = spec_resolve_pos(pos, base, contacts, j - 1);
        spec_add_clamped(p, spec_displacement(base, contacts[j - 1].b_rect))
    }
}

/// Resolve one entity against its tile contacts: add the displacement
/// out of each contacted tile to the position, in list order.
pub fn resolve_pos(pos: Vec2, base: Rect, contacts: &Vec<Contact>) -> (r: Vec2)
    requires
        pos.wf(),
        pos.in_world(),
        base.wf(),
        forall|k: int| 0 <= k < contacts@.len() ==> (#[trigger] contacts@[k]).b_rect.wf(),
    ensures
        r == spec_resolve_pos(pos, base, contacts@, contacts@.len() as int),
        r.wf(),
        r.in_world(),
{
    let mut p = pos;
    let mut j: usize = 0;
    while j < contacts.len()
        invariant
            pos.wf(),
            pos.in_world(),
            base.wf(),
            forall|k: int| 0 <= k < contacts@.len() ==> (#[trigger] contacts@[k]).b_rect.wf(),
            j <= contacts@.len(),
            p == spec_resolve_pos(pos, base, contacts@, j as int),
            p.wf(),
            p.in_world(),
        decreases contacts@.len() - j,
    {
        let d = find_displacement(base, contacts[j].b_rect);
        p = p.add_clamped(d);
        j = j + 1;
    }
    p
}

/// A group of positions pushed out of their contacted tiles in list
/// order; `contacts[k].a_index` owns the push, and the displacement is
/// computed against that entity's fixed pre-pass rect.
pub open spec fn spec_resolve_group(
    positions: Seq<Vec2>,
    rects: Seq<Rect>,
    contacts: Seq<Contact>,
    j: int,
) -> Seq<Vec2>
    decreases j,
{
    if j <= 0 {
        positions
    } else {
        let prev = spec_resolve_group(positions, rects, contacts, j - 1);
        let c = contacts[j - 1];
        let i = c.a_index as int;
        prev.update(i, spec_add_clamped(prev[i], spec_displacement(rects[i], c.b_rect)))
    }
}

/// Resolve a whole group against its tile contacts: for each contact in
/// list order, push the owning entity's position out of the contacted
/// tile.
pub fn resolve_group(positions: &mut Vec<Vec2>, rects: &Vec<Rect>, contacts: &Vec<Contact>)
    requires
        old(positions)@.len() == rects@.len(),
        forall|k: int|
            0 <= k < old(positions)@.len() ==> (#[trigger] old(positions)@[k]).wf() && old(
                positions)@[k].in_world(),
        forall|k: int| 0 <= k < rects@.len() ==> (#[trigger] rects@[k]).wf(),
        forall|k: int|
            0 <= k < contacts@.len() ==> (#[trigger] contacts@[k]).b_rect.wf()
                && contacts@[k].a_index < rects@.len(),
    ensures
        final(positions)@ == spec_resolve_group(
            old(positions)@,
            rects@,
            contacts@,
            contacts@.len() as int,
        ),
        final(positions)@.len() == old(positions)@.len(),
        forall|k: int|
            0 <= k < final(positions)@.len() ==> (#[trigger] final(positions)@[k]).wf() && final(
                positions)@[k].in_world(),
{
    let ghost pos0 = positions@;
    let mut j: usize = 0;
    while j < contacts.len()
        invariant
            pos0.len() == rects@.len(),
            forall|k: int| 0 <= k < rects@.len() ==> (#[trigger] rects@[k]).wf(),
            forall|k: int|
                0 <= k < contacts@.len() ==> (#[trigger] contacts@[k]).b_rect.wf()
                    && contacts@[k].a_index < rects@.len(),
            j <= contacts@.len(),
            positions@ == spec_resolve_group(pos0, rects@, contacts@, j as int),
            positions@.len() == pos0.len(),
            forall|k: int|
                0 <= k < positions@.len() ==> (#[trigger] positions@[k]).wf()
                    && positions@[k].in_world(),
        decreases contacts@.len() - j,
    {
        let c = contacts[j];
        let i = c.a_index;
        let d = find_displacement(rects[i], c.b_rect);
        let moved = positions[i].add_clamped(d);
        positions.set(i, moved);
        j = j + 1;
    }
}

/// A tile-contact resolution pass with one contact leaves the entity
/// clear of the solid tile: its collision box no longer overlaps the
/// tile's rect, and in particular its position — the box's center —
/// does not land inside the tile. (With several simultaneous contacts
/// the summed pushes carry no such guarantee.)
pub proof fn lemma_tile_pass_clears_tile(pos: Vec2, tile: Rect, contacts: Seq<Contact>)
    requires
        pos.wf(),
        -WORLD_LIMIT + 2 * TILE <= pos.x <= WORLD_LIMIT - 2 * TILE,
        -WORLD_LIMIT + 2 * TILE <= pos.y <= WORLD_LIMIT - 2 * TILE,
        tile.wf(),
        tile.w == TILE,
        tile.h == TILE,
        contacts.len() == 1,
        contacts[0].b_rect == tile,
    ensures
        ({
            let new_pos = spec_resolve_pos(pos, spec_make_rect(pos), contacts, 1);
            let moved = Rect {
                x: (spec_make_rect(pos).x + (new_pos.x - pos.x)) as i64,
                y: (spec_make_rect(pos).y + (new_pos.y - pos.y)) as i64,
                w: TILE,
                h: TILE,
            };
            &&& !rects_overlap(moved, tile)
            &&& !point_in_rect(new_pos.x as int, new_pos.y as int, tile)
        }),
{
    let base = spec_make_rect(pos);
    let d = spec_displacement(base, tile);
    assert(-TILE <= d.x <= TILE && -TILE <= d.y <= TILE);
    let new_pos = spec_resolve_pos(pos, base, contacts, 1);
    assert(spec_resolve_pos(pos, base, contacts, 0) == pos);
    assert(new_pos == spec_add_clamped(pos, d));
    // Far enough from the world edge, the clamp is inert.
    assert(new_pos.x == pos.x + d.x && new_pos.y == pos.y + d.y);
    let m = moved_by(base, d);
    if rects_overlap(base, tile) {
        lemma_displacement_separates_same_size(base, tile);
    }
    lemma_no_overlap_center_outside(m, tile);
    // The moved box's center is exactly the moved position.
    assert(m.x + m.w / 2 == new_pos.x && m.y + m.h / 2 == new_pos.y);
}

} // verus!
