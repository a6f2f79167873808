//! The secondary actor group of the simulation variant: knights that
//! seek the nearest enemy, collide with solid tiles, and trade hits
//! with the enemies they reach.

use vstd::prelude::*;
use vstd::pervasive::VecAdditionalExecFns;

use crate::combat::Event;
use crate::contact::{
    all_pairs, contains_idx, generate_contact, generate_tile_contact, lemma_all_pairs_props,
    lemma_perm_preserves, lemma_sorted_unique_ascending, lemma_tile_all_props, remove_indices,
    sort_contacts, sort_indices, spec_displacement, valid_removal, Contact, find_displacement,
};
use crate::geom::{make_rect, spec_add_clamped, spec_normalize_scaled, Pos, Rect, Vec2, TILE};
use crate::grid::Level;
use crate::resolve::resolve_group;
use crate::rng::gen_range_i64;
use crate::sim::ENEMY_SPEED;
use crate::world::{first_spawn_ok, spawn_ok, EnemyState, World, SPAWN_ATTEMPTS};

verus! {

/// Health a fresh knight starts with.
pub const KNIGHT_HEALTH: u32 = 3;

/// A knight: a hunting actor with its own health.
#[derive(Clone, Copy, Debug, PartialEq, Eq, Structural)]
pub struct Knight {
    pub health: u32,
    pub pos: Vec2,
}

/// Squared distance between two points.
pub open spec fn dist_sq(a: Vec2, b: Vec2) -> int {
    (a.x - b.x) * (a.x - b.x) + (a.y - b.y) * (a.y - b.y)
}

/// The position of the nearest enemy among `enemies[0..j]`, measured
/// by squared distance from `pos`, starting from the fallback
/// candidate; an earlier enemy wins a tie.
pub open spec fn spec_nearest(
    pos: Vec2,
    enemies: Seq<(Pos, EnemyState)>,
    default: Vec2,
    j: int,
) -> Vec2
    decreases j,
{
    if j <= 0 {
        default
    } else {
        let prev = spec_nearest(pos, enemies, default, j - 1);
        let e = enemies[j - 1].0.pos;
        if dist_sq(e, pos) < dist_sq(prev, pos) {
            e
        } else {
            prev
        }
    }
}

impl Knight {
    /// The nearest enemy position, or the fallback when no enemy beats
    /// it. Distances compare by squared magnitude, which orders them
    /// as their roots would.
    pub fn find_enemy(
        &self,
        enemies: &Vec<(Pos, EnemyState)>,
        default: Vec2,
    ) -> (r: Vec2)
        requires
            self.pos.wf(),
            self.pos.in_world(),
            default.wf(),
            default.in_world(),
            forall|i: int|
                0 <= i < enemies@.len() ==> (#[trigger] enemies@[i]).0.pos.wf()
                    && enemies@[i].0.pos.in_world(),
        ensures
            r == spec_nearest(self.pos, enemies@, default, enemies@.len() as int),
            r.wf(),
            r.in_world(),
    {
        let mut closest = default;
        let mut i: usize = 0;
        while i < enemies.len()
            invariant
                self.pos.wf(),
                self.pos.in_world(),
                forall|k: int|
                    0 <= k < enemies@.len() ==> (#[trigger] enemies@[k]).0.pos.wf()
                        && enemies@[k].0.pos.in_world(),
                i <= enemies@.len(),
                closest == spec_nearest(self.pos, enemies@, default, i as int),
                closest.wf(),
                closest.in_world(),
            decreases enemies@.len() - i,
        {
            let (e, _state) = enemies[i];
            let de = e.pos.sub(self.pos).mag_sq();
            let dc = closest.sub(self.pos).mag_sq();
            if de < dc {
                closest = e.pos;
            }
            i = i + 1;
        }
        closest
    }
}

/// A knight's seek step: walk at enemy speed toward the target along
/// the normalized direction; standing exactly on the target moves
/// nowhere (the zero vector normalizes to the zero vector).
pub open spec fn spec_knight_step(k: Knight, target: Vec2) -> Knight {
    let dir = Vec2 { x: (target.x - k.pos.x) as i64, y: (target.y - k.pos.y) as i64 };
    Knight {
        health: k.health,
        pos: spec_add_clamped(k.pos, spec_normalize_scaled(dir, ENEMY_SPEED as int)),
    }
}

/// Step one knight toward its target.
pub fn knight_step(k: Knight, target: Vec2) -> (r: Knight)
    requires
        k.pos.wf(),
        k.pos.in_world(),
        target.wf(),
        target.in_world(),
    ensures
        r == spec_knight_step(k, target),
        r.pos.wf(),
        r.pos.in_world(),
{
    let dir = target.sub(k.pos);
    let delta = dir.normalize_scaled(ENEMY_SPEED);
    proof {
        crate::geom::lemma_normalize_bounded(dir, ENEMY_SPEED as int);
    }
    Knight { health: k.health, pos: k.pos.add_clamped(delta) }
}

/// Let every knight seek the enemy nearest to it and walk one step.
pub fn knights_move(
    knights: &mut Vec<Knight>,
    enemies: &Vec<(Pos, EnemyState)>,
    default: Vec2,
)
    requires
        forall|i: int|
            0 <= i < old(knights)@.len() ==> (#[trigger] old(knights)@[i]).pos.wf() && old(
                knights)@[i].pos.in_world(),
        forall|i: int|
            0 <= i < enemies@.len() ==> (#[trigger] enemies@[i]).0.pos.wf()
                && enemies@[i].0.pos.in_world(),
        default.wf(),
        default.in_world(),
    ensures
        final(knights)@.len() == old(knights)@.len(),
        forall|i: int|
            0 <= i < final(knights)@.len() ==> (#[trigger] final(knights)@[i])
                == spec_knight_step(
                old(knights)@[i],
                spec_nearest(old(knights)@[i].pos, enemies@, default, enemies@.len() as int),
            ),
        forall|i: int|
            0 <= i < final(knights)@.len() ==> (#[trigger] final(knights)@[i]).pos.wf() && final(
                knights)@[i].pos.in_world(),
{
    let n = knights.len();
    let mut i: usize = 0;
    while i < n
        invariant
            n == knights@.len(),
            n == old(knights)@.len(),
            i <= n,
            forall|k: int|
                0 <= k < enemies@.len() ==> (#[trigger] enemies@[k]).0.pos.wf()
                    && enemies@[k].0.pos.in_world(),
            default.wf(),
            default.in_world(),
            forall|k: int|
                i <= k < n ==> (#[trigger] knights@[k]) == old(knights)@[k],
            forall|k: int|
                i <= k < n ==> (#[trigger] knights@[k]).pos.wf() && knights@[k].pos.in_world(),
            forall|k: int|
                0 <= k < i ==> (#[trigger] knights@[k]) == spec_knight_step(
                    old(knights)@[k],
                    spec_nearest(old(knights)@[k].pos, enemies@, default, enemies@.len() as int),
                ),
            forall|k: int|
                0 <= k < i ==> (#[trigger] knights@[k]).pos.wf() && knights@[k].pos.in_world(),
        decreases n - i,
    {
        let k = knights[i];
        let target = k.find_enemy(enemies, default);
        let stepped = knight_step(k, target);
        knights.set(i, stepped);
        i = i + 1;
    }
}

/// Enemy indices removed by the knight contact pass: one entry per
/// contact whose enemy was not already collected, in contact order.
pub open spec fn knight_removals(contacts: Seq<Contact>, j: int) -> Seq<usize>
    decreases j,
{
    if j <= 0 {
        Seq::empty()
    } else {
        let rest = knight_removals(contacts, j - 1);
        let c = contacts[j - 1];
        if !rest.contains(c.b_index) {
            rest.push(c.b_index)
        } else {
            rest
        }
    }
}

/// Enemy roster after the knight pass: each removed enemy is also
/// pushed away from the knight that hit it, against the pre-pass rects.
pub open spec fn knight_pass_enemies(
    enemies: Seq<(Pos, EnemyState)>,
    contacts: Seq<Contact>,
    krects: Seq<Rect>,
    erects: Seq<Rect>,
    j: int,
) -> Seq<(Pos, EnemyState)>
    decreases j,
{
    if j <= 0 {
        enemies
    } else {
        let prev = knight_pass_enemies(enemies, contacts, krects, erects, j - 1);
        let c = contacts[j - 1];
        let b = c.b_index as int;
        if !knight_removals(contacts, j - 1).contains(c.b_index) {
            prev.update(
                b,
                (
                    Pos {
                        pos: spec_add_clamped(
                            prev[b].0.pos,
                            spec_displacement(krects[c.a_index as int], erects[b]),
                        ),
                        dir: prev[b].0.dir,
                    },
                    prev[b].1,
                ),
            )
        } else {
            prev
        }
    }
}

/// Knight healths after the pass: each accepted contact costs its
/// knight one health point, stopping at zero.
pub open spec fn knight_pass_knights(
    knights: Seq<Knight>,
    contacts: Seq<Contact>,
    j: int,
) -> Seq<Knight>
    decreases j,
{
    if j <= 0 {
        knights
    } else {
        let prev = knight_pass_knights(knights, contacts, j - 1);
        let c = contacts[j - 1];
        let a = c.a_index as int;
        if !knight_removals(contacts, j - 1).contains(c.b_index) {
            prev.update(
                a,
                Knight {
                    health: if prev[a].health > 0 {
                        (prev[a].health - 1) as u32
                    } else {
                        0u32
                    },
                    pos: prev[a].pos,
                },
            )
        } else {
            prev
        }
    }
}

/// The knight removal list never names an enemy twice, and stays
/// inside the roster.
pub proof fn lemma_knight_removals_props(contacts: Seq<Contact>, j: int, n: int)
    requires
        forall|k: int| 0 <= k < contacts.len() ==> (#[trigger] contacts[k]).b_index < n,
        j <= contacts.len(),
    ensures
        knight_removals(contacts, j).no_duplicates(),
        forall|k: int|
            0 <= k < knight_removals(contacts, j).len() ==> (#[trigger] knight_removals(
                contacts,
                j,
            )[k]) < n,
    decreases j,
{
    if j > 0 {
        lemma_knight_removals_props(contacts, j - 1, n);
        let rest = knight_removals(contacts, j - 1);
        let whole = knight_removals(contacts, j);
        let c = contacts[j - 1];
        if !rest.contains(c.b_index) {
            assert forall|k: int| 0 <= k < whole.len() implies (#[trigger] whole[k]) < n by {
                if k < rest.len() {
                    assert(whole[k] == rest[k]);
                } else {
                    assert(whole[k] == c.b_index);
                }
            }
            assert forall|p: int, q: int|
                0 <= p < q < whole.len() implies whole[p] != whole[q] by {
                if q < rest.len() {
                } else {
                    assert(whole[q] == c.b_index);
                    assert(whole[p] == rest[p]);
                    assert(rest.contains(rest[p]));
                }
            }
        }
    }
}

/// Run the knight-vs-enemy contact pass: each contact whose enemy is
/// not yet collected removes that enemy (pushing it away from the
/// knight) and costs the knight one health point. Returns the enemy
/// removal list in collection order.
pub fn knight_classify(
    knights: &mut Vec<Knight>,
    enemies: &mut Vec<(Pos, EnemyState)>,
    contacts: &Vec<Contact>,
    krects: &Vec<Rect>,
    erects: &Vec<Rect>,
) -> (removed: Vec<usize>)
    requires
        old(knights)@.len() == krects@.len(),
        old(enemies)@.len() == erects@.len(),
        forall|k: int| 0 <= k < krects@.len() ==> (#[trigger] krects@[k]).wf(),
        forall|k: int| 0 <= k < erects@.len() ==> (#[trigger] erects@[k]).wf(),
        forall|k: int|
            0 <= k < old(enemies)@.len() ==> (#[trigger] old(enemies)@[k]).0.pos.wf() && old(
                enemies)@[k].0.pos.in_world(),
        forall|k: int|
            0 <= k < old(knights)@.len() ==> (#[trigger] old(knights)@[k]).pos.wf() && old(
                knights)@[k].pos.in_world(),
        forall|k: int|
            0 <= k < contacts@.len() ==> (#[trigger] contacts@[k]).b_index < erects@.len()
                && contacts@[k].a_index < krects@.len(),
    ensures
        final(enemies)@ == knight_pass_enemies(
            old(enemies)@,
            contacts@,
            krects@,
            erects@,
            contacts@.len() as int,
        ),
        final(enemies)@.len() == old(enemies)@.len(),
        forall|k: int|
            0 <= k < final(enemies)@.len() ==> (#[trigger] final(enemies)@[k]).0.pos.wf()
                && final(enemies)@[k].0.pos.in_world(),
        final(knights)@ == knight_pass_knights(old(knights)@, contacts@, contacts@.len() as int),
        final(knights)@.len() == old(knights)@.len(),
        forall|k: int|
            0 <= k < final(knights)@.len() ==> (#[trigger] final(knights)@[k]).pos.wf() && final(
                knights)@[k].pos.in_world(),
        removed@ == knight_removals(contacts@, contacts@.len() as int),
{
    let mut removed: Vec<usize> = Vec::new();
    let mut j: usize = 0;
    while j < contacts.len()
        invariant
            knights@.len() == krects@.len(),
            old(knights)@.len() == krects@.len(),
            old(enemies)@.len() == erects@.len(),
            forall|k: int| 0 <= k < krects@.len() ==> (#[trigger] krects@[k]).wf(),
            forall|k: int| 0 <= k < erects@.len() ==> (#[trigger] erects@[k]).wf(),
            forall|k: int|
                0 <= k < old(enemies)@.len() ==> (#[trigger] old(enemies)@[k]).0.pos.wf() && old(
                    enemies)@[k].0.pos.in_world(),
            forall|k: int|
                0 <= k < contacts@.len() ==> (#[trigger] contacts@[k]).b_index < erects@.len()
                    && contacts@[k].a_index < krects@.len(),
            j <= contacts@.len(),
            enemies@ == knight_pass_enemies(old(enemies)@, contacts@, krects@, erects@, j as int),
            enemies@.len() == old(enemies)@.len(),
            forall|k: int|
                0 <= k < enemies@.len() ==> (#[trigger] enemies@[k]).0.pos.wf()
                    && enemies@[k].0.pos.in_world(),
            knights@ == knight_pass_knights(old(knights)@, contacts@, j as int),
            forall|k: int|
                0 <= k < knights@.len() ==> (#[trigger] knights@[k]).pos.wf()
                    && knights@[k].pos.in_world(),
            removed@ == knight_removals(contacts@, j as int),
        decreases contacts@.len() - j,
    {
        let c = contacts[j];
        if !contains_idx(&removed, c.b_index) {
            let b = c.b_index;
            let a = c.a_index;
            let d = find_displacement(krects[a], erects[b]);
            let (old_pos, state) = enemies[b];
            enemies.set(b, (Pos { pos: old_pos.pos.add_clamped(d), dir: old_pos.dir }, state));
            removed.push(b);
            let hit = knights[a];
            let new_health = if hit.health > 0 {
                hit.health - 1
            } else {
                0
            };
            knights.set(a, Knight { health: new_health, pos: hit.pos });
        }
        j = j + 1;
    }
    removed
}

/// The indices of knights whose health has run out, in ascending
/// order: ready for sorted-descending swap-removal.
pub fn fallen_knights(knights: &Vec<Knight>) -> (idxs: Vec<usize>)
    ensures
        valid_removal(idxs@, knights@.len() as int),
        forall|k: int|
            0 <= k < idxs@.len() ==> knights@[#[trigger] idxs@[k] as int].health == 0,
        forall|i: int|
            0 <= i < knights@.len() && knights@[i].health == 0 ==> idxs@.contains(i as usize),
{
    let mut idxs: Vec<usize> = Vec::new();
    let mut i: usize = 0;
    while i < knights.len()
        invariant
            i <= knights@.len(),
            forall|p: int, q: int| 0 <= p < q < idxs@.len() ==> idxs@[p] < idxs@[q],
            forall|k: int| 0 <= k < idxs@.len() ==> (#[trigger] idxs@[k]) < i,
            forall|k: int|
                0 <= k < idxs@.len() ==> knights@[#[trigger] idxs@[k] as int].health == 0,
            forall|p: int|
                0 <= p < i && knights@[p].health == 0 ==> idxs@.contains(p as usize),
        decreases knights@.len() - i,
    {
        if knights[i].health == 0 {
            let ghost before: Seq<usize> = idxs@;
            idxs.push(i);
            proof {
                assert(idxs@[idxs@.len() - 1] == i as usize);
                assert forall|p: int|
                    0 <= p < i + 1 && knights@[p].health == 0 implies idxs@.contains(
                    p as usize) by {
                    if p < i {
                        let w = choose|w: int| 0 <= w < before.len() && before[w] == p as usize;
                        assert(idxs@[w] == p as usize);
                    } else {
                        assert(idxs@[idxs@.len() - 1] == p as usize);
                    }
                }
            }
        }
        i = i + 1;
    }
    idxs
}

/// Deterministic core of knight spawning: add one fresh knight at the
/// first drawn candidate that is on free ground and outside the
/// player's exclusion radius; change nothing when no candidate is
/// acceptable.
pub fn spawn_knight_step(
    level: &Level,
    player: Vec2,
    knights: &mut Vec<Knight>,
    candidates: &Vec<Vec2>,
) -> (spawned: bool)
    requires
        level.wf(),
        player.wf(),
        forall|i: int|
            0 <= i < candidates@.len() ==> (#[trigger] candidates@[i]).wf()
                && candidates@[i].in_world(),
    ensures
        ({
            let found = first_spawn_ok(*level, player, candidates@, 0);
            &&& spawned <==> found is Some
            &&& !spawned ==> final(knights)@ == old(knights)@
            &&& spawned ==> final(knights)@ == old(knights)@.push(
                Knight { health: KNIGHT_HEALTH, pos: candidates@[found->0] },
            )
            &&& spawned ==> spawn_ok(*level, player, candidates@[found->0])
        }),
        final(knights)@.len() == old(knights)@.len() + (if spawned {
            1int
        } else {
            0int
        }),
{
    let mut k: usize = 0;
    while k < candidates.len()
        invariant
            level.wf(),
            player.wf(),
            knights@ == old(knights)@,
            forall|i: int|
                0 <= i < candidates@.len() ==> (#[trigger] candidates@[i]).wf()
                    && candidates@[i].in_world(),
            k <= candidates@.len(),
            first_spawn_ok(*level, player, candidates@, 0) == first_spawn_ok(
                *level,
                player,
                candidates@,
                k as int,
            ),
        decreases candidates@.len() - k,
    {
        let p = candidates[k];
        let dx = if p.x >= player.x {
            p.x - player.x
        } else {
            player.x - p.x
        };
        let dy = if p.y >= player.y {
            p.y - player.y
        } else {
            player.y - p.y
        };
        let too_close = dx < crate::world::SPAWN_EXCLUSION && dy < crate::world::SPAWN_EXCLUSION;
        let free = match level.get_tile_at(p) {
            Some(td) => !td.solid,
            None => false,
        };
        if free && !too_close {
            proof {
                assert(spawn_ok(*level, player, candidates@[k as int]));
                assert(first_spawn_ok(*level, player, candidates@, k as int) == Some(k as int));
            }
            knights.push(Knight { health: KNIGHT_HEALTH, pos: p });
            return true;
        }
        k = k + 1;
    }
    false
}

/// Knight spawning with the randomness drawn in: draw up to
/// `SPAWN_ATTEMPTS` positions at least two tiles inside the level's
/// edges and place a fresh knight at the first acceptable one. The
/// level must be at least five tiles wide and tall, so that an
/// interior exists to draw from.
pub fn spawn_knights(world: &World, knights: &mut Vec<Knight>, rng: &mut rand::rngs::ThreadRng)
    requires
        world.wf(),
        world.levels@[world.current_level as int].width >= 5,
        world.levels@[world.current_level as int].height >= 5,
    ensures
        final(knights)@.len() == old(knights)@.len() || final(knights)@.len() == old(
            knights)@.len() + 1,
        final(knights)@.len() == old(knights)@.len() ==> final(knights)@ == old(knights)@,
        final(knights)@.len() == old(knights)@.len() + 1 ==> ({
            let kn = final(knights)@.last();
            &&& final(knights)@ == old(knights)@.push(kn)
            &&& kn.health == KNIGHT_HEALTH
            &&& spawn_ok(
                world.levels@[world.current_level as int],
                world.player.pos,
                kn.pos,
            )
        }),
{
    let cl = world.current_level;
    let w_units = (world.levels[cl].width as i64) * TILE;
    let h_units = (world.levels[cl].height as i64) * TILE;
    proof {
        let gw = world.levels@[cl as int].width as int;
        let gh = world.levels@[cl as int].height as int;
        assert(5 * TILE <= gw * TILE <= 4096 * TILE) by (nonlinear_arith)
            requires
                5 <= gw <= 4096,
        ;
        assert(5 * TILE <= gh * TILE <= 4096 * TILE) by (nonlinear_arith)
            requires
                5 <= gh <= 4096,
        ;
    }
    let mut candidates: Vec<Vec2> = Vec::new();
    let mut t: usize = 0;
    while t < SPAWN_ATTEMPTS
        invariant
            5 * TILE <= w_units <= 4096 * TILE,
            5 * TILE <= h_units <= 4096 * TILE,
            forall|i: int|
                0 <= i < candidates@.len() ==> (#[trigger] candidates@[i]).wf()
                    && candidates@[i].in_world(),
        decreases SPAWN_ATTEMPTS - t,
    {
        let x = gen_range_i64(rng, 2 * TILE, w_units - 2 * TILE);
        let y = gen_range_i64(rng, 2 * TILE, h_units - 2 * TILE);
        candidates.push(Vec2 { x, y });
        t = t + 1;
    }
    spawn_knight_step(&world.levels[cl], world.player.pos, knights, &candidates);
}

/// The rects a knight roster presents to collision: one tile-sized
/// box centered on each knight.
pub open spec fn knight_rects_of(ks: Seq<Knight>) -> Seq<Rect> {
    Seq::new(ks.len(), |i: int| crate::geom::spec_make_rect(ks[i].pos))
}

/// The positions of a knight roster, in slot order.
pub open spec fn knight_positions_of(ks: Seq<Knight>) -> Seq<Vec2> {
    Seq::new(ks.len(), |i: int| ks[i].pos)
}

/// Everything the knight phase does, exactly, up to the tie order the
/// deepest-first sorts leave open: every knight seeks the nearest
/// enemy (the camera's far corner as fallback) and steps toward it;
/// `tkc` is a deepest-first ordering of the knight-vs-tile contacts
/// and the knights are resolved out of their tiles against it; `kc`
/// is a deepest-first ordering of the knight-vs-enemy contacts and
/// the hit pass runs over it; the struck enemies leave by the
/// ascending removal order `sr`, the fallen knights by `fallen`, and
/// the events are one removal per struck enemy, in collection order.
pub open spec fn knights_post(
    w0: World,
    k0: Seq<Knight>,
    w1: World,
    k1: Seq<Knight>,
    evs: Seq<Event>,
    tkc: Seq<Contact>,
    kc: Seq<Contact>,
    sr: Seq<usize>,
    fallen: Seq<usize>,
) -> bool {
    let lvl = w0.levels@[w0.current_level as int];
    let moved = Seq::new(
        k0.len(),
        |i: int| spec_knight_step(
            k0[i],
            spec_nearest(k0[i].pos, w0.enemies@, w0.camera.screen_size, w0.enemies@.len() as int),
        ),
    );
    let krects = knight_rects_of(moved);
    let erects = crate::sim::enemy_rects_of(w0.enemies@);
    let resolved = crate::resolve::spec_resolve_group(
        knight_positions_of(moved),
        krects,
        tkc,
        tkc.len() as int,
    );
    let knights2 = Seq::new(moved.len(), |i: int| Knight { health: moved[i].health, pos: resolved[i] });
    let enemies1 = knight_pass_enemies(w0.enemies@, kc, krects, erects, kc.len() as int);
    let knights3 = knight_pass_knights(knights2, kc, kc.len() as int);
    let removed = knight_removals(kc, kc.len() as int);
    &&& tkc.to_multiset() == crate::contact::tile_all(krects, lvl, krects.len() as int).to_multiset()
    &&& crate::contact::sorted_by_depth(tkc)
    &&& kc.to_multiset() == all_pairs(krects, erects, krects.len() as int).to_multiset()
    &&& crate::contact::sorted_by_depth(kc)
    &&& crate::contact::sorted_ascending(sr)
    &&& sr.to_multiset() == removed.to_multiset()
    &&& w1.enemies@ == crate::contact::remove_desc(enemies1, sr, 0)
    &&& valid_removal(fallen, knights3.len() as int)
    &&& (forall|k: int|
        0 <= k < fallen.len() ==> knights3[#[trigger] fallen[k] as int].health == 0)
    &&& (forall|i: int|
        0 <= i < knights3.len() && knights3[i].health == 0 ==> fallen.contains(i as usize))
    &&& k1 == crate::contact::remove_desc(knights3, fallen, 0)
    &&& evs == crate::sim::removal_events(removed, removed.len() as int)
    &&& w1.player == w0.player
    &&& w1.camera == w0.camera
    &&& w1.paused == w0.paused
    &&& w1.game_end == w0.game_end
    &&& w1.levels@ == w0.levels@
    &&& w1.current_level == w0.current_level
}

/// The knight part of one tick: every knight seeks and walks toward
/// the enemy nearest to it (the camera's far corner as fallback), is
/// pushed out of solid tiles deepest first, and trades hits with the
/// enemies it touches; hit enemies and fallen knights leave their
/// rosters by sorted-descending swap-removes. Returns one removal
/// event per enemy taken out. The whole phase is pinned by
/// `knights_post`, up to the tie order of the deepest-first sorts.
#[verifier::rlimit(100)]
pub fn knights_tick(world: &mut World, knights: &mut Vec<Knight>) -> (events: Vec<Event>)
    requires
        old(world).wf(),
        old(world).camera.screen_size.in_world(),
        forall|i: int|
            0 <= i < old(knights)@.len() ==> (#[trigger] old(knights)@[i]).pos.wf() && old(
                knights)@[i].pos.in_world(),
    ensures
        final(world).wf(),
        exists|tkc: Seq<Contact>, kc: Seq<Contact>, sr: Seq<usize>, fallen: Seq<usize>|
            #[trigger] knights_post(
                *old(world),
                old(knights)@,
                *final(world),
                final(knights)@,
                events@,
                tkc,
                kc,
                sr,
                fallen,
            ),
        final(world).levels@ == old(world).levels@,
        final(world).current_level == old(world).current_level,
        final(world).player == old(world).player,
        final(world).paused == old(world).paused,
        final(world).game_end == old(world).game_end,
        final(world).camera == old(world).camera,
        final(world).enemies@.len() <= old(world).enemies@.len(),
        final(knights)@.len() <= old(knights)@.len(),
        forall|i: int|
            0 <= i < final(knights)@.len() ==> (#[trigger] final(knights)@[i]).pos.wf() && final(
                knights)@[i].pos.in_world(),
{
    broadcast use vstd::seq_lib::group_to_multiset_ensures;
    broadcast use vstd::multiset::group_multiset_axioms;

    let ghost w0 = *world;
    let ghost k0 = knights@;
    let mut events: Vec<Event> = Vec::new();
    // Seek: walk each knight toward its nearest enemy.
    knights_move(knights, &world.enemies, world.camera.screen_size);
    let ghost moved = knights@;
    proof {
        assert(moved =~= Seq::new(
            k0.len(),
            |i: int| spec_knight_step(
                k0[i],
                spec_nearest(
                    k0[i].pos,
                    w0.enemies@,
                    w0.camera.screen_size,
                    w0.enemies@.len() as int,
                ),
            ),
        ));
    }
    // Collision rects.
    let cl = world.current_level;
    let n_knights = knights.len();
    let mut krects: Vec<Rect> = Vec::new();
    let mut i: usize = 0;
    while i < n_knights
        invariant
            n_knights == knights@.len(),
            i <= n_knights,
            krects@.len() == i,
            forall|k: int|
                0 <= k < n_knights ==> (#[trigger] knights@[k]).pos.wf()
                    && knights@[k].pos.in_world(),
            forall|k: int| 0 <= k < i ==> (#[trigger] krects@[k]).wf(),
            forall|k: int|
                0 <= k < i ==> (#[trigger] krects@[k]) == crate::geom::spec_make_rect(
                    knights@[k].pos,
                ),
        decreases n_knights - i,
    {
        krects.push(make_rect(knights[i].pos));
        i = i + 1;
    }
    proof {
        assert(krects@ =~= knight_rects_of(moved));
    }
    let n_enemies = world.enemies.len();
    let mut erects: Vec<Rect> = Vec::new();
    let mut i2: usize = 0;
    while i2 < n_enemies
        invariant
            world.wf(),
            n_enemies == world.enemies@.len(),
            i2 <= n_enemies,
            erects@.len() == i2,
            forall|k: int| 0 <= k < i2 ==> (#[trigger] erects@[k]).wf(),
            forall|k: int|
                0 <= k < i2 ==> (#[trigger] erects@[k]) == crate::geom::spec_make_rect(
                    world.enemies@[k].0.pos,
                ),
        decreases n_enemies - i2,
    {
        let (e, _state) = world.enemies[i2];
        erects.push(make_rect(e.pos));
        i2 = i2 + 1;
    }
    proof {
        assert(erects@ =~= crate::sim::enemy_rects_of(w0.enemies@));
    }
    // Knight-vs-tile contacts, resolved deepest first.
    let mut tile_knight_contacts: Vec<Contact> = Vec::new();
    let lvl = &world.levels[cl];
    generate_tile_contact(&krects, lvl, &mut tile_knight_contacts);
    let ghost glvl = world.levels@[cl as int];
    proof {
        lemma_tile_all_props(krects@, glvl, krects@.len() as int);
        assert(tile_knight_contacts@ =~= crate::contact::tile_all(
            krects@,
            glvl,
            krects@.len() as int,
        ));
        assert forall|k: int| 0 <= k < tile_knight_contacts@.len() implies {
            &&& (#[trigger] tile_knight_contacts@[k]).displacement.wf()
            &&& tile_knight_contacts@[k].b_rect.wf()
            &&& tile_knight_contacts@[k].a_index < krects@.len()
        } by {
            assert(tile_knight_contacts@[k] == crate::contact::tile_all(
                krects@,
                glvl,
                krects@.len() as int,
            )[k]);
        }
    }
    let ghost tkc0 = tile_knight_contacts@;
    sort_contacts(&mut tile_knight_contacts);
    proof {
        lemma_perm_preserves(
            tkc0,
            tile_knight_contacts@,
            |c: Contact| c.b_rect.wf() && c.a_index < krects@.len(),
        );
        assert(forall|k: int|
            0 <= k < tile_knight_contacts@.len() ==> ((
            #[trigger] tile_knight_contacts@[k]).b_rect.wf() && tile_knight_contacts@[k].a_index
                < krects@.len()));
    }
    let mut kpos: Vec<Vec2> = Vec::new();
    let mut i3: usize = 0;
    while i3 < n_knights
        invariant
            n_knights == knights@.len(),
            i3 <= n_knights,
            kpos@.len() == i3,
            forall|k: int|
                0 <= k < n_knights ==> (#[trigger] knights@[k]).pos.wf()
                    && knights@[k].pos.in_world(),
            forall|k: int| 0 <= k < i3 ==> (#[trigger] kpos@[k]).wf() && kpos@[k].in_world(),
            forall|k: int| 0 <= k < i3 ==> (#[trigger] kpos@[k]) == knights@[k].pos,
        decreases n_knights - i3,
    {
        kpos.push(knights[i3].pos);
        i3 = i3 + 1;
    }
    let ghost kpos0 = kpos@;
    proof {
        assert(kpos0 =~= knight_positions_of(moved));
    }
    resolve_group(&mut kpos, &krects, &tile_knight_contacts);
    let ghost ksnap = knights@;
    let mut i4: usize = 0;
    while i4 < n_knights
        invariant
            n_knights == knights@.len(),
            n_knights == kpos@.len(),
            i4 <= n_knights,
            forall|k: int| 0 <= k < kpos@.len() ==> (#[trigger] kpos@[k]).wf() && kpos@[k].in_world(),
            forall|k: int|
                0 <= k < n_knights ==> (#[trigger] knights@[k]).pos.wf()
                    && knights@[k].pos.in_world(),
            forall|k: int| i4 <= k < n_knights ==> (#[trigger] knights@[k]) == ksnap[k],
            forall|k: int|
                0 <= k < i4 ==> (#[trigger] knights@[k]) == (Knight {
                    health: ksnap[k].health,
                    pos: kpos@[k],
                }),
        decreases n_knights - i4,
    {
        let k = knights[i4];
        knights.set(i4, Knight { health: k.health, pos: kpos[i4] });
        i4 = i4 + 1;
    }
    proof {
        // The knights now carry the tile-resolved positions.
        assert(ksnap == moved);
        assert(knights@ =~= Seq::new(
            moved.len(),
            |k: int| Knight {
                health: moved[k].health,
                pos: crate::resolve::spec_resolve_group(
                    knight_positions_of(moved),
                    knight_rects_of(moved),
                    tile_knight_contacts@,
                    tile_knight_contacts@.len() as int,
                )[k],
            },
        ));
    }
    let ghost knights2 = knights@;
    // Knight-vs-enemy contacts, classified deepest first.
    let mut knight_contacts: Vec<Contact> = Vec::new();
    generate_contact(&krects, &erects, &mut knight_contacts);
    proof {
        lemma_all_pairs_props(krects@, erects@, krects@.len() as int);
        assert(knight_contacts@ =~= all_pairs(krects@, erects@, krects@.len() as int));
        assert forall|k: int| 0 <= k < knight_contacts@.len() implies {
            &&& (#[trigger] knight_contacts@[k]).displacement.wf()
            &&& knight_contacts@[k].b_index < erects@.len()
            &&& knight_contacts@[k].a_index < krects@.len()
        } by {
            assert(knight_contacts@[k] == all_pairs(krects@, erects@, krects@.len() as int)[k]);
        }
    }
    let ghost kc0 = knight_contacts@;
    sort_contacts(&mut knight_contacts);
    proof {
        lemma_perm_preserves(
            kc0,
            knight_contacts@,
            |c: Contact| c.b_index < erects@.len() && c.a_index < krects@.len(),
        );
        assert(forall|k: int|
            0 <= k < knight_contacts@.len() ==> ((#[trigger] knight_contacts@[k]).b_index
                < erects@.len() && knight_contacts@[k].a_index < krects@.len()));
    }
    let mut removed = knight_classify(knights, &mut world.enemies, &knight_contacts, &krects, &erects);
    let ghost knights3 = knights@;
    let ghost enemies1 = world.enemies@;
    let mut i5: usize = 0;
    while i5 < removed.len()
        invariant
            i5 <= removed@.len(),
            events@ == crate::sim::removal_events(removed@, i5 as int),
        decreases removed@.len() - i5,
    {
        events.push(Event::EnemyRemoved(removed[i5]));
        i5 = i5 + 1;
    }
    // Compact the enemy roster.
    proof {
        lemma_knight_removals_props(
            knight_contacts@,
            knight_contacts@.len() as int,
            world.enemies@.len() as int,
        );
    }
    let ghost removed0 = removed@;
    sort_indices(&mut removed);
    proof {
        lemma_sorted_unique_ascending(removed0, removed@, world.enemies@.len() as int);
    }
    let ghost enemies_before = world.enemies@;
    remove_indices(&mut world.enemies, &removed);
    proof {
        assert forall|k: int| 0 <= k < world.enemies@.len() implies ((
        #[trigger] world.enemies@[k]).0.pos.wf() && world.enemies@[k].0.pos.in_world()) by {
            assert(enemies_before.contains(world.enemies@[k]));
            let w = choose|i: int|
                0 <= i < enemies_before.len() && enemies_before[i] == world.enemies@[k];
            assert(enemies_before[w].0.pos.wf());
        }
    }
    // Compact the knight roster: fallen knights leave.
    let fallen = fallen_knights(knights);
    let ghost knights_before = knights@;
    remove_indices(knights, &fallen);
    proof {
        assert forall|k: int| 0 <= k < knights@.len() implies ((
        #[trigger] knights@[k]).pos.wf() && knights@[k].pos.in_world()) by {
            assert(knights_before.contains(knights@[k]));
            let w = choose|i: int|
                0 <= i < knights_before.len() && knights_before[i] == knights@[k];
            assert(knights_before[w].pos.wf());
        }
        // The whole phase, with the sorted lists as witnesses.
        assert(knights_post(
            *old(world),
            old(knights)@,
            *world,
            knights@,
            events@,
            tile_knight_contacts@,
            knight_contacts@,
            removed@,
            fallen@,
        ));
        assert(exists|tkc: Seq<Contact>, kc: Seq<Contact>, sr: Seq<usize>, fallen_w: Seq<usize>|
            #[trigger] knights_post(
                *old(world),
                old(knights)@,
                *world,
                knights@,
                events@,
                tkc,
                kc,
                sr,
                fallen_w,
            ));
    }
    events
}

} // verus!
