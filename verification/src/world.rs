//! The entity store: camera viewport, the loaded levels and the active
//! one, the player, the enemy roster, and the per-world flags; plus
//! level entry, random enemy spawning and camera follow.

use vstd::prelude::*;

use crate::geom::{Dir, Pos, Vec2, COORD_MAX, WORLD_LIMIT, TILE, PX};
use crate::grid::{EntityKind, Level};
use crate::rng::{gen_range_i64, gen_ratio};

verus! {

/// Spawn roll threshold: a fresh enemy appears only when a draw from
/// `0..1000` exceeds this.
pub const SPAWN_THRESHOLD: i64 = 960;

/// Exclusion radius around the player (48 pixels in world units): a
/// spawn candidate strictly closer than this on both axes is rejected.
pub const SPAWN_EXCLUSION: i64 = 2880;

/// How many random placement candidates one spawn attempt draws before
/// giving up for the tick.
pub const SPAWN_ATTEMPTS: usize = 16;

/// Distance from the screen edge (64 pixels in world units) at which
/// the camera starts to track the player.
pub const CAMERA_MARGIN: i64 = 3840;

/// How far the camera moves per correction step (one pixel).
pub const CAMERA_STEP: i64 = 60;

/// The camera viewport: lower-left corner and size, in world units.
#[derive(Clone, Copy, Debug, PartialEq, Eq, Structural)]
pub struct Camera {
    pub screen_pos: Vec2,
    pub screen_size: Vec2,
}

impl Camera {
    /// Position in the safe range, size nonnegative and bounded.
    pub open spec fn wf(self) -> bool {
        &&& self.screen_pos.wf()
        &&& 0 <= self.screen_size.x <= COORD_MAX
        &&& 0 <= self.screen_size.y <= COORD_MAX
    }
}

/// Whether an enemy slot is still in play. The store keeps liveness
/// explicit instead of overloading an integer tag.
#[derive(Clone, Copy, Debug, PartialEq, Eq, Structural)]
pub enum EnemyState {
    Alive,
    Dead,
}

/// The mutable world: owned by the single simulation thread, mutated
/// only inside a tick.
pub struct World {
    pub camera: Camera,
    pub current_level: usize,
    pub levels: Vec<Level>,
    pub enemies: Vec<(Pos, EnemyState)>,
    pub player: Pos,
    pub paused: bool,
    pub game_end: bool,
}

/// The enemy roster a level seeds at entry: one alive, south-facing
/// enemy per enemy spawn marker, in marker order (`starts[0..j]`).
pub open spec fn enemy_spawns(starts: Seq<(EntityKind, Vec2)>, j: int) -> Seq<(Pos, EnemyState)>
    decreases j,
{
    if j <= 0 {
        Seq::empty()
    } else {
        let rest = enemy_spawns(starts, j - 1);
        if starts[j - 1].0 is Enemy {
            rest.push((Pos { pos: starts[j - 1].1, dir: Dir::S }, EnemyState::Alive))
        } else {
            rest
        }
    }
}

/// A placement is acceptable for spawning when the tile under it is
/// known and not solid, and it is not too close to the player on both
/// axes at once.
pub open spec fn spawn_ok(lvl: Level, player: Vec2, p: Vec2) -> bool {
    &&& match lvl.spec_tile_at_pos(p) {
        Some(td) => !td.solid,
        None => false,
    }
    &&& !((if p.x >= player.x {
        p.x - player.x
    } else {
        player.x - p.x
    }) < SPAWN_EXCLUSION && (if p.y >= player.y {
        p.y - player.y
    } else {
        player.y - p.y
    }) < SPAWN_EXCLUSION)
}

/// Index of the first acceptable candidate at or after `k`, if any.
pub open spec fn first_spawn_ok(lvl: Level, player: Vec2, cands: Seq<Vec2>, k: int) -> Option<int>
    decreases cands.len() - k,
{
    if k < 0 || k >= cands.len() {
        None
    } else if spawn_ok(lvl, player, cands[k]) {
        Some(k)
    } else {
        first_spawn_ok(lvl, player, cands, k + 1)
    }
}

impl World {
    /// Structural invariant: the active level index is valid, every
    /// level is well-formed, and every entity position is in the world
    /// range.
    pub open spec fn wf(self) -> bool {
        &&& self.camera.wf()
        &&& self.current_level < self.levels@.len()
        &&& forall|i: int| 0 <= i < self.levels@.len() ==> (#[trigger] self.levels@[i]).wf()
        &&& self.player.pos.wf() && self.player.pos.in_world()
        &&& forall|i: int|
            0 <= i < self.enemies@.len() ==> (#[trigger] self.enemies@[i]).0.pos.wf()
                && self.enemies@[i].0.pos.in_world()
    }

    /// The active level.
    pub fn level(&self) -> (r: &Level)
        requires
            self.wf(),
        ensures
            *r == self.levels@[self.current_level as int],
    {
        &self.levels[self.current_level]
    }

    /// Enter the active level: place the player, clear the enemy roster
    /// and reseed it from the level's enemy spawn markers.
    pub fn enter_level(&mut self, player_pos: Vec2)
        requires
            old(self).wf(),
            player_pos.wf(),
            player_pos.in_world(),
        ensures
            final(self).player.pos == player_pos,
            final(self).player.dir == old(self).player.dir,
            final(self).enemies@ == enemy_spawns(
                old(self).levels@[old(self).current_level as int].starts@,
                old(self).levels@[old(self).current_level as int].starts@.len() as int,
            ),
            final(self).camera == old(self).camera,
            final(self).levels@ == old(self).levels@,
            final(self).current_level == old(self).current_level,
            final(self).paused == old(self).paused,
            final(self).game_end == old(self).game_end,
            final(self).wf(),
    {
        self.enemies.clear();
        self.player.pos = player_pos;
        let cl = self.current_level;
        let ghost starts0 = self.levels@[cl as int].starts@;
        let count = self.levels[cl].starts.len();
        let mut i: usize = 0;
        while i < count
            invariant
                self.wf(),
                cl == self.current_level,
                cl < self.levels@.len(),
                starts0 == self.levels@[cl as int].starts@,
                count == starts0.len(),
                i <= count,
                self.enemies@ == enemy_spawns(starts0, i as int),
                self.player.pos == player_pos,
                self.player.dir == old(self).player.dir,
                self.camera == old(self).camera,
                self.levels@ == old(self).levels@,
                self.paused == old(self).paused,
                self.game_end == old(self).game_end,
            decreases count - i,
        {
            let (kind, pos) = self.levels[cl].starts[i];
            if matches!(kind, EntityKind::Enemy) {
                self.enemies.push((Pos { pos, dir: Dir::S }, EnemyState::Alive));
            }
            i = i + 1;
        }
    }

    /// Deterministic core of enemy spawning: given the spawn roll and
    /// the drawn placement candidates, add one alive enemy at the first
    /// acceptable candidate when the roll exceeds the threshold; change
    /// nothing otherwise. The enemy count grows by exactly one when and
    /// only when the roll passes and some candidate is acceptable.
    pub fn spawn_step(&mut self, roll: i64, candidates: &Vec<Vec2>) -> (spawned: bool)
        requires
            old(self).wf(),
            forall|i: int|
                0 <= i < candidates@.len() ==> (#[trigger] candidates@[i]).wf()
                    && candidates@[i].in_world(),
        ensures
            ({
                let lvl = old(self).levels@[old(self).current_level as int];
                let found = first_spawn_ok(lvl, old(self).player.pos, candidates@, 0);
                &&& spawned <==> (roll > SPAWN_THRESHOLD && found is Some)
                &&& !spawned ==> *final(self) == *old(self)
                &&& spawned ==> final(self).enemies@ == old(self).enemies@.push(
                    (Pos { pos: candidates@[found->0], dir: Dir::S }, EnemyState::Alive),
                )
                &&& spawned ==> spawn_ok(lvl, old(self).player.pos, candidates@[found->0])
            }),
            final(self).camera == old(self).camera,
            final(self).levels@ == old(self).levels@,
            final(self).current_level == old(self).current_level,
            final(self).player == old(self).player,
            final(self).paused == old(self).paused,
            final(self).game_end == old(self).game_end,
            final(self).enemies@.len() == old(self).enemies@.len() + (if spawned {
                1int
            } else {
                0int
            }),
            final(self).wf(),
    {
        let ghost lvl = self.levels@[self.current_level as int];
        let ghost player0 = self.player.pos;
        if roll <= SPAWN_THRESHOLD {
            return false;
        }
        let cl = self.current_level;
        let mut k: usize = 0;
        while k < candidates.len()
            invariant
                self.wf(),
                *self == *old(self),
                roll > SPAWN_THRESHOLD,
                cl == self.current_level,
                lvl == self.levels@[cl as int],
                player0 == self.player.pos,
                forall|i: int|
                    0 <= i < candidates@.len() ==> (#[trigger] candidates@[i]).wf()
                        && candidates@[i].in_world(),
                k <= candidates@.len(),
                first_spawn_ok(lvl, player0, candidates@, 0) == first_spawn_ok(
                    lvl,
                    player0,
                    candidates@,
                    k as int,
                ),
            decreases candidates@.len() - k,
        {
            let p = candidates[k];
            let dx = if p.x >= self.player.pos.x {
                p.x - self.player.pos.x
            } else {
                self.player.pos.x - p.x
            };
            let dy = if p.y >= self.player.pos.y {
                p.y - self.player.pos.y
            } else {
                self.player.pos.y - p.y
            };
            let too_close = dx < SPAWN_EXCLUSION && dy < SPAWN_EXCLUSION;
            let free = match self.levels[cl].get_tile_at(p) {
                Some(td) => !td.solid,
                None => false,
            };
            if free && !too_close {
                proof {
                    assert(spawn_ok(lvl, player0, candidates@[k as int]));
                    assert(first_spawn_ok(lvl, player0, candidates@, k as int) == Some(k as int));
                }
                self.enemies.push((Pos { pos: p, dir: Dir::S }, EnemyState::Alive));
                return true;
            }
            k = k + 1;
        }
        false
    }

    /// Spawn logic with the randomness drawn in: roll once; on success
    /// draw up to `SPAWN_ATTEMPTS` positions inside the level (at least
    /// two pixels from its lower-left corner) and place an enemy at the
    /// first that is on free ground and outside the player's exclusion
    /// radius. Whatever the generator returns, the roster grows by at
    /// most one, and any new enemy stands on an acceptable position.
    pub fn spawn_enemies(&mut self, rng: &mut rand::rngs::ThreadRng)
        requires
            old(self).wf(),
        ensures
            final(self).wf(),
            final(self).camera == old(self).camera,
            final(self).levels@ == old(self).levels@,
            final(self).current_level == old(self).current_level,
            final(self).player == old(self).player,
            final(self).paused == old(self).paused,
            final(self).game_end == old(self).game_end,
            final(self).enemies@.len() == old(self).enemies@.len() || final(self).enemies@.len()
                == old(self).enemies@.len() + 1,
            final(self).enemies@.len() == old(self).enemies@.len() ==> final(self).enemies@ == old(
                self,
            ).enemies@,
            final(self).enemies@.len() == old(self).enemies@.len() + 1 ==> ({
                let e = final(self).enemies@.last();
                &&& final(self).enemies@ == old(self).enemies@.push(e)
                &&& e.1 is Alive
                &&& e.0.dir is S
                &&& spawn_ok(
                    old(self).levels@[old(self).current_level as int],
                    old(self).player.pos,
                    e.0.pos,
                )
            }),
    {
        let roll = gen_range_i64(rng, 0, 1000);
        let cl = self.current_level;
        let w_units = (self.levels[cl].width as i64) * TILE;
        let h_units = (self.levels[cl].height as i64) * TILE;
        proof {
            assert(1 * TILE <= (self.levels@[cl as int].width as i64) * TILE <= 4096 * TILE)
                by (nonlinear_arith)
                requires
                    1 <= self.levels@[cl as int].width <= 4096,
            ;
            assert(1 * TILE <= (self.levels@[cl as int].height as i64) * TILE <= 4096 * TILE)
                by (nonlinear_arith)
                requires
                    1 <= self.levels@[cl as int].height <= 4096,
            ;
        }
        let mut candidates: Vec<Vec2> = Vec::new();
        let mut t: usize = 0;
        while t < SPAWN_ATTEMPTS
            invariant
                120 < w_units <= 4096 * TILE,
                120 < h_units <= 4096 * TILE,
                forall|i: int|
                    0 <= i < candidates@.len() ==> (#[trigger] candidates@[i]).wf()
                        && candidates@[i].in_world(),
            decreases SPAWN_ATTEMPTS - t,
        {
            let x = gen_range_i64(rng, 2 * PX, w_units);
            let y = gen_range_i64(rng, 2 * PX, h_units);
            candidates.push(Vec2 { x, y });
            t = t + 1;
        }
        self.spawn_step(roll, &candidates);
    }

    pub fn set_camera(&mut self, camera: Camera)
        ensures
            *final(self) == (World { camera, ..*old(self) }),
    {
        self.camera = camera;
    }

    pub fn set_levels(&mut self, levels: Vec<Level>)
        ensures
            final(self).levels@ == levels@,
            *final(self) == (World { levels, ..*old(self) }),
    {
        self.levels = levels;
    }

    pub fn set_current_level(&mut self, level: usize)
        ensures
            *final(self) == (World { current_level: level, ..*old(self) }),
    {
        self.current_level = level;
    }

    pub fn set_enemies(&mut self, enemies: Vec<(Pos, EnemyState)>)
        ensures
            final(self).enemies@ == enemies@,
            *final(self) == (World { enemies, ..*old(self) }),
    {
        self.enemies = enemies;
    }

    pub fn set_player(&mut self, player: Pos)
        ensures
            *final(self) == (World { player, ..*old(self) }),
    {
        self.player = player;
    }

    /// Toggle the pause flag.
    pub fn pause(&mut self)
        ensures
            *final(self) == (World { paused: !old(self).paused, ..*old(self) }),
    {
        self.paused = !self.paused;
    }

    /// Flag the game as over.
    pub fn game_over(&mut self)
        ensures
            *final(self) == (World { game_end: true, ..*old(self) }),
    {
        self.game_end = true;
    }
}

/// One camera axis after the two correction phases: step toward the
/// player until it sits at least `margin` inside the screen on that
/// axis (pushing the screen up first, then down), in whole steps.
pub open spec fn follow_axis(c: int, size: int, margin: int, p: int, step: int) -> int {
    let up = c + (if p > c + size - margin {
        step * ((p - (c + size - margin) + step - 1) / step)
    } else {
        0
    });
    up - (if p < up + margin {
        step * ((up + margin - p + step - 1) / step)
    } else {
        0
    })
}

/// A value clamped into `[0, hi]`.
pub open spec fn clamp_axis(v: int, hi: int) -> int {
    if v < 0 {
        0
    } else if v > hi {
        hi
    } else {
        v
    }
}

/// Upper clamp bound for one camera axis: level extent (but at least
/// one screen) minus the screen.
pub open spec fn follow_hi(level_units: int, size: int) -> int {
    (if level_units >= size {
        level_units
    } else {
        size
    }) - size
}

/// The camera after one follow pass.
pub open spec fn spec_camera_follow(cam: Camera, p: Vec2, lw_units: int, lh_units: int) -> Camera {
    Camera {
        screen_pos: Vec2 {
            x: clamp_axis(
                follow_axis(
                    cam.screen_pos.x as int,
                    cam.screen_size.x as int,
                    CAMERA_MARGIN as int,
                    p.x as int,
                    CAMERA_STEP as int,
                ),
                follow_hi(lw_units, cam.screen_size.x as int),
            ) as i64,
            y: clamp_axis(
                follow_axis(
                    cam.screen_pos.y as int,
                    cam.screen_size.y as int,
                    CAMERA_MARGIN as int,
                    p.y as int,
                    CAMERA_STEP as int,
                ),
                follow_hi(lh_units, cam.screen_size.y as int),
            ) as i64,
        },
        screen_size: cam.screen_size,
    }
}

/// One axis of the camera correction, computed in whole steps.
fn follow_axis_exec(c: i64, size: i64, p: i64) -> (r: i64)
    requires
        -COORD_MAX <= c <= COORD_MAX,
        0 <= size <= COORD_MAX,
        -WORLD_LIMIT <= p <= WORLD_LIMIT,
    ensures
        r == follow_axis(c as int, size as int, CAMERA_MARGIN as int, p as int, CAMERA_STEP as int),
    {
    let up = if p > c + size - CAMERA_MARGIN {
        let d = p - (c + size - CAMERA_MARGIN);
        c + CAMERA_STEP * ((d + CAMERA_STEP - 1) / CAMERA_STEP)
    } else {
        c
    };
    if p < up + CAMERA_MARGIN {
        let d = up + CAMERA_MARGIN - p;
        up - CAMERA_STEP * ((d + CAMERA_STEP - 1) / CAMERA_STEP)
    } else {
        up
    }
}

/// Move the camera after the player: step the viewport until the player
/// is at least the margin away from its edges (as far as whole steps
/// allow), then clamp it to the level's extent.
pub fn camera_follow(cam: Camera, p: Vec2, lw_units: i64, lh_units: i64) -> (r: Camera)
    requires
        cam.wf(),
        p.wf(),
        p.in_world(),
        0 <= lw_units <= WORLD_LIMIT,
        0 <= lh_units <= WORLD_LIMIT,
    ensures
        r == spec_camera_follow(cam, p, lw_units as int, lh_units as int),
        r.wf(),
        r.screen_pos.in_world(),
{
    let fx = follow_axis_exec(cam.screen_pos.x, cam.screen_size.x, p.x);
    let fy = follow_axis_exec(cam.screen_pos.y, cam.screen_size.y, p.y);
    let hx = (if lw_units >= cam.screen_size.x {
        lw_units
    } else {
        cam.screen_size.x
    }) - cam.screen_size.x;
    let hy = (if lh_units >= cam.screen_size.y {
        lh_units
    } else {
        cam.screen_size.y
    }) - cam.screen_size.y;
    let cx = if fx < 0 {
        0
    } else if fx > hx {
        hx
    } else {
        fx
    };
    let cy = if fy < 0 {
        0
    } else if fy > hy {
        hy
    } else {
        fy
    };
    Camera { screen_pos: Vec2 { x: cx, y: cy }, screen_size: cam.screen_size }
}

} // verus!
