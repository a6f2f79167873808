//! One fixed-time-step simulation tick: spawn logic, input-driven
//! intent, the attack and knockback timers, player and enemy movement,
//! camera follow, contact generation, deepest-first resolution, contact
//! classification, and removal compaction.

use vstd::prelude::*;
use vstd::pervasive::VecAdditionalExecFns;

use crate::combat::{
    lemma_removals_props, spec_attack_tick, spec_knock_tick, Combat, Event, LEVELUP_XP,
    MAX_RANGE_HALVES,
};
use crate::combat::{classify_enemies, has_player_contact, removals, KNOCKBACK_TICKS};
use crate::contact::{
    all_pairs, lemma_all_pairs_len, lemma_all_pairs_props, lemma_perm_preserves,
    lemma_sorted_unique_ascending, lemma_tile_all_props, remove_desc, remove_indices,
    sort_contacts, sort_indices, sorted_ascending, sorted_by_depth, tile_all, Contact,
    generate_contact, generate_tile_contact,
};
use crate::geom::{make_rect, spec_make_rect, Dir, Pos, Rect, Vec2, TILE};
use crate::grid::Level;
use crate::resolve::{resolve_group, resolve_pos, spec_resolve_group, spec_resolve_pos};
use crate::rng::{gen_range_i64, gen_ratio};
use crate::world::{camera_follow, EnemyState, World};

verus! {

/// Player speed: 64 pixels per second is 64 units per tick.
pub const PLAYER_SPEED: i64 = 64;

/// Enemy wander speed: 32 pixels per second is 32 units per tick.
pub const ENEMY_SPEED: i64 = 32;

/// Health an upgrade grants.
pub const HEALTH_UPGRADE: u32 = 2;

/// The player's choice on the upgrade menu.
#[derive(Clone, Copy, Debug, PartialEq, Eq, Structural)]
pub enum Upgrade {
    Health,
    Range,
}

/// What one tick consumes: a movement intent of minus one, zero or one
/// per axis, the attack and pause intents, a pending upgrade choice,
/// and the two per-variant intents — whether this variant rolls enemy
/// spawns this tick, and a quit intent that pauses and ends the game.
/// The time step itself is fixed at one tick.
#[derive(Clone, Copy, Debug, PartialEq, Eq, Structural)]
pub struct TickInput {
    pub move_x: i64,
    pub move_y: i64,
    pub attack: bool,
    pub pause: bool,
    pub quit: bool,
    pub spawn: bool,
    pub upgrade_choice: Option<Upgrade>,
}

impl TickInput {
    /// Movement intent within the unit square.
    pub open spec fn wf(self) -> bool {
        -1 <= self.move_x <= 1 && -1 <= self.move_y <= 1
    }
}

/// The facing after a movement intent: horizontal intent first, then
/// vertical, so a diagonal intent faces vertically.
pub open spec fn spec_face(dir: Dir, dx: i64, dy: i64) -> Dir {
    let d1 = if dx > 0 {
        Dir::E
    } else if dx < 0 {
        Dir::W
    } else {
        dir
    };
    if dy > 0 {
        Dir::N
    } else if dy < 0 {
        Dir::S
    } else {
        d1
    }
}

/// Where a movement lands: the destination when the tile under it is
/// known and walkable, else the old position. Out-of-bounds counts as
/// "cannot move there".
pub open spec fn spec_move_dest(lvl: Level, pos: Vec2, dx: i64, dy: i64) -> Vec2 {
    let dest = Vec2 { x: (pos.x + dx) as i64, y: (pos.y + dy) as i64 };
    match lvl.spec_tile_at_pos(dest) {
        Some(td) => if td.solid {
            pos
        } else {
            dest
        },
        None => pos,
    }
}

/// Move the player by the given per-tick delta, unless the destination
/// tile is solid or outside the grid.
pub fn move_player(world: &mut World, dx: i64, dy: i64)
    requires
        old(world).wf(),
        -10000 <= dx <= 10000,
        -10000 <= dy <= 10000,
    ensures
        final(world).player.pos == spec_move_dest(
            old(world).levels@[old(world).current_level as int],
            old(world).player.pos,
            dx,
            dy,
        ),
        final(world).player.dir == old(world).player.dir,
        *final(world) == (World { player: final(world).player, ..*old(world) }),
        final(world).wf(),
{
    let dest = world.player.pos.add(Vec2 { x: dx, y: dy });
    let cl = world.current_level;
    let walkable = match world.levels[cl].get_tile_at(dest) {
        Some(td) => !td.solid,
        None => false,
    };
    if walkable {
        proof {
            let lvl = world.levels@[cl as int];
            assert(0 <= dest.x && ((dest.x as int) / (TILE as int)) < lvl.width);
            assert((lvl.width as int) * TILE <= 4096 * TILE) by (nonlinear_arith)
                requires
                    lvl.width <= 4096,
            ;
            crate::geom::lemma_div_bound(dest.x as int, lvl.width as int);
            crate::geom::lemma_div_bound(dest.y as int, lvl.height as int);
        }
        world.player.pos = dest;
    }
}

/// One enemy's wander step: maybe turn to the drawn direction, then
/// step at enemy speed if the destination stays inside the level's
/// extent (the south edge exclusive, as the store has always had it).
pub open spec fn spec_wander_step(
    e: Pos,
    turn: bool,
    new_dir: Dir,
    w_units: int,
    h_units: int,
) -> Pos {
    let dir = if turn {
        new_dir
    } else {
        e.dir
    };
    let dest = Vec2 {
        x: (e.pos.x + dir.spec_vec2().x * ENEMY_SPEED) as i64,
        y: (e.pos.y + dir.spec_vec2().y * ENEMY_SPEED) as i64,
    };
    if 0 <= dest.x && dest.x <= w_units && 0 < dest.y && dest.y <= h_units {
        Pos { pos: dest, dir }
    } else {
        Pos { pos: e.pos, dir }
    }
}

/// The wander step, executable.
fn wander_step(e: Pos, turn: bool, new_dir: Dir, w_units: i64, h_units: i64) -> (r: Pos)
    requires
        e.pos.wf(),
        e.pos.in_world(),
        0 <= w_units <= crate::geom::WORLD_LIMIT,
        0 <= h_units <= crate::geom::WORLD_LIMIT,
    ensures
        r == spec_wander_step(e, turn, new_dir, w_units as int, h_units as int),
        r.pos.wf(),
        r.pos.in_world(),
{
    let dir = if turn {
        new_dir
    } else {
        e.dir
    };
    let step = dir.to_vec2().scale(ENEMY_SPEED);
    let dest = e.pos.add(step);
    if 0 <= dest.x && dest.x <= w_units && 0 < dest.y && dest.y <= h_units {
        Pos { pos: dest, dir }
    } else {
        Pos { pos: e.pos, dir }
    }
}

/// The direction an enemy turn roll picks.
pub fn dir_from_roll(roll: i64) -> (d: Dir)
    requires
        0 <= roll < 4,
    ensures
        roll == 0 ==> d is N,
        roll == 1 ==> d is E,
        roll == 2 ==> d is S,
        roll == 3 ==> d is W,
{
    if roll == 0 {
        Dir::N
    } else if roll == 1 {
        Dir::E
    } else if roll == 2 {
        Dir::S
    } else {
        Dir::W
    }
}

/// Let every enemy wander: each turns with one-in-twenty probability to
/// a uniformly drawn direction, then steps if it stays inside the
/// level. Whatever the generator returns, every enemy's new state is a
/// wander step of its old state, and liveness tags are untouched.
pub fn wander_enemies(world: &mut World, rng: &mut rand::rngs::ThreadRng)
    requires
        old(world).wf(),
    ensures
        final(world).wf(),
        final(world).enemies@.len() == old(world).enemies@.len(),
        forall|i: int|
            0 <= i < final(world).enemies@.len() ==> #[trigger] wandered(
                old(world).enemies@[i],
                final(world).enemies@[i],
                old(world).levels@[old(world).current_level as int].width as int * TILE,
                old(world).levels@[old(world).current_level as int].height as int * TILE,
            ),
        *final(world) == (World { enemies: final(world).enemies, ..*old(world) }),
{
    let cl = world.current_level;
    let w_units = (world.levels[cl].width as i64) * TILE;
    let h_units = (world.levels[cl].height as i64) * TILE;
    proof {
        let gw = old(world).levels@[cl as int].width as int;
        let gh = old(world).levels@[cl as int].height as int;
        assert(0 <= gw * TILE <= 4096 * TILE) by (nonlinear_arith)
            requires
                1 <= gw <= 4096,
        ;
        assert(0 <= gh * TILE <= 4096 * TILE) by (nonlinear_arith)
            requires
                1 <= gh <= 4096,
        ;
    }
    let n = world.enemies.len();
    let mut i: usize = 0;
    while i < n
        invariant
            world.wf(),
            n == world.enemies@.len(),
            n == old(world).enemies@.len(),
            i <= n,
            w_units == old(world).levels@[old(world).current_level as int].width as int * TILE,
            h_units == old(world).levels@[old(world).current_level as int].height as int * TILE,
            0 <= w_units <= crate::geom::WORLD_LIMIT,
            0 <= h_units <= crate::geom::WORLD_LIMIT,
            forall|k: int|
                i <= k < n ==> (#[trigger] world.enemies@[k]) == old(world).enemies@[k],
            forall|k: int|
                0 <= k < i ==> #[trigger] wandered(
                    old(world).enemies@[k],
                    world.enemies@[k],
                    w_units as int,
                    h_units as int,
                ),
            *world == (World { enemies: world.enemies, ..*old(world) }),
        decreases n - i,
    {
        let turn = gen_ratio(rng, 1, 20);
        let (e, state) = world.enemies[i];
        let stepped = if turn {
            let roll = gen_range_i64(rng, 0, 4);
            let nd = dir_from_roll(roll);
            wander_step(e, true, nd, w_units, h_units)
        } else {
            wander_step(e, false, Dir::N, w_units, h_units)
        };
        let ghost gturn = turn;
        let ghost gnd = if turn {
            stepped.dir
        } else {
            Dir::N
        };
        world.enemies.set(i, (stepped, state));
        proof {
            assert(world.enemies@[i as int].0 == spec_wander_step(
                old(world).enemies@[i as int].0,
                gturn,
                if gturn {
                    gnd
                } else {
                    Dir::N
                },
                w_units as int,
                h_units as int,
            ));
            assert(wandered(
                old(world).enemies@[i as int],
                world.enemies@[i as int],
                w_units as int,
                h_units as int,
            ));
        }
        i = i + 1;
    }
}

/// Everything the intent phase does, exactly, as a relation between
/// the states before and after it: a level-up opens the upgrade menu,
/// pauses and resets experience; a choice on an open menu applies the
/// upgrade and unpauses; the pause intent toggles; the quit intent
/// pauses and ends the game. The enemy roster changes only when the
/// variant rolls spawns on an unpaused, running tick, and then grows
/// by at most one acceptably placed enemy.
pub open spec fn intents_post(
    w0: World,
    c0: Combat,
    input: TickInput,
    w1: World,
    c1: Combat,
) -> bool {
    let menu = c0.xp >= LEVELUP_XP || c0.upgrade;
    let p1 = w0.paused || c0.xp >= LEVELUP_XP;
    let p2 = if menu && input.upgrade_choice is Some {
        false
    } else {
        p1
    };
    let p3 = if input.pause {
        !p2
    } else {
        p2
    };
    &&& w1.levels@ == w0.levels@
    &&& w1.current_level == w0.current_level
    &&& w1.player == w0.player
    &&& w1.camera == w0.camera
    &&& w1.paused == (if input.quit {
        true
    } else {
        p3
    })
    &&& w1.game_end == (w0.game_end || input.quit)
    &&& (!(input.spawn && !w0.paused && !w0.game_end) ==> w1.enemies@ == w0.enemies@)
    &&& (w1.enemies@ == w0.enemies@ || (w1.enemies@.len() == w0.enemies@.len() + 1
        && w1.enemies@ == w0.enemies@.push(w1.enemies@.last()) && w1.enemies@.last().1 is Alive
        && w1.enemies@.last().0.dir is S && crate::world::spawn_ok(
        w0.levels@[w0.current_level as int],
        w0.player.pos,
        w1.enemies@.last().0.pos,
    )))
    &&& c1.upgrade == (menu && input.upgrade_choice is None)
    &&& c1.xp == (if c0.xp >= LEVELUP_XP {
        0int
    } else {
        c0.xp as int
    })
    &&& c1.health == (if menu && input.upgrade_choice == Some(Upgrade::Health) {
        if c0.health <= u32::MAX - HEALTH_UPGRADE {
            c0.health + HEALTH_UPGRADE
        } else {
            u32::MAX as int
        }
    } else {
        c0.health as int
    })
    &&& c1.attack_range_halves == (if menu && input.upgrade_choice == Some(Upgrade::Range)
        && c0.attack_range_halves < MAX_RANGE_HALVES {
        c0.attack_range_halves + 1
    } else {
        c0.attack_range_halves as int
    })
    &&& c1.attack_timer == c0.attack_timer
    &&& c1.attack_area == c0.attack_area
    &&& c1.knockback_timer == c0.knockback_timer
}

/// The pre-movement intents of one tick: the spawn roll (only if this
/// variant spawns, and suppressed while paused or after game over),
/// the level-up check that opens the upgrade menu, the upgrade choice,
/// the pause toggle and the quit intent. Returns whether the
/// simulation part of the tick should run.
pub fn tick_intents(
    world: &mut World,
    combat: &mut Combat,
    input: TickInput,
    rng: &mut rand::rngs::ThreadRng,
    events: &mut Vec<Event>,
) -> (go: bool)
    requires
        old(world).wf(),
        old(combat).wf(),
        !old(world).game_end ==> old(combat).health >= 1,
    ensures
        final(world).wf(),
        final(combat).wf(),
        intents_post(*old(world), *old(combat), input, *final(world), *final(combat)),
        final(combat).health >= old(combat).health,
        !final(world).game_end ==> final(combat).health >= 1,
        go == !(final(world).paused || final(world).game_end),
        final(events)@ == old(events)@ + (if old(combat).xp >= LEVELUP_XP {
            seq![Event::LeveledUp]
        } else {
            Seq::empty()
        }),
{
    // Spawn roll: only for a spawning variant, never while paused or
    // after game over.
    if input.spawn && !world.paused && !world.game_end {
        world.spawn_enemies(rng);
    }
    // Level-up: enough experience opens the upgrade menu and pauses.
    if combat.xp >= LEVELUP_XP {
        combat.upgrade = true;
        world.paused = true;
        combat.xp = 0;
        events.push(Event::LeveledUp);
    }
    // A pending upgrade consumes the player's choice.
    if combat.upgrade {
        match input.upgrade_choice {
            Some(Upgrade::Health) => {
                world.paused = false;
                combat.upgrade = false;
                combat.health = if combat.health <= u32::MAX - HEALTH_UPGRADE {
                    combat.health + HEALTH_UPGRADE
                } else {
                    u32::MAX
                };
            },
            Some(Upgrade::Range) => {
                world.paused = false;
                combat.upgrade = false;
                if combat.attack_range_halves < MAX_RANGE_HALVES {
                    combat.attack_range_halves = combat.attack_range_halves + 1;
                }
            },
            None => {},
        }
    }
    if input.pause {
        world.paused = !world.paused;
    }
    // The quit intent pauses and ends the game.
    if input.quit {
        world.paused = true;
        world.game_end = true;
    }
    !(world.paused || world.game_end)
}

/// One enemy slot after a wander pass: the liveness tag is kept and
/// the position-and-facing is a wander step of the old one for some
/// drawn turn and direction.
pub open spec fn wandered(
    e0: (Pos, EnemyState),
    e1: (Pos, EnemyState),
    w_units: int,
    h_units: int,
) -> bool {
    &&& e1.1 == e0.1
    &&& exists|turn: bool, nd: Dir|
        e1.0 == #[trigger] spec_wander_step(e0.0, turn, nd, w_units, h_units)
}

/// Everything the movement phase does, exactly: the knockback
/// countdown then the attack state machine run on the pre-move player
/// position; facing follows the intent unless an attack was out; the
/// player moves by intent times speed against the tile gate; every
/// enemy takes a wander step for some drawn turn and direction; the
/// camera follows the moved player and clamps to the level extent.
pub open spec fn motion_post(
    w0: World,
    c0: Combat,
    input: TickInput,
    w1: World,
    c1: Combat,
) -> bool {
    let lvl = w0.levels@[w0.current_level as int];
    let dx = (input.move_x * PLAYER_SPEED) as i64;
    let dy = (input.move_y * PLAYER_SPEED) as i64;
    let w_units = lvl.width as int * TILE;
    let h_units = lvl.height as int * TILE;
    &&& w1.levels@ == w0.levels@
    &&& w1.current_level == w0.current_level
    &&& w1.paused == w0.paused
    &&& w1.game_end == w0.game_end
    &&& c1 == spec_attack_tick(spec_knock_tick(c0), input.attack, w0.player.pos)
    &&& w1.player.pos == spec_move_dest(lvl, w0.player.pos, dx, dy)
    &&& w1.player.dir == (if c0.attack_area.w == 0 || c0.attack_area.h == 0 {
        spec_face(w0.player.dir, dx, dy)
    } else {
        w0.player.dir
    })
    &&& w1.camera == crate::world::spec_camera_follow(w0.camera, w1.player.pos, w_units, h_units)
    &&& w1.enemies@.len() == w0.enemies@.len()
    &&& forall|i: int|
        0 <= i < w1.enemies@.len() ==> #[trigger] wandered(
            w0.enemies@[i],
            w1.enemies@[i],
            w_units,
            h_units,
        )
}

/// The movement part of one tick: knockback countdown, facing, the
/// attack state machine, player movement against the grid, enemy
/// wander, and camera follow. Touches no health, experience or flags.
pub fn tick_motion(
    world: &mut World,
    combat: &mut Combat,
    input: TickInput,
    rng: &mut rand::rngs::ThreadRng,
)
    requires
        old(world).wf(),
        old(combat).wf(),
        input.wf(),
    ensures
        final(world).wf(),
        final(combat).wf(),
        motion_post(*old(world), *old(combat), input, *final(world), *final(combat)),
{
    let ghost w0 = *world;
    let ghost c0 = *combat;
    // Timers.
    combat.knockback_tick();
    // Facing follows the movement intent, but not while attacking.
    let attacking = !combat.attack_area.is_empty();
    let dx = input.move_x * PLAYER_SPEED;
    let dy = input.move_y * PLAYER_SPEED;
    if !attacking {
        if dx > 0 {
            world.player.dir = Dir::E;
        }
        if dx < 0 {
            world.player.dir = Dir::W;
        }
        if dy > 0 {
            world.player.dir = Dir::N;
        }
        if dy < 0 {
            world.player.dir = Dir::S;
        }
    }
    combat.attack_tick(input.attack, world.player.pos);
    // Movement against the grid.
    move_player(world, dx, dy);
    let ghost w_moved = *world;
    wander_enemies(world, rng);
    // Camera follow.
    let cl = world.current_level;
    let lw = (world.levels[cl].width as i64) * TILE;
    let lh = (world.levels[cl].height as i64) * TILE;
    proof {
        let gw = world.levels@[cl as int].width as int;
        let gh = world.levels@[cl as int].height as int;
        assert(0 <= gw * TILE <= 4096 * TILE) by (nonlinear_arith)
            requires
                1 <= gw <= 4096,
        ;
        assert(0 <= gh * TILE <= 4096 * TILE) by (nonlinear_arith)
            requires
                1 <= gh <= 4096,
        ;
    }
    world.camera = camera_follow(world.camera, world.player.pos, lw, lh);
    proof {
        // The wander facts hold of the roster as it stood before the
        // wander pass, which is the entry roster.
        assert(w_moved.enemies@ == w0.enemies@);
        let gw = w0.levels@[w0.current_level as int].width as int * TILE;
        let gh = w0.levels@[w0.current_level as int].height as int * TILE;
        assert forall|i: int|
            0 <= i < world.enemies@.len() implies #[trigger] wandered(
            w0.enemies@[i],
            world.enemies@[i],
            gw,
            gh,
        ) by {
            assert(wandered(
                w_moved.enemies@[i],
                world.enemies@[i],
                w_moved.levels@[w_moved.current_level as int].width as int * TILE,
                w_moved.levels@[w_moved.current_level as int].height as int * TILE,
            ));
            assert(w_moved.enemies@[i] == w0.enemies@[i]);
        }
        assert(motion_post(w0, c0, input, *world, *combat));
    }
}

/// One removal event per removed index, in list order./// One removal event per removed index, in list order.
pub open spec fn removal_events(removed: Seq<usize>, j: int) -> Seq<Event>
    decreases j,
{
    if j <= 0 {
        Seq::empty()
    } else {
        removal_events(removed, j - 1).push(Event::EnemyRemoved(removed[j - 1]))
    }
}

/// Removal events are removal events and nothing else.
pub proof fn lemma_removal_events_elems(removed: Seq<usize>, j: int)
    ensures
        forall|k: int|
            0 <= k < removal_events(removed, j).len() ==> (#[trigger] removal_events(
                removed,
                j,
            )[k]) is EnemyRemoved,
    decreases j,
{
    if j > 0 {
        lemma_removal_events_elems(removed, j - 1);
        let rest = removal_events(removed, j - 1);
        let whole = removal_events(removed, j);
        assert forall|k: int| 0 <= k < whole.len() implies (#[trigger] whole[k]) is EnemyRemoved by {
            if k < rest.len() {
                assert(whole[k] == rest[k]);
            } else {
                assert(whole[k] == Event::EnemyRemoved(removed[j - 1]));
            }
        }
    }
}

/// The rects one enemy roster presents to collision: one tile-sized
/// box centered on each enemy.
pub open spec fn enemy_rects_of(enemies: Seq<(Pos, EnemyState)>) -> Seq<Rect> {
    Seq::new(enemies.len(), |i: int| spec_make_rect(enemies[i].0.pos))
}

/// The positions of an enemy roster, in slot order.
pub open spec fn positions_of(enemies: Seq<(Pos, EnemyState)>) -> Seq<Vec2> {
    Seq::new(enemies.len(), |i: int| enemies[i].0.pos)
}

/// Everything the collision phase does, exactly, up to the tie order
/// the deepest-first sorts leave open: `tc`, `tec` and `cs` are the
/// sorted tile, enemy-tile and entity contact lists (each a
/// deepest-first ordering of the generated contacts), `sr` the
/// ascending removal order. The player is resolved out of its tiles,
/// the enemies out of theirs, the sorted entity contacts are
/// classified (removals, experience, the damage gate), and the roster
/// is compacted by sorted-descending swap-removes. The game ends
/// exactly when health has run out.
pub open spec fn collisions_post(
    w0: World,
    c0: Combat,
    w1: World,
    c1: Combat,
    damaged: bool,
    removed: Seq<usize>,
    tc: Seq<Contact>,
    tec: Seq<Contact>,
    cs: Seq<Contact>,
    sr: Seq<usize>,
) -> bool {
    let lvl = w0.levels@[w0.current_level as int];
    let p_rect = spec_make_rect(w0.player.pos);
    let erects = enemy_rects_of(w0.enemies@);
    let pgroup = seq![p_rect, c0.attack_area];
    let resolved = spec_resolve_group(positions_of(w0.enemies@), erects, tec, tec.len() as int);
    let enemies1 = Seq::new(
        w0.enemies@.len(),
        |i: int| (Pos { pos: resolved[i], dir: w0.enemies@[i].0.dir }, w0.enemies@[i].1),
    );
    let enemies2 = classify_enemies(enemies1, cs, p_rect, erects, cs.len() as int);
    &&& tc.to_multiset() == tile_all(seq![p_rect], lvl, 1).to_multiset()
    &&& sorted_by_depth(tc)
    &&& w1.player.pos == spec_resolve_pos(w0.player.pos, p_rect, tc, tc.len() as int)
    &&& tec.to_multiset() == tile_all(erects, lvl, erects.len() as int).to_multiset()
    &&& sorted_by_depth(tec)
    &&& cs.to_multiset() == all_pairs(pgroup, erects, 2).to_multiset()
    &&& sorted_by_depth(cs)
    &&& removed == removals(cs, cs.len() as int)
    &&& damaged == (c0.knockback_timer == 0 && has_player_contact(cs, cs.len() as int))
    &&& sorted_ascending(sr)
    &&& sr.to_multiset() == removed.to_multiset()
    &&& w1.enemies@ == remove_desc(enemies2, sr, 0)
    &&& c1.xp == c0.xp + removed.len()
    &&& c1.health == c0.health - (if damaged {
        1int
    } else {
        0int
    })
    &&& c1.knockback_timer == (if damaged {
        KNOCKBACK_TICKS as int
    } else {
        c0.knockback_timer as int
    })
    &&& c1.attack_area == c0.attack_area
    &&& c1.attack_range_halves == c0.attack_range_halves
    &&& c1.attack_timer == c0.attack_timer
    &&& c1.upgrade == c0.upgrade
    &&& w1.game_end == (w0.game_end || c1.health == 0)
    &&& w1.player.dir == w0.player.dir
    &&& w1.paused == w0.paused
    &&& w1.camera == w0.camera
    &&& w1.levels@ == w0.levels@
    &&& w1.current_level == w0.current_level
}

/// The collision part of one tick: build the player, attack and enemy
/// rects, generate entity-vs-entity and entity-vs-tile contacts, sort
/// each list deepest first, push the player and the enemies out of
/// solid tiles, classify attack and damage contacts, and compact the
/// roster by sorted-descending swap-removes.
#[verifier::rlimit(100)]
pub fn tick_collisions(world: &mut World, combat: &mut Combat, events: &mut Vec<Event>) -> (r: (
    bool,
    Vec<usize>,
))
    requires
        old(world).wf(),
        old(combat).wf(),
        old(combat).health >= 1,
        old(combat).xp <= 0x2000_0000,
        old(world).enemies@.len() <= 0x2000_0000,
    ensures
        final(world).wf(),
        final(combat).wf(),
        exists|tc: Seq<Contact>, tec: Seq<Contact>, cs: Seq<Contact>, sr: Seq<usize>|
            #[trigger] collisions_post(
                *old(world),
                *old(combat),
                *final(world),
                *final(combat),
                r.0,
                r.1@,
                tc,
                tec,
                cs,
                sr,
            ),
        final(world).levels@ == old(world).levels@,
        final(world).current_level == old(world).current_level,
        final(world).camera == old(world).camera,
        final(world).paused == old(world).paused,
        final(world).player.dir == old(world).player.dir,
        final(combat).health >= old(combat).health - 1,
        final(world).game_end ==> old(world).game_end || final(combat).health == 0,
        final(combat).health >= 1 || final(world).game_end,
        ({
            let (damaged, removed) = r;
            &&& (damaged <==> final(combat).health == old(combat).health - 1)
            &&& final(events)@ == old(events)@ + (if damaged {
                seq![Event::PlayerDamaged]
            } else {
                Seq::empty()
            }) + removal_events(removed@, removed@.len() as int)
            &&& final(combat).xp == old(combat).xp + removed@.len()
            &&& forall|k: int|
                0 <= k < removed@.len() ==> (#[trigger] removed@[k]) < old(world).enemies@.len()
            &&& final(world).enemies@.len() == old(world).enemies@.len() - removed@.len()
        }),
{
    broadcast use vstd::seq_lib::group_to_multiset_ensures;
    broadcast use vstd::multiset::group_multiset_axioms;

    let ghost w0 = *world;
    let ghost cb0 = *combat;
    // Collision rects: the player body, the attack hitbox, one box per
    // enemy slot.
    let cl = world.current_level;
    let p_rect = make_rect(world.player.pos);
    let mut player_group: Vec<Rect> = Vec::new();
    player_group.push(p_rect);
    player_group.push(combat.attack_area);
    let n_enemies = world.enemies.len();
    let mut enemy_rects: Vec<Rect> = Vec::new();
    let mut i: usize = 0;
    while i < n_enemies
        invariant
            world.wf(),
            n_enemies == world.enemies@.len(),
            i <= n_enemies,
            enemy_rects@.len() == i,
            forall|k: int| 0 <= k < i ==> (#[trigger] enemy_rects@[k]).wf(),
            forall|k: int|
                0 <= k < i ==> (#[trigger] enemy_rects@[k]) == spec_make_rect(
                    world.enemies@[k].0.pos,
                ),
        decreases n_enemies - i,
    {
        let (e, _state) = world.enemies[i];
        enemy_rects.push(make_rect(e.pos));
        i = i + 1;
    }
    proof {
        assert(enemy_rects@ =~= enemy_rects_of(w0.enemies@));
    }
    // Entity-vs-entity and entity-vs-tile contacts.
    let mut contacts: Vec<Contact> = Vec::new();
    generate_contact(&player_group, &enemy_rects, &mut contacts);
    let mut pg: Vec<Rect> = Vec::new();
    pg.push(p_rect);
    let mut tile_contacts: Vec<Contact> = Vec::new();
    let mut tile_enemy_contacts: Vec<Contact> = Vec::new();
    let lvl = &world.levels[cl];
    generate_tile_contact(&pg, lvl, &mut tile_contacts);
    generate_tile_contact(&enemy_rects, lvl, &mut tile_enemy_contacts);
    let ghost glvl = world.levels@[cl as int];
    proof {
        assert(pg@ =~= seq![p_rect]);
        assert(player_group@ =~= seq![p_rect, cb0.attack_area]);
        lemma_all_pairs_props(player_group@, enemy_rects@, player_group@.len() as int);
        lemma_all_pairs_len(player_group@, enemy_rects@, player_group@.len() as int);
        lemma_tile_all_props(pg@, glvl, pg@.len() as int);
        lemma_tile_all_props(enemy_rects@, glvl, enemy_rects@.len() as int);
        assert(contacts@ =~= all_pairs(player_group@, enemy_rects@, 2));
        assert(tile_contacts@ =~= tile_all(pg@, glvl, 1));
        assert(tile_enemy_contacts@ =~= tile_all(enemy_rects@, glvl, enemy_rects@.len() as int));
        assert forall|k: int| 0 <= k < contacts@.len() implies {
            &&& (#[trigger] contacts@[k]).displacement.wf()
            &&& contacts@[k].b_index < enemy_rects@.len()
            &&& contacts@[k].b_rect.wf()
        } by {
            assert(contacts@[k] == all_pairs(player_group@, enemy_rects@, 2)[k]);
        }
        assert forall|k: int| 0 <= k < tile_contacts@.len() implies {
            &&& (#[trigger] tile_contacts@[k]).displacement.wf()
            &&& tile_contacts@[k].b_rect.wf()
        } by {
            assert(tile_contacts@[k] == tile_all(pg@, glvl, 1)[k]);
        }
        assert forall|k: int| 0 <= k < tile_enemy_contacts@.len() implies {
            &&& (#[trigger] tile_enemy_contacts@[k]).displacement.wf()
            &&& tile_enemy_contacts@[k].b_rect.wf()
            &&& tile_enemy_contacts@[k].a_index < enemy_rects@.len()
        } by {
            assert(tile_enemy_contacts@[k] == tile_all(
                enemy_rects@,
                glvl,
                enemy_rects@.len() as int,
            )[k]);
        }
    }
    // Deepest-first resolution: player out of tiles.
    let ghost tc0 = tile_contacts@;
    sort_contacts(&mut tile_contacts);
    proof {
        lemma_perm_preserves(tc0, tile_contacts@, |c: Contact| c.b_rect.wf());
        assert(forall|k: int|
            0 <= k < tile_contacts@.len() ==> (#[trigger] tile_contacts@[k]).b_rect.wf());
    }
    world.player.pos = resolve_pos(world.player.pos, p_rect, &tile_contacts);
    // Deepest-first resolution: enemies out of tiles.
    let ghost tec0 = tile_enemy_contacts@;
    sort_contacts(&mut tile_enemy_contacts);
    proof {
        lemma_perm_preserves(
            tec0,
            tile_enemy_contacts@,
            |c: Contact| c.b_rect.wf() && c.a_index < enemy_rects@.len(),
        );
        assert(forall|k: int|
            0 <= k < tile_enemy_contacts@.len() ==> ((#[trigger] tile_enemy_contacts@[k]).b_rect.wf()
                && tile_enemy_contacts@[k].a_index < enemy_rects@.len()));
    }
    let mut epos: Vec<Vec2> = Vec::new();
    let mut i2: usize = 0;
    while i2 < n_enemies
        invariant
            world.wf(),
            n_enemies == world.enemies@.len(),
            i2 <= n_enemies,
            epos@.len() == i2,
            forall|k: int|
                0 <= k < i2 ==> (#[trigger] epos@[k]).wf() && epos@[k].in_world(),
            forall|k: int| 0 <= k < i2 ==> (#[trigger] epos@[k]) == world.enemies@[k].0.pos,
        decreases n_enemies - i2,
    {
        let (e, _state) = world.enemies[i2];
        epos.push(e.pos);
        i2 = i2 + 1;
    }
    let ghost epos0 = epos@;
    proof {
        assert(epos@.len() == enemy_rects@.len());
        assert(epos0 =~= positions_of(w0.enemies@));
    }
    resolve_group(&mut epos, &enemy_rects, &tile_enemy_contacts);
    let ghost wsnap = *world;
    let mut i3: usize = 0;
    while i3 < n_enemies
        invariant
            world.wf(),
            n_enemies == world.enemies@.len(),
            n_enemies == epos@.len(),
            i3 <= n_enemies,
            forall|k: int| 0 <= k < epos@.len() ==> (#[trigger] epos@[k]).wf() && epos@[k].in_world(),
            forall|k: int|
                i3 <= k < n_enemies ==> (#[trigger] world.enemies@[k]) == wsnap.enemies@[k],
            forall|k: int|
                0 <= k < i3 ==> (#[trigger] world.enemies@[k]) == (
                Pos { pos: epos@[k], dir: wsnap.enemies@[k].0.dir },
                wsnap.enemies@[k].1,
            ),
            *world == (World { enemies: world.enemies, ..wsnap }),
        decreases n_enemies - i3,
    {
        let (e, state) = world.enemies[i3];
        world.enemies.set(i3, (Pos { pos: epos[i3], dir: e.dir }, state));
        i3 = i3 + 1;
    }
    proof {
        // The roster now carries the tile-resolved positions.
        assert(wsnap.enemies@ == w0.enemies@);
        assert(world.enemies@ =~= Seq::new(
            w0.enemies@.len(),
            |k: int| (
                Pos {
                    pos: spec_resolve_group(
                        positions_of(w0.enemies@),
                        enemy_rects_of(w0.enemies@),
                        tile_enemy_contacts@,
                        tile_enemy_contacts@.len() as int,
                    )[k],
                    dir: w0.enemies@[k].0.dir,
                },
                w0.enemies@[k].1,
            ),
        ));
    }
    // Classification: deepest first, then attack removals and the
    // damage gate.
    let ghost enemies1 = world.enemies@;
    let ghost c0 = contacts@;
    sort_contacts(&mut contacts);
    proof {
        lemma_perm_preserves(c0, contacts@, |c: Contact| c.b_index < enemy_rects@.len());
        assert(forall|k: int|
            0 <= k < contacts@.len() ==> (#[trigger] contacts@[k]).b_index < enemy_rects@.len());
        lemma_all_pairs_len(player_group@, enemy_rects@, 2);
        assert(contacts@.len() == c0.len());
        assert(c0.len() <= 2 * enemy_rects@.len());
        assert(enemy_rects@.len() <= 0x2000_0000);
        assert(combat.xp + contacts@.len() <= u32::MAX);
    }
    let health_before = combat.health;
    let removed = combat.classify_contacts(&contacts, p_rect, &enemy_rects, &mut world.enemies);
    let was_damaged = combat.health < health_before;
    let ghost enemies2 = world.enemies@;
    let ghost events_base = events@;
    if was_damaged {
        events.push(Event::PlayerDamaged);
    }
    let ghost events_mid = events@;
    if combat.health == 0 {
        world.game_over();
    }
    let mut i4: usize = 0;
    while i4 < removed.len()
        invariant
            i4 <= removed@.len(),
            events@ == events_mid + removal_events(removed@, i4 as int),
        decreases removed@.len() - i4,
    {
        events.push(Event::EnemyRemoved(removed[i4]));
        i4 = i4 + 1;
    }
    proof {
        assert(events@ =~= events_base + (if was_damaged {
            seq![Event::PlayerDamaged]
        } else {
            Seq::empty()
        }) + removal_events(removed@, removed@.len() as int));
    }
    let mut to_remove = removed.clone();
    // Sorted-descending swap-remove compaction.
    proof {
        lemma_removals_props(contacts@, contacts@.len() as int, world.enemies@.len() as int);
    }
    let ghost removed0 = to_remove@;
    sort_indices(&mut to_remove);
    proof {
        lemma_sorted_unique_ascending(removed0, to_remove@, world.enemies@.len() as int);
    }
    let ghost enemies_before = world.enemies@;
    remove_indices(&mut world.enemies, &to_remove);
    proof {
        assert forall|k: int| 0 <= k < world.enemies@.len() implies ((
        #[trigger] world.enemies@[k]).0.pos.wf() && world.enemies@[k].0.pos.in_world()) by {
            assert(enemies_before.contains(world.enemies@[k]));
            let w = choose|i: int|
                0 <= i < enemies_before.len() && enemies_before[i] == world.enemies@[k];
            assert(enemies_before[w].0.pos.wf());
        }
        // The whole phase, with the sorted lists as witnesses.
        assert(collisions_post(
            *old(world),
            *old(combat),
            *world,
            *combat,
            was_damaged,
            removed@,
            tile_contacts@,
            tile_enemy_contacts@,
            contacts@,
            to_remove@,
        ));
        assert(exists|tc: Seq<Contact>, tec: Seq<Contact>, cs: Seq<Contact>, sr: Seq<usize>|
            #[trigger] collisions_post(
                *old(world),
                *old(combat),
                *world,
                *combat,
                was_damaged,
                removed@,
                tc,
                tec,
                cs,
                sr,
            ));
    }
    let result = (was_damaged, removed);
    proof {
        assert(result.0 == was_damaged && result.1@ == removed@);
        assert(exists|tc: Seq<Contact>, tec: Seq<Contact>, cs: Seq<Contact>, sr: Seq<usize>|
            #[trigger] collisions_post(
                *old(world),
                *old(combat),
                *world,
                *combat,
                result.0,
                result.1@,
                tc,
                tec,
                cs,
                sr,
            ));
    }
    result
}

/// One whole tick, exactly, up to the drawn randomness and sort tie
/// order: the intent phase runs first; a tick left paused or ended
/// stops there, with the world and combat state exactly as the intent
/// phase left them (a paused tick moves nothing, spawns nothing and
/// touches no timer); otherwise some motion-phase state and some
/// collision-phase witnesses connect the intent phase's result to the
/// final one.
pub open spec fn simulate_post(
    w0: World,
    c0: Combat,
    input: TickInput,
    w1: World,
    c1: Combat,
    w_end: World,
    c_end: Combat,
) -> bool {
    &&& intents_post(w0, c0, input, w1, c1)
    &&& if w1.paused || w1.game_end {
        w_end == w1 && c_end == c1
    } else {
        exists|w2: World, c2: Combat|
            #[trigger] motion_post(w1, c1, input, w2, c2) && exists|
                damaged: bool,
                removed: Seq<usize>,
                tc: Seq<Contact>,
                tec: Seq<Contact>,
                cs: Seq<Contact>,
                sr: Seq<usize>,
            |
                #[trigger] collisions_post(w2, c2, w_end, c_end, damaged, removed, tc, tec, cs, sr)
    }
}

/// One fixed-time-step tick: spawn roll, level-up and upgrade menu,
/// pause gate, timers, facing and attack, player movement against the
/// grid, enemy wander, camera follow, contact generation, deepest-first
/// resolution, classification, and removal compaction. Returns the
/// tick's transient events.
///
/// The whole tick is pinned by `simulate_post`: the intent phase
/// exactly, then — only on an unpaused, running tick — the motion and
/// collision phases exactly, up to the drawn randomness and the tie
/// order of the deepest-first sorts. In particular health falls by at
/// most one per tick, the game-over flag rises only on a quit intent
/// or when health reaches zero, and a world whose game is still
/// running keeps a living player.
pub fn simulate_tick(
    world: &mut World,
    combat: &mut Combat,
    input: TickInput,
    rng: &mut rand::rngs::ThreadRng,
) -> (events: Vec<Event>)
    requires
        old(world).wf(),
        old(combat).wf(),
        input.wf(),
        !old(world).game_end ==> old(combat).health >= 1,
        old(combat).xp <= 0x1000_0000,
        old(world).enemies@.len() <= 0x1000_0000,
    ensures
        final(world).wf(),
        final(combat).wf(),
        exists|w1: World, c1: Combat|
            #[trigger] simulate_post(
                *old(world),
                *old(combat),
                input,
                w1,
                c1,
                *final(world),
                *final(combat),
            ),
        final(world).levels@ == old(world).levels@,
        final(world).current_level == old(world).current_level,
        final(combat).health >= old(combat).health - 1,
        final(world).game_end ==> old(world).game_end || input.quit || final(combat).health
            == 0,
        !final(world).game_end ==> final(combat).health >= 1,
        events@.contains(Event::LeveledUp) <==> old(combat).xp >= LEVELUP_XP,
{
    let mut events: Vec<Event> = Vec::new();
    let go = tick_intents(world, combat, input, rng, &mut events);
    let ghost e0 = events@;
    let ghost wi = *world;
    let ghost ci = *combat;
    if go {
        tick_motion(world, combat, input, rng);
        let ghost wm = *world;
        let ghost cm = *combat;
        let r = tick_collisions(world, combat, &mut events);
        proof {
            let (damaged, removed) = r;
            let dmg: Seq<Event> = if damaged {
                seq![Event::PlayerDamaged]
            } else {
                Seq::empty()
            };
            let rem = removal_events(removed@, removed@.len() as int);
            lemma_removal_events_elems(removed@, removed@.len() as int);
            assert(events@ == e0 + dmg + rem);
            if old(combat).xp >= LEVELUP_XP {
                assert(e0[0] == Event::LeveledUp);
                assert(events@[0] == Event::LeveledUp);
                assert(events@.contains(Event::LeveledUp));
            } else {
                assert(e0.len() == 0);
                assert forall|k: int|
                    0 <= k < events@.len() implies (#[trigger] events@[k]) != Event::LeveledUp by {
                    if k < e0.len() + dmg.len() {
                        assert(events@[k] == dmg[k - e0.len()]);
                    } else {
                        assert(events@[k] == rem[k - e0.len() - dmg.len()]);
                    }
                }
                assert(!events@.contains(Event::LeveledUp));
            }
            // The witness chain: motion from the intent state, then
            // the collision phase's own witnesses.
            assert(motion_post(wi, ci, input, wm, cm));
            let (tc, tec, cs, sr) = choose|tc: Seq<Contact>, tec: Seq<Contact>, cs: Seq<
                Contact,
            >, sr: Seq<usize>|
                #[trigger] collisions_post(wm, cm, *world, *combat, r.0, r.1@, tc, tec, cs, sr);
            assert(collisions_post(wm, cm, *world, *combat, r.0, r.1@, tc, tec, cs, sr));
            assert(simulate_post(*old(world), *old(combat), input, wi, ci, *world, *combat));
        }
    } else {
        proof {
            if old(combat).xp >= LEVELUP_XP {
                assert(events@[0] == Event::LeveledUp);
                assert(events@.contains(Event::LeveledUp));
            } else {
                assert(events@.len() == 0);
                assert(!events@.contains(Event::LeveledUp));
            }
            assert(simulate_post(*old(world), *old(combat), input, wi, ci, *world, *combat));
        }
    }
    events
}

} // verus!
