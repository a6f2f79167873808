//! The player's combat state and the classification of non-physical
//! contacts: the attack timer state machine, the knockback /
//! invulnerability gate on damage, experience and upgrades, and the
//! pass that turns attack-vs-enemy and enemy-vs-player contacts into
//! removals and damage.

use vstd::prelude::*;
use vstd::pervasive::VecAdditionalExecFns;

use crate::contact::{contains_idx, spec_displacement, Contact, find_displacement};
use crate::geom::{spec_add_clamped, Pos, Rect, Vec2, TILE};
use crate::world::EnemyState;

verus! {

/// Ticks an attack stays out once fired (0.3 s at 60 ticks per second).
pub const ATTACK_MAX_TICKS: u32 = 18;

/// Ticks of cooldown at the tail of an attack (0.1 s): the hitbox is
/// gone but a new attack cannot start yet.
pub const ATTACK_COOLDOWN_TICKS: u32 = 6;

/// Invulnerability window after taking damage (1 s).
pub const KNOCKBACK_TICKS: u32 = 60;

/// Experience points that trigger a level-up.
pub const LEVELUP_XP: u32 = 5;

/// Health a fresh player starts with.
pub const START_HEALTH: u32 = 3;

/// Initial attack range in half-tiles (three tiles).
pub const START_RANGE_HALVES: u32 = 6;

/// Largest attack range in half-tiles an upgrade can reach: the
/// largest count for which a fired hitbox anchored anywhere in the
/// entity-position range stays inside the geometry range — its anchor
/// moves `240` units per half-tile, so the slack between the two
/// ranges divided by that step bounds the stat.
pub const MAX_RANGE_HALVES: u32 = (0x4000_0000 - 0x2000_0000) / 240;

/// A transient event of one tick, for the presentation layer to react
/// to; never persisted.
#[derive(Clone, Copy, Debug, PartialEq, Eq, Structural)]
pub enum Event {
    EnemyRemoved(usize),
    PlayerDamaged,
    LeveledUp,
}

/// Phase of the attack timer state machine.
#[derive(Clone, Copy, Debug, PartialEq, Eq, Structural)]
pub enum AttackState {
    Idle,
    Active,
    Cooldown,
}

/// The per-player combat state of the adventure variant.
pub struct Combat {
    /// The active attack hitbox; an empty rect when no attack is out.
    pub attack_area: Rect,
    /// Attack range in half-tiles; upgrades add one half-tile.
    pub attack_range_halves: u32,
    /// Remaining ticks of the current attack, cooldown included.
    pub attack_timer: u32,
    /// Remaining ticks of the invulnerability window.
    pub knockback_timer: u32,
    pub health: u32,
    pub xp: u32,
    /// An upgrade choice is pending (the game pauses under it).
    pub upgrade: bool,
}

/// The attack hitbox fired from `p`: a square of `halves/2` whole tiles
/// centered on the player.
pub open spec fn spec_attack_rect(p: Vec2, halves: u32) -> Rect {
    Rect {
        x: (p.x - 240 * halves) as i64,
        y: (p.y - 240 * halves) as i64,
        w: ((halves as int / 2) * TILE) as i64,
        h: ((halves as int / 2) * TILE) as i64,
    }
}

/// The empty hitbox.
pub open spec fn spec_empty_rect() -> Rect {
    Rect { x: 0i64, y: 0i64, w: 0i64, h: 0i64 }
}

impl Combat {
    /// Structural invariant: timers and range bounded, and the hitbox
    /// tracks the timer phase — a non-empty area exactly while the
    /// attack is active (timer above the cooldown threshold).
    pub open spec fn wf(self) -> bool {
        &&& START_RANGE_HALVES <= self.attack_range_halves <= MAX_RANGE_HALVES
        &&& self.attack_timer <= ATTACK_MAX_TICKS
        &&& self.knockback_timer <= KNOCKBACK_TICKS
        &&& self.attack_area.wf()
        &&& self.attack_timer > ATTACK_COOLDOWN_TICKS ==> !(self.attack_area.w == 0
            || self.attack_area.h == 0)
        &&& self.attack_timer <= ATTACK_COOLDOWN_TICKS ==> (self.attack_area.w == 0
            || self.attack_area.h == 0)
    }

    /// Phase of the attack state machine: idle (no attack, ready),
    /// active (hitbox out), or cooldown (hitbox gone, timer draining).
    pub open spec fn attack_state(self) -> AttackState {
        if self.attack_timer == 0 {
            AttackState::Idle
        } else if self.attack_timer > ATTACK_COOLDOWN_TICKS {
            AttackState::Active
        } else {
            AttackState::Cooldown
        }
    }

    /// A fresh combat state: full health, no attack out, no
    /// invulnerability.
    pub fn new() -> (r: Combat)
        ensures
            r.health == START_HEALTH,
            r.xp == 0,
            r.attack_timer == 0,
            r.knockback_timer == 0,
            r.attack_range_halves == START_RANGE_HALVES,
            r.attack_area == spec_empty_rect(),
            !r.upgrade,
            r.wf(),
            r.attack_state() is Idle,
    {
        Combat {
            attack_area: Rect { x: 0, y: 0, w: 0, h: 0 },
            attack_range_halves: START_RANGE_HALVES,
            attack_timer: 0,
            knockback_timer: 0,
            health: START_HEALTH,
            xp: 0,
            upgrade: false,
        }
    }
}

/// One tick of the attack state machine: drain the timer; fire a new
/// attack (timer to maximum, hitbox anchored on the player, sized by
/// the range stat) when the timer has reached zero and an attack is
/// intended; clear the hitbox once the timer is inside the cooldown.
pub open spec fn spec_attack_tick(c: Combat, intent: bool, p: Vec2) -> Combat {
    let t1: u32 = if c.attack_timer > 0 {
        (c.attack_timer - 1) as u32
    } else {
        0u32
    };
    if t1 == 0 && intent {
        Combat {
            attack_timer: ATTACK_MAX_TICKS,
            attack_area: spec_attack_rect(p, c.attack_range_halves),
            ..c
        }
    } else if t1 <= ATTACK_COOLDOWN_TICKS {
        Combat { attack_timer: t1, attack_area: spec_empty_rect(), ..c }
    } else {
        Combat { attack_timer: t1, ..c }
    }
}

/// One tick of the invulnerability countdown, clamped at zero.
pub open spec fn spec_knock_tick(c: Combat) -> Combat {
    if c.knockback_timer > 0 {
        Combat { knockback_timer: (c.knockback_timer - 1) as u32, ..c }
    } else {
        c
    }
}

/// The damage gate on one enemy-vs-player contact: if the window is
/// closed (timer zero) the hit lands — health drops by one and the
/// window opens; while the window is open the hit is ignored.
pub open spec fn spec_damage(c: Combat) -> Combat {
    if c.knockback_timer == 0 {
        Combat { knockback_timer: KNOCKBACK_TICKS, health: (c.health - 1) as u32, ..c }
    } else {
        c
    }
}

impl Combat {
    /// Advance the attack state machine by one tick.
    pub fn attack_tick(&mut self, intent: bool, p: Vec2)
        requires
            old(self).wf(),
            p.wf(),
            p.in_world(),
        ensures
            *final(self) == spec_attack_tick(*old(self), intent, p),
            final(self).wf(),
    {
        if self.attack_timer > 0 {
            self.attack_timer = self.attack_timer - 1;
        }
        if self.attack_timer == 0 && intent {
            self.attack_timer = ATTACK_MAX_TICKS;
            let half = 240i64 * (self.attack_range_halves as i64);
            let side = ((self.attack_range_halves / 2) as i64) * TILE;
            self.attack_area = Rect { x: p.x - half, y: p.y - half, w: side, h: side };
        } else if self.attack_timer <= ATTACK_COOLDOWN_TICKS {
            self.attack_area = Rect { x: 0, y: 0, w: 0, h: 0 };
        }
    }

    /// Advance the invulnerability countdown by one tick.
    pub fn knockback_tick(&mut self)
        requires
            old(self).wf(),
        ensures
            *final(self) == spec_knock_tick(*old(self)),
            final(self).wf(),
    {
        if self.knockback_timer > 0 {
            self.knockback_timer = self.knockback_timer - 1;
        }
    }
}

/// The attack timer state machine takes only its intended transitions:
/// idle fires into active exactly on an attack intent; active drains
/// into cooldown and never refires early; cooldown drains toward idle,
/// and can fire the moment the timer runs out. A well-formed state
/// keeps its hitbox out exactly while active.
pub proof fn lemma_attack_state_machine(c: Combat, intent: bool, p: Vec2)
    requires
        c.wf(),
    ensures
        ({
            let n = spec_attack_tick(c, intent, p);
            &&& c.attack_state() is Idle && intent ==> n.attack_state() is Active
            &&& c.attack_state() is Idle && !intent ==> n.attack_state() is Idle
            &&& c.attack_state() is Active ==> (n.attack_state() is Active
                || n.attack_state() is Cooldown) && n.attack_timer == c.attack_timer - 1
            &&& c.attack_state() is Cooldown && c.attack_timer > 1 ==> n.attack_state()
                is Cooldown
            &&& c.attack_state() is Cooldown && c.attack_timer == 1 && intent
                ==> n.attack_state() is Active
            &&& c.attack_state() is Cooldown && c.attack_timer == 1 && !intent
                ==> n.attack_state() is Idle
            &&& n.attack_state() is Active <==> !(n.attack_area.w == 0 || n.attack_area.h
                == 0)
        }),
{
    let n = spec_attack_tick(c, intent, p);
    assert(n.attack_state() is Active ==> !(n.attack_area.w == 0 || n.attack_area.h == 0)) by {
        if n.attack_state() is Active {
            if c.attack_timer > 0 && c.attack_timer - 1 > ATTACK_COOLDOWN_TICKS && !(
            c.attack_timer - 1 == 0 && intent) {
                assert(n.attack_area == c.attack_area);
            }
        }
    }
}

/// Iterated invulnerability countdown.
pub open spec fn knock_after(c: Combat, n: nat) -> Combat
    decreases n,
{
    if n == 0 {
        c
    } else {
        spec_knock_tick(knock_after(c, (n - 1) as nat))
    }
}

/// Counting the window down for `n` ticks drains exactly `n` from the
/// timer and changes nothing else.
proof fn lemma_knock_after(c: Combat, n: nat)
    requires
        n <= c.knockback_timer,
    ensures
        knock_after(c, n) == (Combat {
            knockback_timer: (c.knockback_timer - n) as u32,
            ..c
        }),
    decreases n,
{
    if n > 0 {
        lemma_knock_after(c, (n - 1) as nat);
    }
}

/// Health never decreases more than once within one invulnerability
/// window: a hit that lands opens the window, and a second
/// damage-triggering contact any number of ticks later — fewer than the
/// window's length — leaves health where the first hit put it.
pub proof fn lemma_invulnerability_window(c: Combat, n: nat)
    requires
        c.knockback_timer == 0,
        c.health >= 1,
        n < KNOCKBACK_TICKS,
    ensures
        spec_damage(c).health == c.health - 1,
        spec_damage(knock_after(spec_damage(c), n)).health == c.health - 1,
        knock_after(spec_damage(c), n).knockback_timer > 0,
{
    let c1 = spec_damage(c);
    lemma_knock_after(c1, n);
}

/// The removal list the classification pass collects from a sorted
/// contact list: one entry per attack-vs-enemy contact whose enemy was
/// not already collected this pass, in contact order.
pub open spec fn removals(contacts: Seq<Contact>, j: int) -> Seq<usize>
    decreases j,
{
    if j <= 0 {
        Seq::empty()
    } else {
        let rest = removals(contacts, j - 1);
        let c = contacts[j - 1];
        if c.a_index == 1 && !rest.contains(c.b_index) {
            rest.push(c.b_index)
        } else {
            rest
        }
    }
}

/// Whether any of `contacts[0..j]` is an enemy-vs-player-body contact.
pub open spec fn has_player_contact(contacts: Seq<Contact>, j: int) -> bool {
    exists|i: int| 0 <= i < j && (#[trigger] contacts[i]).a_index == 0
}

/// Enemy roster after the classification pass: each enemy collected for
/// removal is also pushed away from the player body rect (against the
/// pre-pass rects), in contact order.
pub open spec fn classify_enemies(
    enemies: Seq<(Pos, EnemyState)>,
    contacts: Seq<Contact>,
    p_rect: Rect,
    rects: Seq<Rect>,
    j: int,
) -> Seq<(Pos, EnemyState)>
    decreases j,
{
    if j <= 0 {
        enemies
    } else {
        let prev = classify_enemies(enemies, contacts, p_rect, rects, j - 1);
        let c = contacts[j - 1];
        let b = c.b_index as int;
        if c.a_index == 1 && !removals(contacts, j - 1).contains(c.b_index) {
            prev.update(
                b,
                (
                    Pos {
                        pos: spec_add_clamped(prev[b].0.pos, spec_displacement(p_rect, rects[b])),
                        dir: prev[b].0.dir,
                    },
                    prev[b].1,
                ),
            )
        } else {
            prev
        }
    }
}

/// The removal list never names an enemy twice, and stays inside the
/// roster.
pub proof fn lemma_removals_props(contacts: Seq<Contact>, j: int, n: int)
    requires
        forall|k: int| 0 <= k < contacts.len() ==> (#[trigger] contacts[k]).b_index < n,
        j <= contacts.len(),
    ensures
        removals(contacts, j).no_duplicates(),
        removals(contacts, j).len() <= (if j >= 0 {
            j
        } else {
            0
        }),
        forall|k: int|
            0 <= k < removals(contacts, j).len() ==> (#[trigger] removals(contacts, j)[k]) < n,
    decreases j,
{
    if j > 0 {
        lemma_removals_props(contacts, j - 1, n);
        let rest = removals(contacts, j - 1);
        let whole = removals(contacts, j);
        let c = contacts[j - 1];
        if c.a_index == 1 && !rest.contains(c.b_index) {
            assert forall|k: int| 0 <= k < whole.len() implies (#[trigger] whole[k]) < n by {
                if k < rest.len() {
                    assert(whole[k] == rest[k]);
                } else {
                    assert(whole[k] == c.b_index);
                }
            }
            assert forall|p: int, q: int|
                0 <= p < q < whole.len() implies whole[p] != whole[q] by {
                if q < rest.len() {
                } else {
                    assert(whole[q] == c.b_index);
                    assert(whole[p] == rest[p]);
                    assert(rest.contains(rest[p]));
                }
            }
        }
    }
}

impl Combat {
    /// Classify a sorted contact list built from the groups
    /// `[player body, attack hitbox]` against the enemy rects: each
    /// attack contact marks its enemy for removal at most once this
    /// pass, pushes it away from the player body, and earns one
    /// experience point; each player-body contact runs the damage gate,
    /// so at most one hit lands per pass. Returns the removal list in
    /// collection order.
    pub fn classify_contacts(
        &mut self,
        contacts: &Vec<Contact>,
        p_rect: Rect,
        enemy_rects: &Vec<Rect>,
        enemies: &mut Vec<(Pos, EnemyState)>,
    ) -> (removed: Vec<usize>)
        requires
            old(self).wf(),
            old(self).health >= 1,
            old(self).xp + contacts@.len() <= u32::MAX,
            p_rect.wf(),
            old(enemies)@.len() == enemy_rects@.len(),
            forall|k: int| 0 <= k < enemy_rects@.len() ==> (#[trigger] enemy_rects@[k]).wf(),
            forall|k: int|
                0 <= k < old(enemies)@.len() ==> (#[trigger] old(enemies)@[k]).0.pos.wf() && old(
                    enemies,
                )@[k].0.pos.in_world(),
            forall|k: int|
                0 <= k < contacts@.len() ==> (#[trigger] contacts@[k]).b_index
                    < enemy_rects@.len(),
        ensures
            final(enemies)@ == classify_enemies(
                old(enemies)@,
                contacts@,
                p_rect,
                enemy_rects@,
                contacts@.len() as int,
            ),
            final(enemies)@.len() == old(enemies)@.len(),
            forall|k: int|
                0 <= k < final(enemies)@.len() ==> (#[trigger] final(enemies)@[k]).0.pos.wf()
                    && final(enemies)@[k].0.pos.in_world(),
            removed@ == removals(contacts@, contacts@.len() as int),
            final(self).xp == old(self).xp + removed@.len(),
            ({
                let damaged = old(self).knockback_timer == 0 && has_player_contact(
                    contacts@,
                    contacts@.len() as int,
                );
                &&& final(self).health == old(self).health - (if damaged {
                    1int
                } else {
                    0int
                })
                &&& final(self).knockback_timer == (if damaged {
                    KNOCKBACK_TICKS as int
                } else {
                    old(self).knockback_timer as int
                })
            }),
            has_player_contact(contacts@, contacts@.len() as int) ==> final(self).health
                == spec_damage(*old(self)).health && final(self).knockback_timer == spec_damage(
                *old(self),
            ).knockback_timer,
            final(self).attack_area == old(self).attack_area,
            final(self).attack_range_halves == old(self).attack_range_halves,
            final(self).attack_timer == old(self).attack_timer,
            final(self).upgrade == old(self).upgrade,
            final(self).wf(),
    {
        let mut removed: Vec<usize> = Vec::new();
        let mut j: usize = 0;
        while j < contacts.len()
            invariant
                self.wf(),
                old(self).wf(),
                old(self).health >= 1,
                old(self).xp + contacts@.len() <= u32::MAX,
                p_rect.wf(),
                old(enemies)@.len() == enemy_rects@.len(),
                forall|k: int| 0 <= k < enemy_rects@.len() ==> (#[trigger] enemy_rects@[k]).wf(),
                forall|k: int|
                    0 <= k < old(enemies)@.len() ==> (#[trigger] old(enemies)@[k]).0.pos.wf()
                        && old(enemies)@[k].0.pos.in_world(),
                forall|k: int|
                    0 <= k < contacts@.len() ==> (#[trigger] contacts@[k]).b_index
                        < enemy_rects@.len(),
                j <= contacts@.len(),
                enemies@ == classify_enemies(
                    old(enemies)@,
                    contacts@,
                    p_rect,
                    enemy_rects@,
                    j as int,
                ),
                enemies@.len() == old(enemies)@.len(),
                forall|k: int|
                    0 <= k < enemies@.len() ==> (#[trigger] enemies@[k]).0.pos.wf()
                        && enemies@[k].0.pos.in_world(),
                removed@ == removals(contacts@, j as int),
                self.xp == old(self).xp + removed@.len(),
                ({
                    let damaged = old(self).knockback_timer == 0 && has_player_contact(
                        contacts@,
                        j as int,
                    );
                    &&& self.health == old(self).health - (if damaged {
                        1int
                    } else {
                        0int
                    })
                    &&& self.knockback_timer == (if damaged {
                        KNOCKBACK_TICKS as int
                    } else {
                        old(self).knockback_timer as int
                    })
                }),
                self.attack_area == old(self).attack_area,
                self.attack_range_halves == old(self).attack_range_halves,
                self.attack_timer == old(self).attack_timer,
                self.upgrade == old(self).upgrade,
            decreases contacts@.len() - j,
        {
            let c = contacts[j];
            proof {
                lemma_removals_props(contacts@, j as int, enemy_rects@.len() as int);
            }
            if c.a_index == 1 && !contains_idx(&removed, c.b_index) {
                let b = c.b_index;
                let d = find_displacement(p_rect, enemy_rects[b]);
                let (old_pos, state) = enemies[b];
                let moved = Pos { pos: old_pos.pos.add_clamped(d), dir: old_pos.dir };
                enemies.set(b, (moved, state));
                removed.push(b);
                self.xp = self.xp + 1;
            }
            if c.a_index == 0 {
                if self.knockback_timer == 0 {
                    self.knockback_timer = KNOCKBACK_TICKS;
                    self.health = self.health - 1;
                    proof {
                        assert(has_player_contact(contacts@, j as int + 1)) by {
                            assert(contacts@[j as int].a_index == 0);
                        }
                    }
                }
            }
            proof {
                if has_player_contact(contacts@, j as int) {
                    assert(has_player_contact(contacts@, j as int + 1)) by {
                        let w = choose|i: int|
                            0 <= i < j && (#[trigger] contacts@[i]).a_index == 0;
                        assert(contacts@[w].a_index == 0);
                    }
                } else if contacts@[j as int].a_index != 0 {
                    assert(!has_player_contact(contacts@, j as int + 1)) by {
                        assert forall|i: int|
                            0 <= i < j + 1 && (#[trigger] contacts@[i]).a_index == 0 implies false by {
                            assert(has_player_contact(contacts@, j as int));
                        }
                    }
                } else {
                    assert(has_player_contact(contacts@, j as int + 1)) by {
                        assert(contacts@[j as int].a_index == 0);
                    }
                }
            }
            j = j + 1;
        }
        removed
    }
}

} // verus!
