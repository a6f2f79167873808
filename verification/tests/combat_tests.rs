use tileworld::combat::{
    Combat, ATTACK_COOLDOWN_TICKS, ATTACK_MAX_TICKS, KNOCKBACK_TICKS, START_HEALTH,
    START_RANGE_HALVES,
};
use tileworld::contact::Contact;
use tileworld::geom::{Dir, Pos, Rect, Vec2, TILE};
use tileworld::world::EnemyState;

fn player_contact() -> Contact {
    Contact {
        displacement: Vec2 { x: 10, y: 10 },
        a_index: 0,
        a_rect: Rect { x: 0, y: 0, w: TILE, h: TILE },
        b_index: 0,
        b_rect: Rect { x: 10, y: 10, w: TILE, h: TILE },
    }
}

fn attack_contact(b: usize) -> Contact {
    Contact {
        displacement: Vec2 { x: 10, y: 10 },
        a_index: 1,
        a_rect: Rect { x: 0, y: 0, w: 3 * TILE, h: 3 * TILE },
        b_index: b,
        b_rect: Rect { x: 10, y: 10, w: TILE, h: TILE },
    }
}

fn enemy_at(x: i64, y: i64) -> (Pos, EnemyState) {
    (Pos { pos: Vec2 { x, y }, dir: Dir::S }, EnemyState::Alive)
}

#[test]
fn fresh_combat_state() {
    let c = Combat::new();
    assert_eq!(c.health, START_HEALTH);
    assert_eq!(c.xp, 0);
    assert_eq!(c.attack_timer, 0);
    assert_eq!(c.knockback_timer, 0);
    assert_eq!(c.attack_range_halves, START_RANGE_HALVES);
    assert!(c.attack_area.is_empty());
    assert!(!c.upgrade);
}

#[test]
fn attack_fires_from_idle_on_intent() {
    let mut c = Combat::new();
    let p = Vec2 { x: 10 * TILE, y: 10 * TILE };
    c.attack_tick(true, p);
    assert_eq!(c.attack_timer, ATTACK_MAX_TICKS);
    assert!(!c.attack_area.is_empty());
    // Range 3 tiles: a square of 3 tiles centered on the player.
    assert_eq!(c.attack_area.w, 3 * TILE);
    assert_eq!(c.attack_area.h, 3 * TILE);
    assert_eq!(c.attack_area.x, p.x - 240 * (START_RANGE_HALVES as i64));
}

#[test]
fn attack_does_not_refire_while_active_or_cooling() {
    let mut c = Combat::new();
    let p = Vec2 { x: 0, y: 0 };
    c.attack_tick(true, p);
    // Drain through the active phase: the hitbox stays out until the
    // timer reaches the cooldown threshold, then clears.
    let mut ticks = 0;
    while c.attack_timer > ATTACK_COOLDOWN_TICKS {
        assert!(!c.attack_area.is_empty());
        c.attack_tick(true, p);
        ticks += 1;
        assert!(ticks < 100);
    }
    // Cooldown: hitbox gone, timer still draining, no refire yet.
    assert!(c.attack_area.is_empty());
    assert!(c.attack_timer > 0);
    while c.attack_timer > 1 {
        c.attack_tick(false, p);
        assert!(c.attack_area.is_empty());
    }
    // The tick that drains the timer to zero can fire again at once.
    c.attack_tick(true, p);
    assert_eq!(c.attack_timer, ATTACK_MAX_TICKS);
    assert!(!c.attack_area.is_empty());
}

#[test]
fn knockback_gates_damage_to_one_per_window() {
    // Two enemy-contact events within the invulnerability window
    // produce exactly one health decrement.
    let mut c = Combat::new();
    let p_rect = Rect { x: 0, y: 0, w: TILE, h: TILE };
    let contacts = vec![player_contact()];
    let rects = vec![Rect { x: 10, y: 10, w: TILE, h: TILE }];
    let mut enemies = vec![enemy_at(10 + TILE / 2, 10 + TILE / 2)];
    let removed = c.classify_contacts(&contacts, p_rect, &rects, &mut enemies);
    assert_eq!(removed.len(), 0);
    assert_eq!(c.health, START_HEALTH - 1);
    assert_eq!(c.knockback_timer, KNOCKBACK_TICKS);
    // Half the window passes.
    for _ in 0..(KNOCKBACK_TICKS / 2) {
        c.knockback_tick();
    }
    // A second contact within the window does not reapply damage.
    let removed2 = c.classify_contacts(&contacts, p_rect, &rects, &mut enemies);
    assert_eq!(removed2.len(), 0);
    assert_eq!(c.health, START_HEALTH - 1);
    // Once the window has fully drained, damage can land again.
    for _ in 0..KNOCKBACK_TICKS {
        c.knockback_tick();
    }
    assert_eq!(c.knockback_timer, 0);
    c.classify_contacts(&contacts, p_rect, &rects, &mut enemies);
    assert_eq!(c.health, START_HEALTH - 2);
}

#[test]
fn two_player_contacts_same_pass_cost_one_health() {
    let mut c = Combat::new();
    let p_rect = Rect { x: 0, y: 0, w: TILE, h: TILE };
    let contacts = vec![player_contact(), player_contact()];
    let rects = vec![Rect { x: 10, y: 10, w: TILE, h: TILE }];
    let mut enemies = vec![enemy_at(10 + TILE / 2, 10 + TILE / 2)];
    c.classify_contacts(&contacts, p_rect, &rects, &mut enemies);
    assert_eq!(c.health, START_HEALTH - 1);
}

#[test]
fn attack_removes_enemy_once_and_rewards_once() {
    // An attack overlapping exactly one enemy produces exactly one
    // removal and one experience point, even when a second contact
    // names the same, already-collected enemy slot in the same pass.
    let mut c = Combat::new();
    let p_rect = Rect { x: 100 * TILE, y: 100 * TILE, w: TILE, h: TILE };
    let contacts = vec![attack_contact(0), attack_contact(0)];
    let rects = vec![Rect { x: 10, y: 10, w: TILE, h: TILE }];
    let mut enemies = vec![enemy_at(10 + TILE / 2, 10 + TILE / 2)];
    let removed = c.classify_contacts(&contacts, p_rect, &rects, &mut enemies);
    assert_eq!(removed, vec![0usize]);
    assert_eq!(c.xp, 1);
    assert_eq!(c.health, START_HEALTH);
    assert_eq!(c.knockback_timer, 0);
}

#[test]
fn attack_removals_collect_each_enemy_once() {
    let mut c = Combat::new();
    let p_rect = Rect { x: 100 * TILE, y: 100 * TILE, w: TILE, h: TILE };
    let contacts = vec![attack_contact(1), attack_contact(0), attack_contact(1)];
    let rects = vec![
        Rect { x: 10, y: 10, w: TILE, h: TILE },
        Rect { x: 500, y: 10, w: TILE, h: TILE },
    ];
    let mut enemies = vec![
        enemy_at(10 + TILE / 2, 10 + TILE / 2),
        enemy_at(500 + TILE / 2, 10 + TILE / 2),
    ];
    let removed = c.classify_contacts(&contacts, p_rect, &rects, &mut enemies);
    assert_eq!(removed, vec![1usize, 0]);
    assert_eq!(c.xp, 2);
}
