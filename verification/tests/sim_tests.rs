use tileworld::combat::{Combat, Event, ATTACK_MAX_TICKS, LEVELUP_XP};
use tileworld::contact::{generate_tile_contact, sort_contacts, Contact};
use tileworld::geom::{make_rect, Dir, Pos, Rect, Vec2, TILE};
use tileworld::grid::{EntityKind, LegendEntry, Level, TileDescriptor};
use tileworld::resolve::resolve_pos;
use tileworld::sim::{simulate_tick, TickInput, Upgrade, PLAYER_SPEED};
use tileworld::world::{Camera, World};

fn legend() -> Vec<LegendEntry> {
    vec![
        LegendEntry {
            token: b'.',
            tile: TileDescriptor { solid: false, sprite: 0 },
            start: None,
        },
        LegendEntry {
            token: b'#',
            tile: TileDescriptor { solid: true, sprite: 1 },
            start: None,
        },
        LegendEntry {
            token: b'P',
            tile: TileDescriptor { solid: false, sprite: 0 },
            start: Some(EntityKind::Player),
        },
    ]
}

fn level(rows: &[&str]) -> Level {
    let lines: Vec<Vec<u8>> = rows.iter().map(|r| r.as_bytes().to_vec()).collect();
    Level::from_text(&lines, &legend()).expect("level should parse")
}

fn world_with(rows: &[&str], player: Vec2) -> World {
    World {
        camera: Camera {
            screen_pos: Vec2 { x: 0, y: 0 },
            screen_size: Vec2 { x: 220 * 60, y: 140 * 60 },
        },
        current_level: 0,
        levels: vec![level(rows)],
        enemies: Vec::new(),
        player: Pos { pos: player, dir: Dir::S },
        paused: false,
        game_end: false,
    }
}

fn idle_input() -> TickInput {
    TickInput {
        move_x: 0,
        move_y: 0,
        attack: false,
        pause: false,
        quit: false,
        spawn: true,
        upgrade_choice: None,
    }
}

#[test]
fn tile_resolution_pushes_player_out_of_solid_tile() {
    // The player rect at 10,10 pixels (16 by 16) has moved into the
    // solid tile covering 16,16 pixels; after resolution the rect no
    // longer overlaps the tile, and its center is outside it.
    let lvl = level(&["....", "....", ".#..", "...."]);
    let pos = Vec2 { x: 1080, y: 1080 };
    let p_rect = make_rect(pos);
    assert_eq!(p_rect, Rect { x: 600, y: 600, w: 960, h: 960 });
    let tile_rect = Rect { x: TILE, y: TILE, w: TILE, h: TILE };
    assert!(p_rect.overlap(tile_rect).is_some());
    let group = vec![p_rect];
    let mut contacts: Vec<Contact> = Vec::new();
    generate_tile_contact(&group, &lvl, &mut contacts);
    assert_eq!(contacts.len(), 1);
    sort_contacts(&mut contacts);
    let moved = resolve_pos(pos, p_rect, &contacts);
    let moved_rect = Rect {
        x: p_rect.x + (moved.x - pos.x),
        y: p_rect.y + (moved.y - pos.y),
        w: p_rect.w,
        h: p_rect.h,
    };
    assert_eq!(moved_rect.overlap(tile_rect), None);
    // Center point not inside the solid tile.
    let c = moved_rect.center();
    assert!(!(tile_rect.x <= c.x && c.x < tile_rect.x + tile_rect.w && tile_rect.y <= c.y
        && c.y < tile_rect.y + tile_rect.h));
}

#[test]
fn tick_moves_player_at_speed() {
    let mut w = world_with(
        &["......", "......", "......", "......"],
        Vec2 { x: 3 * TILE, y: TILE },
    );
    let mut c = Combat::new();
    let mut rng = rand::thread_rng();
    let input = TickInput { move_x: 1, move_y: 0, ..idle_input() };
    let x0 = w.player.pos.x;
    let events = simulate_tick(&mut w, &mut c, input, &mut rng);
    assert_eq!(w.player.pos.x, x0 + PLAYER_SPEED);
    assert!(matches!(w.player.dir, Dir::E));
    assert!(events.is_empty());
}

#[test]
fn movement_blocked_by_solid_destination() {
    // The destination tile is solid: the move is refused, out-of-bounds
    // counting the same way as blocked.
    let mut w = world_with(
        &["......", "...#..", "......", "......"],
        Vec2 { x: 3 * TILE - 30, y: 2 * TILE + TILE / 2 },
    );
    let x0 = w.player.pos.x;
    tileworld::sim::move_player(&mut w, PLAYER_SPEED, 0);
    assert_eq!(w.player.pos.x, x0);
    // Stepping off the grid is also refused.
    w.player.pos = Vec2 { x: 6 * TILE - 32, y: TILE };
    tileworld::sim::move_player(&mut w, PLAYER_SPEED, 0);
    assert_eq!(w.player.pos.x, 6 * TILE - 32);
    // A free destination is taken.
    w.player.pos = Vec2 { x: TILE, y: TILE };
    tileworld::sim::move_player(&mut w, PLAYER_SPEED, 0);
    assert_eq!(w.player.pos.x, TILE + PLAYER_SPEED);
}

#[test]
fn tick_pause_freezes_simulation() {
    let mut w = world_with(&["....", "....", "....", "...."], Vec2 { x: TILE, y: TILE });
    let mut c = Combat::new();
    let mut rng = rand::thread_rng();
    let input = TickInput { move_x: 1, move_y: 0, pause: true, ..idle_input() };
    let x0 = w.player.pos.x;
    simulate_tick(&mut w, &mut c, input, &mut rng);
    assert!(w.paused);
    assert_eq!(w.player.pos.x, x0);
    // Unpausing resumes.
    let input2 = TickInput { move_x: 1, move_y: 0, pause: true, ..idle_input() };
    simulate_tick(&mut w, &mut c, input2, &mut rng);
    assert!(!w.paused);
    assert_eq!(w.player.pos.x, x0 + PLAYER_SPEED);
}

#[test]
fn tick_fires_attack() {
    let mut w = world_with(&["....", "....", "....", "...."], Vec2 { x: TILE, y: TILE });
    let mut c = Combat::new();
    let mut rng = rand::thread_rng();
    let input = TickInput { attack: true, ..idle_input() };
    simulate_tick(&mut w, &mut c, input, &mut rng);
    assert_eq!(c.attack_timer, ATTACK_MAX_TICKS);
    assert!(!c.attack_area.is_empty());
}

#[test]
fn tick_levelup_pauses_and_resets_xp() {
    let mut w = world_with(&["....", "....", "....", "...."], Vec2 { x: TILE, y: TILE });
    let mut c = Combat::new();
    c.xp = LEVELUP_XP;
    let mut rng = rand::thread_rng();
    let events = simulate_tick(&mut w, &mut c, idle_input(), &mut rng);
    assert!(events.contains(&Event::LeveledUp));
    assert!(w.paused);
    assert!(c.upgrade);
    assert_eq!(c.xp, 0);
    // Choosing the health upgrade unpauses and grants two points.
    let h0 = c.health;
    let input = TickInput { upgrade_choice: Some(Upgrade::Health), ..idle_input() };
    simulate_tick(&mut w, &mut c, input, &mut rng);
    assert!(!w.paused);
    assert!(!c.upgrade);
    assert_eq!(c.health, h0 + 2);
}

#[test]
fn tick_range_upgrade_grows_attack() {
    let mut w = world_with(&["....", "....", "....", "...."], Vec2 { x: TILE, y: TILE });
    let mut c = Combat::new();
    c.xp = LEVELUP_XP;
    let mut rng = rand::thread_rng();
    simulate_tick(&mut w, &mut c, idle_input(), &mut rng);
    let r0 = c.attack_range_halves;
    let input = TickInput { upgrade_choice: Some(Upgrade::Range), ..idle_input() };
    simulate_tick(&mut w, &mut c, input, &mut rng);
    assert_eq!(c.attack_range_halves, r0 + 1);
}

#[test]
fn tick_enemy_contact_damages_once_per_window() {
    // An enemy standing on the player costs one health point, and the
    // invulnerability window blocks the next ticks' contacts.
    let mut w = world_with(
        &["........", "........", "........", "........"],
        Vec2 { x: 4 * TILE, y: 2 * TILE },
    );
    w.enemies.push((
        Pos { pos: Vec2 { x: 4 * TILE + 100, y: 2 * TILE }, dir: Dir::S },
        tileworld::world::EnemyState::Alive,
    ));
    let mut c = Combat::new();
    let mut rng = rand::thread_rng();
    let h0 = c.health;
    let events = simulate_tick(&mut w, &mut c, idle_input(), &mut rng);
    assert!(events.contains(&Event::PlayerDamaged));
    assert_eq!(c.health, h0 - 1);
    // The next tick's contact is inside the window: no second hit.
    simulate_tick(&mut w, &mut c, idle_input(), &mut rng);
    assert_eq!(c.health, h0 - 1);
}

#[test]
fn tick_attack_removes_overlapped_enemy() {
    // Firing with an enemy inside the attack square removes it and
    // grants one experience point; the player body never touched it,
    // so no damage lands.
    let mut w = world_with(
        &["........", "........", "........", "........"],
        Vec2 { x: 4 * TILE, y: 2 * TILE },
    );
    w.enemies.push((
        Pos { pos: Vec2 { x: 4 * TILE + 1000, y: 2 * TILE }, dir: Dir::S },
        tileworld::world::EnemyState::Alive,
    ));
    let mut c = Combat::new();
    let mut rng = rand::thread_rng();
    let input = TickInput { attack: true, ..idle_input() };
    let events = simulate_tick(&mut w, &mut c, input, &mut rng);
    assert!(events.iter().any(|e| matches!(e, Event::EnemyRemoved(_))));
    assert!(!events.contains(&Event::PlayerDamaged));
    assert_eq!(c.xp, 1);
    assert_eq!(c.health, tileworld::combat::START_HEALTH);
    // The struck enemy left the roster; at most a fresh spawn remains.
    assert!(w.enemies.len() <= 1);
}

#[test]
fn paused_tick_is_a_no_op_for_simulation_state() {
    // On a paused tick nothing simulates: position, facing, roster,
    // camera, timers, health and experience all stay put, whatever
    // the input asks for.
    let mut w = world_with(&["....", "....", "....", "...."], Vec2 { x: TILE, y: TILE });
    w.paused = true;
    w.enemies.push((
        Pos { pos: Vec2 { x: 3 * TILE, y: 3 * TILE }, dir: Dir::S },
        tileworld::world::EnemyState::Alive,
    ));
    let mut c = Combat::new();
    c.attack_timer = 10;
    c.attack_area = tileworld::geom::Rect { x: 0, y: 0, w: TILE, h: TILE };
    c.knockback_timer = 30;
    let mut rng = rand::thread_rng();
    let busy = TickInput { move_x: 1, move_y: 1, attack: true, ..idle_input() };
    let events = simulate_tick(&mut w, &mut c, busy, &mut rng);
    assert!(events.is_empty());
    assert!(w.paused);
    assert_eq!(w.player.pos, Vec2 { x: TILE, y: TILE });
    assert!(matches!(w.player.dir, Dir::S));
    assert_eq!(w.enemies.len(), 1);
    assert_eq!(w.enemies[0].0.pos, Vec2 { x: 3 * TILE, y: 3 * TILE });
    assert_eq!(w.camera.screen_pos, Vec2 { x: 0, y: 0 });
    assert_eq!(c.attack_timer, 10);
    assert_eq!(c.knockback_timer, 30);
    assert_eq!(c.health, tileworld::combat::START_HEALTH);
    assert_eq!(c.xp, 0);
}

#[test]
fn spawnless_variant_never_touches_the_roster() {
    // A variant that rolls no spawns (the maze game) keeps its enemy
    // roster untouched over any run of ticks.
    let mut w = world_with(&["......", "......", "......", "......"], Vec2 {
        x: TILE,
        y: TILE,
    });
    let mut c = Combat::new();
    let mut rng = rand::thread_rng();
    let input = TickInput { move_x: 1, spawn: false, ..idle_input() };
    for _ in 0..200 {
        simulate_tick(&mut w, &mut c, input, &mut rng);
        assert_eq!(w.enemies.len(), 0);
    }
}

#[test]
fn quit_intent_pauses_and_ends_the_game() {
    let mut w = world_with(&["....", "....", "....", "...."], Vec2 { x: TILE, y: TILE });
    let mut c = Combat::new();
    let mut rng = rand::thread_rng();
    let input = TickInput { move_x: 1, quit: true, ..idle_input() };
    simulate_tick(&mut w, &mut c, input, &mut rng);
    assert!(w.paused);
    assert!(w.game_end);
    // The quit tick runs no simulation: the player has not moved.
    assert_eq!(w.player.pos, Vec2 { x: TILE, y: TILE });
}

#[test]
fn wandering_enemies_stay_inside_and_eventually_turn() {
    // Against the real generator: enemies never leave the level's
    // extent, keep their liveness tag, and (with one-in-twenty turns
    // per tick) some direction change shows up over a thousand ticks.
    // A generator whose coin never flipped, or whose range draw
    // ignored its bounds, would fail this.
    let mut w = world_with(&["......", "......", "......", "......"], Vec2 {
        x: 5 * TILE,
        y: 3 * TILE,
    });
    w.enemies.push((Pos { pos: Vec2 { x: 2 * TILE, y: 2 * TILE }, dir: Dir::S },
        tileworld::world::EnemyState::Alive));
    let mut c = Combat::new();
    c.knockback_timer = 0;
    let mut rng = rand::thread_rng();
    let mut saw_turn = false;
    let mut last_dir = w.enemies.get(0).map(|e| e.0.dir);
    for _ in 0..1000 {
        simulate_tick(&mut w, &mut c, idle_input(), &mut rng);
        if w.enemies.is_empty() {
            break;
        }
        let d = w.enemies[0].0.dir;
        if Some(d) != last_dir {
            saw_turn = true;
        }
        last_dir = Some(d);
        let e = w.enemies[0].0.pos;
        assert!(e.x >= 0 && e.x <= 6 * TILE);
        assert!(e.y >= 0 && e.y <= 4 * TILE);
        if w.game_end {
            break;
        }
    }
    assert!(saw_turn || w.enemies.is_empty() || w.game_end);
}
