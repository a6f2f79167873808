use tileworld::contact::Contact;
use tileworld::geom::{Dir, Pos, Rect, Vec2, TILE};
use tileworld::grid::{EntityKind, LegendEntry, Level, TileDescriptor};
use tileworld::knights::{
    fallen_knights, knight_classify, knight_step, knights_tick, spawn_knights, Knight,
    KNIGHT_HEALTH,
};
use tileworld::world::{Camera, EnemyState, World};

fn legend() -> Vec<LegendEntry> {
    vec![
        LegendEntry {
            token: b'.',
            tile: TileDescriptor { solid: false, sprite: 0 },
            start: None,
        },
        LegendEntry {
            token: b'#',
            tile: TileDescriptor { solid: true, sprite: 1 },
            start: None,
        },
        LegendEntry {
            token: b'P',
            tile: TileDescriptor { solid: false, sprite: 0 },
            start: Some(EntityKind::Player),
        },
    ]
}

fn level(rows: &[&str]) -> Level {
    let lines: Vec<Vec<u8>> = rows.iter().map(|r| r.as_bytes().to_vec()).collect();
    Level::from_text(&lines, &legend()).expect("level should parse")
}

fn world_with(rows: &[&str], player: Vec2) -> World {
    World {
        camera: Camera {
            screen_pos: Vec2 { x: 0, y: 0 },
            screen_size: Vec2 { x: 516 * 60, y: 240 * 60 },
        },
        current_level: 0,
        levels: vec![level(rows)],
        enemies: Vec::new(),
        player: Pos { pos: player, dir: Dir::S },
        paused: false,
        game_end: false,
    }
}

fn enemy_at(x: i64, y: i64) -> (Pos, EnemyState) {
    (Pos { pos: Vec2 { x, y }, dir: Dir::S }, EnemyState::Alive)
}

#[test]
fn find_enemy_picks_nearest() {
    let k = Knight { health: 3, pos: Vec2 { x: 0, y: 0 } };
    let enemies = vec![enemy_at(1000, 0), enemy_at(100, 100), enemy_at(-5000, 0)];
    let fallback = Vec2 { x: 30000, y: 30000 };
    assert_eq!(k.find_enemy(&enemies, fallback), Vec2 { x: 100, y: 100 });
}

#[test]
fn find_enemy_keeps_fallback_without_enemies() {
    let k = Knight { health: 3, pos: Vec2 { x: 0, y: 0 } };
    let enemies: Vec<(Pos, EnemyState)> = Vec::new();
    let fallback = Vec2 { x: 30000, y: 30000 };
    assert_eq!(k.find_enemy(&enemies, fallback), fallback);
}

#[test]
fn knight_walks_toward_target() {
    let k = Knight { health: 3, pos: Vec2 { x: 0, y: 0 } };
    // Target due east: a full enemy-speed step along x.
    let stepped = knight_step(k, Vec2 { x: 5000, y: 0 });
    assert_eq!(stepped.pos, Vec2 { x: 32, y: 0 });
    assert_eq!(stepped.health, 3);
    // Standing exactly on the target: no movement, no fault.
    let still = knight_step(k, Vec2 { x: 0, y: 0 });
    assert_eq!(still.pos, Vec2 { x: 0, y: 0 });
}

#[test]
fn knight_classify_trades_hits() {
    // One knight touching one enemy: the enemy is collected once, the
    // knight pays one health point.
    let mut knights = vec![Knight { health: 3, pos: Vec2 { x: 500, y: 500 } }];
    let mut enemies = vec![enemy_at(700, 500)];
    let krects = vec![Rect { x: 20, y: 20, w: TILE, h: TILE }];
    let erects = vec![Rect { x: 220, y: 20, w: TILE, h: TILE }];
    let contacts = vec![
        Contact {
            displacement: Vec2 { x: 10, y: 10 },
            a_index: 0,
            a_rect: krects[0],
            b_index: 0,
            b_rect: erects[0],
        },
        Contact {
            displacement: Vec2 { x: 10, y: 10 },
            a_index: 0,
            a_rect: krects[0],
            b_index: 0,
            b_rect: erects[0],
        },
    ];
    let removed = knight_classify(&mut knights, &mut enemies, &contacts, &krects, &erects);
    assert_eq!(removed, vec![0usize]);
    assert_eq!(knights[0].health, 2);
}

#[test]
fn fallen_knights_lists_zero_health_ascending() {
    let knights = vec![
        Knight { health: 0, pos: Vec2 { x: 0, y: 0 } },
        Knight { health: 2, pos: Vec2 { x: 0, y: 0 } },
        Knight { health: 0, pos: Vec2 { x: 0, y: 0 } },
    ];
    assert_eq!(fallen_knights(&knights), vec![0usize, 2]);
}

#[test]
fn spawn_knights_places_valid_knights() {
    // Against the real generator: a big free level always has room, so
    // repeated spawning grows the roster, two tiles inside the edges.
    let rows = vec!["........"; 8];
    let mut w = world_with(&rows, Vec2 { x: 7 * TILE, y: 7 * TILE });
    let mut knights: Vec<Knight> = Vec::new();
    let mut rng = rand::thread_rng();
    for _ in 0..50 {
        spawn_knights(&w, &mut knights, &mut rng);
    }
    assert!(!knights.is_empty());
    for k in &knights {
        assert_eq!(k.health, KNIGHT_HEALTH);
        assert!(k.pos.x >= 2 * TILE && k.pos.x < 6 * TILE);
        assert!(k.pos.y >= 2 * TILE && k.pos.y < 6 * TILE);
    }
}

#[test]
fn knights_tick_hunts_and_compacts() {
    // A knight standing on an enemy removes it and pays for the hit;
    // a knight at zero health leaves the roster.
    let mut w = world_with(
        &["........", "........", "........", "........", "........"],
        Vec2 { x: 7 * TILE, y: 4 * TILE },
    );
    w.enemies.push(enemy_at(2 * TILE, 2 * TILE));
    // The first knight has one health point left and pays for the hit;
    // the second one arrives at an already-collected enemy and pays
    // nothing.
    let mut knights = vec![
        Knight { health: 1, pos: Vec2 { x: 2 * TILE + 10, y: 2 * TILE } },
        Knight { health: 3, pos: Vec2 { x: 2 * TILE - 10, y: 2 * TILE } },
    ];
    let events = knights_tick(&mut w, &mut knights);
    assert_eq!(w.enemies.len(), 0);
    assert_eq!(events.len(), 1);
    assert_eq!(knights.len(), 1);
    assert_eq!(knights[0].health, 3);
}

#[test]
fn knights_tick_walks_toward_far_enemy() {
    let mut w = world_with(
        &["........", "........", "........", "........", "........"],
        Vec2 { x: 7 * TILE, y: 4 * TILE },
    );
    w.enemies.push(enemy_at(6 * TILE, 2 * TILE));
    let mut knights = vec![Knight { health: 3, pos: Vec2 { x: 2 * TILE, y: 2 * TILE } }];
    let x0 = knights[0].pos.x;
    knights_tick(&mut w, &mut knights);
    assert_eq!(knights.len(), 1);
    assert_eq!(knights[0].pos, Vec2 { x: x0 + 32, y: 2 * TILE });
    assert_eq!(w.enemies.len(), 1);
}
