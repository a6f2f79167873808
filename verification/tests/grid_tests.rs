use tileworld::geom::{Vec2, TILE};
use tileworld::grid::{ConfigError, EntityKind, LegendEntry, Level, TileDescriptor};

fn legend() -> Vec<LegendEntry> {
    vec![
        LegendEntry {
            token: b'.',
            tile: TileDescriptor { solid: false, sprite: 0 },
            start: None,
        },
        LegendEntry {
            token: b'#',
            tile: TileDescriptor { solid: true, sprite: 1 },
            start: None,
        },
        LegendEntry {
            token: b'P',
            tile: TileDescriptor { solid: false, sprite: 0 },
            start: Some(EntityKind::Player),
        },
        LegendEntry {
            token: b'E',
            tile: TileDescriptor { solid: false, sprite: 0 },
            start: Some(EntityKind::Enemy),
        },
    ]
}

fn lines(rows: &[&str]) -> Vec<Vec<u8>> {
    rows.iter().map(|r| r.as_bytes().to_vec()).collect()
}

fn level(rows: &[&str]) -> Level {
    Level::from_text(&lines(rows), &legend()).expect("level should parse")
}

#[test]
fn from_text_dimensions_and_tiles() {
    // Top text row is the top of the world.
    let lvl = level(&["#..", "P#E", "..."]);
    assert_eq!(lvl.width, 3);
    assert_eq!(lvl.height, 3);
    // Bottom row (ty = 0) is the last text line: all floor.
    assert!(!lvl.tiles[0].solid);
    assert!(!lvl.tiles[1].solid);
    assert!(!lvl.tiles[2].solid);
    // Middle row: wall at tx = 1.
    assert!(!lvl.tiles[3].solid);
    assert!(lvl.tiles[4].solid);
    assert!(!lvl.tiles[5].solid);
    // Top row: wall at tx = 0, sprite id carried through.
    assert!(lvl.tiles[6].solid);
    assert_eq!(lvl.tiles[6].sprite, 1);
}

#[test]
fn from_text_collects_starts_in_text_order() {
    let lvl = level(&["#..", "P#E", "..."]);
    assert_eq!(lvl.starts.len(), 2);
    // 'P' at text row 1, column 0: grid cell (0, 1), marker at its center.
    assert_eq!(lvl.starts[0].0, EntityKind::Player);
    assert_eq!(lvl.starts[0].1, Vec2 { x: TILE / 2, y: TILE + TILE / 2 });
    // 'E' at text row 1, column 2: grid cell (2, 1).
    assert_eq!(lvl.starts[1].0, EntityKind::Enemy);
    assert_eq!(lvl.starts[1].1, Vec2 { x: 2 * TILE + TILE / 2, y: TILE + TILE / 2 });
    assert_eq!(lvl.player_start(), Some(Vec2 { x: TILE / 2, y: TILE + TILE / 2 }));
}

#[test]
fn from_text_rejects_empty() {
    let e: Vec<Vec<u8>> = vec![];
    assert_eq!(Level::from_text(&e, &legend()).err(), Some(ConfigError::EmptyLevel));
    let e2 = vec![Vec::new()];
    assert_eq!(Level::from_text(&e2, &legend()).err(), Some(ConfigError::EmptyLevel));
}

#[test]
fn from_text_rejects_ragged_rows() {
    let r = lines(&["...", "..", "..."]);
    assert_eq!(Level::from_text(&r, &legend()).err(), Some(ConfigError::RaggedRow(1)));
}

#[test]
fn from_text_rejects_unknown_token() {
    let r = lines(&["...", ".x.", "..."]);
    assert_eq!(Level::from_text(&r, &legend()).err(), Some(ConfigError::UnknownToken(1, 1)));
}

#[test]
fn from_text_rejects_oversized_grid() {
    let rows: Vec<Vec<u8>> = (0..4097).map(|_| vec![b'.']).collect();
    assert_eq!(Level::from_text(&rows, &legend()).err(), Some(ConfigError::TooLarge));
}

#[test]
fn player_start_missing_is_none() {
    let lvl = level(&["...", "E..", "..."]);
    assert_eq!(lvl.player_start(), None);
}

#[test]
fn get_tile_at_inside() {
    let lvl = level(&["#..", ".#.", "..."]);
    // Middle of cell (1, 1): the wall.
    let p = Vec2 { x: TILE + TILE / 2, y: TILE + TILE / 2 };
    assert_eq!(lvl.get_tile_at(p), Some(TileDescriptor { solid: true, sprite: 1 }));
    // Middle of cell (0, 0): floor.
    let q = Vec2 { x: TILE / 2, y: TILE / 2 };
    assert_eq!(lvl.get_tile_at(q), Some(TileDescriptor { solid: false, sprite: 0 }));
}

#[test]
fn get_tile_at_exact_right_edge_is_none() {
    // A coordinate at exactly grid width times the tile size is one past
    // the last valid column: a defined none, not a panic.
    let lvl = level(&["...", "...", "..."]);
    let edge = Vec2 { x: 3 * TILE, y: TILE / 2 };
    assert_eq!(lvl.get_tile_at(edge), None);
    let top = Vec2 { x: TILE / 2, y: 3 * TILE };
    assert_eq!(lvl.get_tile_at(top), None);
}

#[test]
fn get_tile_at_negative_is_none() {
    let lvl = level(&["...", "...", "..."]);
    assert_eq!(lvl.get_tile_at(Vec2 { x: -1, y: 5 }), None);
    assert_eq!(lvl.get_tile_at(Vec2 { x: 5, y: -1 }), None);
}

#[test]
fn solid_at_out_of_bounds_is_not_solid() {
    let lvl = level(&["###", "###", "###"]);
    assert!(lvl.solid_at(Vec2 { x: TILE / 2, y: TILE / 2 }));
    assert!(!lvl.solid_at(Vec2 { x: -5, y: 0 }));
}

#[test]
fn tiles_within_returns_covered_range_row_major() {
    let lvl = level(&["...", ".#.", "..."]);
    // A rect covering the middle of the grid from cell (0,0) into (1,1).
    let r = tileworld::geom::Rect { x: TILE / 2, y: TILE / 2, w: TILE, h: TILE };
    let hits = lvl.tiles_within(r);
    // Columns 0..2, rows 0..2, bottom row first.
    assert_eq!(hits.len(), 4);
    assert_eq!((hits[0].0, hits[0].1), (0, 0));
    assert_eq!((hits[1].0, hits[1].1), (1, 0));
    assert_eq!((hits[2].0, hits[2].1), (0, 1));
    assert_eq!((hits[3].0, hits[3].1), (1, 1));
    assert!(hits[3].3.solid);
    assert_eq!(hits[3].2, tileworld::geom::Rect { x: TILE, y: TILE, w: TILE, h: TILE });
}

#[test]
fn tiles_within_clamps_to_grid() {
    let lvl = level(&["...", "...", "..."]);
    // A rect hanging off the lower-left corner.
    let r = tileworld::geom::Rect { x: -5 * TILE, y: -5 * TILE, w: 6 * TILE, h: 6 * TILE };
    let hits = lvl.tiles_within(r);
    assert_eq!(hits.len(), 1);
    assert_eq!((hits[0].0, hits[0].1), (0, 0));
    // A rect entirely outside.
    let far = tileworld::geom::Rect { x: 100 * TILE, y: 0, w: TILE, h: TILE };
    assert_eq!(lvl.tiles_within(far).len(), 0);
}

#[test]
fn sprite_count_covers_grid() {
    let lvl = level(&["....", "....", "...."]);
    assert_eq!(lvl.sprite_count(), 12);
    assert_eq!(lvl.starts().len(), 0);
}
