use tileworld::contact::{
    find_displacement, generate_contact, generate_tile_contact, remove_indices, sort_contacts,
    sort_indices, Contact,
};
use tileworld::geom::{Rect, Vec2, TILE};
use tileworld::grid::{EntityKind, LegendEntry, Level, TileDescriptor};

fn legend() -> Vec<LegendEntry> {
    vec![
        LegendEntry {
            token: b'.',
            tile: TileDescriptor { solid: false, sprite: 0 },
            start: None,
        },
        LegendEntry {
            token: b'#',
            tile: TileDescriptor { solid: true, sprite: 1 },
            start: None,
        },
        LegendEntry {
            token: b'P',
            tile: TileDescriptor { solid: false, sprite: 0 },
            start: Some(EntityKind::Player),
        },
    ]
}

fn level(rows: &[&str]) -> Level {
    let lines: Vec<Vec<u8>> = rows.iter().map(|r| r.as_bytes().to_vec()).collect();
    Level::from_text(&lines, &legend()).expect("level should parse")
}

#[test]
fn displacement_zero_without_overlap() {
    let a = Rect { x: 0, y: 0, w: 10, h: 10 };
    let b = Rect { x: 50, y: 50, w: 10, h: 10 };
    assert_eq!(find_displacement(a, b), Vec2 { x: 0, y: 0 });
}

#[test]
fn displacement_pushes_along_least_penetration() {
    // Overlap extents: x = 4, y = 8; the smaller x extent wins, and `a`
    // sits left of `b`, so the correction is negative x.
    let a = Rect { x: 0, y: 0, w: 10, h: 10 };
    let b = Rect { x: 6, y: 2, w: 10, h: 10 };
    assert_eq!(find_displacement(a, b), Vec2 { x: -4, y: 0 });
    // Mirrored: `a` right of `b` pushes positive x.
    assert_eq!(find_displacement(b, a), Vec2 { x: 4, y: 0 });
}

#[test]
fn displacement_tie_corrects_along_y() {
    // Equal extents: the x axis is zeroed, the correction runs along y.
    let a = Rect { x: 0, y: 0, w: 10, h: 10 };
    let b = Rect { x: 4, y: 4, w: 10, h: 10 };
    let d = find_displacement(a, b);
    assert_eq!(d, Vec2 { x: 0, y: -6 });
}

#[test]
fn displacement_antisymmetric_when_anchors_differ() {
    // With distinct anchors on the pushed axis the two displacements
    // are exact opposites.
    let a = Rect { x: 0, y: 0, w: 10, h: 10 };
    let b = Rect { x: 6, y: 2, w: 10, h: 10 };
    let d_ab = find_displacement(a, b);
    let d_ba = find_displacement(b, a);
    assert_eq!(d_ab.x, -d_ba.x);
    assert_eq!(d_ab.y, -d_ba.y);
    assert!(d_ab != (Vec2 { x: 0, y: 0 }));
}

#[test]
fn displacement_once_separates() {
    // Applying the displacement once and re-testing overlap finds none.
    let a = Rect { x: 0, y: 0, w: 10, h: 10 };
    let b = Rect { x: 6, y: 2, w: 10, h: 10 };
    let d = find_displacement(a, b);
    let moved = Rect { x: a.x + d.x, y: a.y + d.y, w: a.w, h: a.h };
    assert_eq!(moved.overlap(b), None);
}

#[test]
fn generate_contact_emits_overlapping_pairs_in_order() {
    let a0 = Rect { x: 0, y: 0, w: 10, h: 10 };
    let a1 = Rect { x: 100, y: 100, w: 10, h: 10 };
    let b0 = Rect { x: 5, y: 5, w: 10, h: 10 };
    let b1 = Rect { x: 105, y: 105, w: 10, h: 10 };
    let group_a = vec![a0, a1];
    let group_b = vec![b0, b1];
    let mut contacts: Vec<Contact> = Vec::new();
    generate_contact(&group_a, &group_b, &mut contacts);
    assert_eq!(contacts.len(), 2);
    assert_eq!((contacts[0].a_index, contacts[0].b_index), (0, 0));
    assert_eq!(contacts[0].displacement, Vec2 { x: 5, y: 5 });
    assert_eq!(contacts[0].a_rect, a0);
    assert_eq!(contacts[0].b_rect, b0);
    assert_eq!((contacts[1].a_index, contacts[1].b_index), (1, 1));
}

#[test]
fn generate_tile_contact_keeps_only_solid_overlaps() {
    let lvl = level(&["...", ".#.", "..."]);
    // A rect overlapping cells (0..2) x (0..2); only (1,1) is solid.
    let r = Rect { x: TILE / 2, y: TILE / 2, w: TILE, h: TILE };
    let group = vec![r];
    let mut contacts: Vec<Contact> = Vec::new();
    generate_tile_contact(&group, &lvl, &mut contacts);
    assert_eq!(contacts.len(), 1);
    assert_eq!(contacts[0].a_index, 0);
    assert_eq!(contacts[0].b_index, 0);
    assert_eq!(contacts[0].b_rect, Rect { x: TILE, y: TILE, w: TILE, h: TILE });
    assert_eq!(contacts[0].displacement, Vec2 { x: TILE / 2, y: TILE / 2 });
}

fn contact_with_depth(d: i64) -> Contact {
    Contact {
        displacement: Vec2 { x: d, y: 0 },
        a_index: 0,
        a_rect: Rect { x: 0, y: 0, w: 1, h: 1 },
        b_index: 0,
        b_rect: Rect { x: 0, y: 0, w: 1, h: 1 },
    }
}

#[test]
fn sort_contacts_is_deepest_first() {
    let mut contacts = vec![
        contact_with_depth(3),
        contact_with_depth(9),
        contact_with_depth(1),
        contact_with_depth(9),
        contact_with_depth(4),
    ];
    sort_contacts(&mut contacts);
    let depths: Vec<i64> = contacts.iter().map(|c| c.displacement.x).collect();
    assert_eq!(depths, vec![9, 9, 4, 3, 1]);
}

#[test]
fn sort_indices_ascending() {
    let mut v = vec![4usize, 1, 3, 0];
    sort_indices(&mut v);
    assert_eq!(v, vec![0, 1, 3, 4]);
}

#[test]
fn removal_compaction_scenario() {
    // Removing indices {1, 3} from a five-element list by
    // sorted-descending swap-removes: the surviving set is exactly the
    // elements at the other positions, whatever order the swaps left
    // them in.
    let mut v = vec![10u32, 20, 30, 40, 50];
    let idxs = vec![1usize, 3];
    remove_indices(&mut v, &idxs);
    assert_eq!(v.len(), 3);
    let mut sorted = v.clone();
    sorted.sort();
    assert_eq!(sorted, vec![10, 30, 50]);
}

#[test]
fn removal_compaction_all_and_none() {
    let mut v = vec![1u8, 2, 3];
    let none: Vec<usize> = vec![];
    remove_indices(&mut v, &none);
    assert_eq!(v, vec![1, 2, 3]);
    let all = vec![0usize, 1, 2];
    remove_indices(&mut v, &all);
    assert_eq!(v.len(), 0);
}
