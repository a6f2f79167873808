use tileworld::geom::{isqrt, make_rect, Dir, Rect, Vec2, PX, TILE};

fn v(x: i64, y: i64) -> Vec2 {
    Vec2 { x, y }
}

#[test]
fn vector_arithmetic() {
    let a = v(3, -4);
    let b = v(10, 20);
    assert_eq!(a.add(b), v(13, 16));
    assert_eq!(b.sub(a), v(7, 24));
    assert_eq!(a.neg(), v(-3, 4));
    assert_eq!(a.scale(3), v(9, -12));
    assert_eq!(a.mag_sq(), 25);
}

#[test]
fn normalize_zero_vector_is_zero() {
    // Seeking a target one stands exactly on must not fault: the zero
    // vector normalizes to the zero vector.
    assert_eq!(v(0, 0).normalize(), v(0, 0));
    assert_eq!(v(0, 0).normalize_scaled(32), v(0, 0));
}

#[test]
fn normalize_axis_vectors() {
    // A pure axis vector rescales to exactly the requested magnitude.
    assert_eq!(v(500, 0).normalize_scaled(32), v(32, 0));
    assert_eq!(v(0, -700).normalize_scaled(32), v(0, -32));
    assert_eq!(v(123, 0).normalize(), v(PX, 0));
}

#[test]
fn normalize_diagonal() {
    // |(300,400)| = 500; components scale by 32/500.
    assert_eq!(v(300, 400).normalize_scaled(32), v(19, 25));
    assert_eq!(v(-300, 400).normalize_scaled(32), v(-19, 25));
}

#[test]
fn isqrt_exact_values() {
    assert_eq!(isqrt(0), 0);
    assert_eq!(isqrt(1), 1);
    assert_eq!(isqrt(3), 1);
    assert_eq!(isqrt(4), 2);
    assert_eq!(isqrt(999999), 999);
    assert_eq!(isqrt(1000000), 1000);
    assert_eq!(isqrt(i64::MAX), 3037000499);
}

#[test]
fn rect_is_empty() {
    assert!(Rect { x: 5, y: 5, w: 0, h: 10 }.is_empty());
    assert!(Rect { x: 5, y: 5, w: 10, h: 0 }.is_empty());
    assert!(!Rect { x: 5, y: 5, w: 1, h: 1 }.is_empty());
}

#[test]
fn overlap_basic() {
    let a = Rect { x: 0, y: 0, w: 100, h: 100 };
    let b = Rect { x: 60, y: 70, w: 100, h: 100 };
    // Extents: x: 100-60=40, y: 100-70=30.
    assert_eq!(a.overlap(b), Some(v(40, 30)));
    assert_eq!(b.overlap(a), Some(v(40, 30)));
}

#[test]
fn overlap_touching_edges_is_none() {
    let a = Rect { x: 0, y: 0, w: 100, h: 100 };
    let b = Rect { x: 100, y: 0, w: 100, h: 100 };
    assert_eq!(a.overlap(b), None);
    let c = Rect { x: 0, y: 100, w: 100, h: 100 };
    assert_eq!(a.overlap(c), None);
}

#[test]
fn overlap_existence_is_symmetric() {
    // Overlap exists from one side exactly when it exists from the other.
    let cases = [
        (Rect { x: 0, y: 0, w: 50, h: 50 }, Rect { x: 25, y: 25, w: 50, h: 50 }),
        (Rect { x: 0, y: 0, w: 50, h: 50 }, Rect { x: 200, y: 0, w: 50, h: 50 }),
        (Rect { x: 0, y: 0, w: 0, h: 50 }, Rect { x: 0, y: 0, w: 50, h: 50 }),
    ];
    for (a, b) in cases {
        assert_eq!(a.overlap(b).is_some(), b.overlap(a).is_some());
    }
}

#[test]
fn rect_center() {
    let r = Rect { x: 600, y: 600, w: 960, h: 960 };
    assert_eq!(r.center(), v(1080, 1080));
}

#[test]
fn make_rect_is_tile_square_centered() {
    let r = make_rect(v(1080, 1080));
    assert_eq!(r, Rect { x: 600, y: 600, w: TILE, h: TILE });
}

#[test]
fn dir_to_vec2_units() {
    assert_eq!(Dir::N.to_vec2(), v(0, 1));
    assert_eq!(Dir::E.to_vec2(), v(1, 0));
    assert_eq!(Dir::S.to_vec2(), v(0, -1));
    assert_eq!(Dir::W.to_vec2(), v(-1, 0));
}
