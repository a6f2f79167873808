//! 2D fixed-point vector and axis-aligned rectangle primitives.
//!
//! Coordinates are `i64` world units, 60 units to a pixel (`PX`), so that a
//! speed given in pixels per second is exactly that many units per tick at
//! the fixed 60 ticks-per-second step. A tile is 16 pixels, `TILE` units.
//!
//! To keep every product and sum far from `i64` overflow, geometry is kept
//! inside `COORD_MAX` units of the origin and entity positions inside the
//! tighter `WORLD_LIMIT`; `Vec2::wf` and `Rect::wf` state those bounds and
//! every operation preserves them.

use vstd::prelude::*;

verus! {

/// World units per pixel: one tick of movement at 1 pixel per second.
pub const PX: i64 = 60;

/// Side of one grid tile in world units (16 pixels).
pub const TILE: i64 = 960;

/// Largest coordinate magnitude the geometry math accepts (2^30 units).
pub const COORD_MAX: i64 = 0x4000_0000;

/// Entity positions are clamped into this tighter range (2^29 units), so
/// that differences of two positions still satisfy the geometry bound.
pub const WORLD_LIMIT: i64 = 0x2000_0000;

/// A 2D vector in fixed-point world units.
#[derive(Clone, Copy, Debug, PartialEq, Eq, Structural)]
pub struct Vec2 {
    pub x: i64,
    pub y: i64,
}

/// Clamp an unbounded spec-level coordinate into `[-bound, bound]`.
pub open spec fn clamp_to(v: int, bound: int) -> int {
    if v < -bound {
        -bound
    } else if v > bound {
        bound
    } else {
        v
    }
}

/// Component-wise sum clamped into the entity-position range.
pub open spec fn spec_add_clamped(a: Vec2, b: Vec2) -> Vec2 {
    Vec2 {
        x: clamp_to(a.x + b.x, WORLD_LIMIT as int) as i64,
        y: clamp_to(a.y + b.y, WORLD_LIMIT as int) as i64,
    }
}

/// Truncating division of `v * scale` by `len`, the sign handled as Rust's
/// float-to-int pipeline would: magnitude divided, sign restored.
pub open spec fn spec_scale_div(v: int, scale: int, len: int) -> int {
    if v >= 0 {
        (v * scale) / len
    } else {
        -(((-v) * scale) / len)
    }
}

/// Spec-level image of `Vec2::normalize_scaled`: the vector rescaled to
/// magnitude about `scale`, the zero vector mapped to itself.
pub open spec fn spec_normalize_scaled(v: Vec2, scale: int) -> Vec2 {
    let m = v.x * v.x + v.y * v.y;
    if m == 0 {
        Vec2 { x: 0i64, y: 0i64 }
    } else {
        let len = isqrt_spec(m);
        Vec2 {
            x: spec_scale_div(v.x as int, scale, len) as i64,
            y: spec_scale_div(v.y as int, scale, len) as i64,
        }
    }
}

impl Vec2 {
    /// Both components within the safe geometry range.
    pub open spec fn wf(self) -> bool {
        -COORD_MAX <= self.x <= COORD_MAX && -COORD_MAX <= self.y <= COORD_MAX
    }

    /// Both components within the entity-position range.
    pub open spec fn in_world(self) -> bool {
        -WORLD_LIMIT <= self.x <= WORLD_LIMIT && -WORLD_LIMIT <= self.y <= WORLD_LIMIT
    }

    /// Component-wise sum.
    pub fn add(self, other: Vec2) -> (r: Vec2)
        requires
            self.wf(),
            other.wf(),
        ensures
            r.x == self.x + other.x,
            r.y == self.y + other.y,
    {
        Vec2 { x: self.x + other.x, y: self.y + other.y }
    }

    /// Component-wise difference.
    pub fn sub(self, other: Vec2) -> (r: Vec2)
        requires
            self.wf(),
            other.wf(),
        ensures
            r.x == self.x - other.x,
            r.y == self.y - other.y,
    {
        Vec2 { x: self.x - other.x, y: self.y - other.y }
    }

    /// Component-wise negation.
    pub fn neg(self) -> (r: Vec2)
        requires
            self.wf(),
        ensures
            r.x == -self.x,
            r.y == -self.y,
    {
        Vec2 { x: -self.x, y: -self.y }
    }

    /// Scale by a small integer factor.
    pub fn scale(self, k: i64) -> (r: Vec2)
        requires
            self.wf(),
            -10000 <= k <= 10000,
        ensures
            r.x == self.x * k,
            r.y == self.y * k,
    {
        proof {
            lemma_mul_in_range(self.x as int, k as int);
            lemma_mul_in_range(self.y as int, k as int);
        }
        Vec2 { x: self.x * k, y: self.y * k }
    }

    /// Sum, with each component clamped into the entity-position range.
    /// Inside the range this is the exact component-wise sum; positions can
    /// therefore never escape the world no matter how many displacements a
    /// resolution pass adds.
    pub fn add_clamped(self, other: Vec2) -> (r: Vec2)
        requires
            self.wf(),
            other.wf(),
        ensures
            r == spec_add_clamped(self, other),
            r.x == clamp_to(self.x + other.x, WORLD_LIMIT as int),
            r.y == clamp_to(self.y + other.y, WORLD_LIMIT as int),
            r.in_world(),
    {
        let sx = self.x + other.x;
        let sy = self.y + other.y;
        let x = if sx < -WORLD_LIMIT {
            -WORLD_LIMIT
        } else if sx > WORLD_LIMIT {
            WORLD_LIMIT
        } else {
            sx
        };
        let y = if sy < -WORLD_LIMIT {
            -WORLD_LIMIT
        } else if sy > WORLD_LIMIT {
            WORLD_LIMIT
        } else {
            sy
        };
        Vec2 { x, y }
    }

    /// Squared magnitude; exact, never overflows within `wf` bounds.
    pub fn mag_sq(self) -> (r: i64)
        requires
            self.wf(),
        ensures
            r == self.x * self.x + self.y * self.y,
            r >= 0,
    {
        proof {
            lemma_square_bound(self.x);
            lemma_square_bound(self.y);
        }
        self.x * self.x + self.y * self.y
    }

    /// Rescale this vector to magnitude about `scale`, rounding each
    /// component toward zero. The zero vector is explicitly mapped to the
    /// zero vector: no division-by-zero fault is reachable.
    pub fn normalize_scaled(self, scale: i64) -> (r: Vec2)
        requires
            self.wf(),
            0 <= scale <= 10000,
        ensures
            r == spec_normalize_scaled(self, scale as int),
            ({
                let m = self.x * self.x + self.y * self.y;
                if m == 0 {
                    r.x == 0 && r.y == 0
                } else {
                    {
                        let len = isqrt_spec(m);
                        r.x == spec_scale_div(self.x as int, scale as int, len)
                            && r.y == spec_scale_div(self.y as int, scale as int, len)
                    }
                }
            }),
    {
        let m = self.mag_sq();
        if m == 0 {
            Vec2 { x: 0, y: 0 }
        } else {
            let len = isqrt(m);
            proof {
                lemma_square_bound(self.x);
                lemma_square_bound(self.y);
                assert(len >= 1) by {
                    if len == 0 {
                        assert((0 + 1) * (0 + 1) > m);
                    }
                }
                lemma_mul_in_range(self.x as int, scale as int);
                lemma_mul_in_range(-(self.x as int), scale as int);
                lemma_mul_in_range(self.y as int, scale as int);
                lemma_mul_in_range(-(self.y as int), scale as int);
                lemma_div_shrinks(self.x * scale, len as int);
                lemma_div_shrinks(-(self.x as int) * scale, len as int);
                lemma_div_shrinks(self.y * scale, len as int);
                lemma_div_shrinks(-(self.y as int) * scale, len as int);
            }
            let x = if self.x >= 0 {
                (self.x * scale) / len
            } else {
                -(((-self.x) * scale) / len)
            };
            let y = if self.y >= 0 {
                (self.y * scale) / len
            } else {
                -(((-self.y) * scale) / len)
            };
            Vec2 { x, y }
        }
    }

    /// Unit vector at the `PX` scale (magnitude about one pixel); the zero
    /// vector normalizes to the zero vector.
    pub fn normalize(self) -> (r: Vec2)
        requires
            self.wf(),
        ensures
            ({
                let m = self.x * self.x + self.y * self.y;
                if m == 0 {
                    r.x == 0 && r.y == 0
                } else {
                    {
                        let len = isqrt_spec(m);
                        r.x == spec_scale_div(self.x as int, PX as int, len)
                            && r.y == spec_scale_div(self.y as int, PX as int, len)
                    }
                }
            }),
    {
        self.normalize_scaled(PX)
    }
}

/// The square of a coordinate within range fits comfortably in `i64`.
proof fn lemma_square_bound(v: i64)
    requires
        -COORD_MAX <= v <= COORD_MAX,
    ensures
        0 <= v * v <= COORD_MAX * COORD_MAX,
{
    assert(0 <= v * v <= COORD_MAX * COORD_MAX) by (nonlinear_arith)
        requires
            -COORD_MAX <= v <= COORD_MAX,
    ;
}

/// Product of a coordinate and a small factor stays within `i64`.
proof fn lemma_mul_in_range(v: int, k: int)
    requires
        -COORD_MAX <= v <= COORD_MAX,
        -10000 <= k <= 10000,
    ensures
        -(COORD_MAX as int) * 10000 <= v * k <= (COORD_MAX as int) * 10000,
{
    assert(-(COORD_MAX as int) * 10000 <= v * k <= (COORD_MAX as int) * 10000)
        by (nonlinear_arith)
        requires
            -COORD_MAX <= v <= COORD_MAX,
            -10000 <= k <= 10000,
    ;
}

/// Dividing a nonnegative value by a divisor of at least one cannot grow it.
proof fn lemma_div_shrinks(a: int, d: int)
    requires
        d >= 1,
    ensures
        a >= 0 ==> 0 <= a / d <= a,
{
    if a >= 0 {
        assert(0 <= a / d <= a) by (nonlinear_arith)
            requires
                a >= 0,
                d >= 1,
        ;
    }
}

/// The unique nonnegative integer square root: `r*r <= n < (r+1)*(r+1)`.
pub open spec fn isqrt_spec(n: int) -> int {
    choose|r: int| 0 <= r && #[trigger] (r * r) <= n < (r + 1) * (r + 1)
}

/// The square-root characterization picks out exactly one integer, so
/// `isqrt_spec` equals any witness.
pub proof fn lemma_isqrt_unique(n: int, r: int)
    requires
        0 <= r,
        r * r <= n,
        n < (r + 1) * (r + 1),
    ensures
        isqrt_spec(n) == r,
{
    assert(0 <= r && r * r <= n < (r + 1) * (r + 1));
    let w = isqrt_spec(n);
    assert(0 <= w && w * w <= n < (w + 1) * (w + 1));
    if w < r {
        assert((w + 1) * (w + 1) <= r * r) by (nonlinear_arith)
            requires
                0 <= w,
                w < r,
        ;
    } else if r < w {
        assert((r + 1) * (r + 1) <= w * w) by (nonlinear_arith)
            requires
                0 <= r,
                r < w,
        ;
    }
}

/// An integer square root exists for every nonnegative integer, so the
/// characterization of `isqrt_spec` holds of its value.
pub proof fn lemma_isqrt_props(n: int)
    requires
        n >= 0,
    ensures
        0 <= isqrt_spec(n),
        isqrt_spec(n) * isqrt_spec(n) <= n,
        n < (isqrt_spec(n) + 1) * (isqrt_spec(n) + 1),
    decreases n,
{
    if n == 0 {
        assert((0int + 1) * (0int + 1) == 1);
        lemma_isqrt_unique(0, 0);
    } else {
        lemma_isqrt_props(n - 1);
        let r = isqrt_spec(n - 1);
        if (r + 1) * (r + 1) > n {
            lemma_isqrt_unique(n, r);
        } else {
            assert(n == (r + 1) * (r + 1));
            assert(n < (r + 2) * (r + 2)) by (nonlinear_arith)
                requires
                    0 <= r,
                    n == (r + 1) * (r + 1),
            ;
            lemma_isqrt_unique(n, r + 1);
        }
    }
}

/// A normalized vector's components are bounded by the scale: each is
/// at most the scale in magnitude, so the result is well-formed.
pub proof fn lemma_normalize_bounded(v: Vec2, scale: int)
    requires
        v.wf(),
        0 <= scale <= 10000,
    ensures
        -scale <= spec_normalize_scaled(v, scale).x <= scale,
        -scale <= spec_normalize_scaled(v, scale).y <= scale,
        spec_normalize_scaled(v, scale).wf(),
{
    let m = v.x * v.x + v.y * v.y;
    lemma_square_bound(v.x);
    lemma_square_bound(v.y);
    if m != 0 {
        lemma_isqrt_props(m);
        let len = isqrt_spec(m);
        assert(len >= 1) by {
            if len == 0 {
                assert((0 + 1) * (0 + 1) > m);
            }
        }
        lemma_component_le_root(v.x as int, m, len);
        lemma_component_le_root(v.y as int, m, len);
        lemma_scale_div_bound(v.x as int, scale, len);
        lemma_scale_div_bound(v.y as int, scale, len);
    }
}

/// A component of a vector is bounded in magnitude by the square root
/// of its squared magnitude.
proof fn lemma_component_le_root(x: int, m: int, len: int)
    requires
        x * x <= m,
        0 <= len,
        m < (len + 1) * (len + 1),
    ensures
        -len <= x <= len,
{
    assert(-len <= x <= len) by (nonlinear_arith)
        requires
            x * x <= m,
            0 <= len,
            m < (len + 1) * (len + 1),
    ;
}

/// Scaling a component no longer than the root and dividing by the
/// root keeps it within the scale.
proof fn lemma_scale_div_bound(x: int, scale: int, len: int)
    requires
        -len <= x <= len,
        1 <= len,
        0 <= scale,
    ensures
        -scale <= spec_scale_div(x, scale, len) <= scale,
{
    if x >= 0 {
        assert(x * scale <= len * scale) by (nonlinear_arith)
            requires
                0 <= x <= len,
                0 <= scale,
        ;
        vstd::arithmetic::div_mod::lemma_div_is_ordered(x * scale, len * scale, len);
        vstd::arithmetic::div_mod::lemma_div_multiples_vanish(scale, len);
        assert(x * scale >= 0) by (nonlinear_arith)
            requires
                0 <= x,
                0 <= scale,
        ;
        lemma_div_shrinks(x * scale, len);
    } else {
        assert((-x) * scale <= len * scale) by (nonlinear_arith)
            requires
                0 <= -x <= len,
                0 <= scale,
        ;
        vstd::arithmetic::div_mod::lemma_div_is_ordered((-x) * scale, len * scale, len);
        vstd::arithmetic::div_mod::lemma_div_multiples_vanish(scale, len);
        assert((-x) * scale >= 0) by (nonlinear_arith)
            requires
                0 <= -x,
                0 <= scale,
        ;
        lemma_div_shrinks((-x) * scale, len);
    }
}

/// Integer square root by bisection.
pub fn isqrt(n: i64) -> (r: i64)
    requires
        n >= 0,
    ensures
        r >= 0,
        r * r <= n,
        (r + 1) * (r + 1) > n,
        r == isqrt_spec(n as int),
{
    let mut lo: i64 = 0;
    // One more than the integer square root of `i64::MAX`, so its square
    // exceeds every admissible `n`.
    let mut hi: i64 = 3037000500;
    proof {
        assert(hi * hi > n);
    }
    while lo + 1 < hi
        invariant
            0 <= lo < hi <= 3037000500i64,
            lo * lo <= n,
            hi * hi > n,
        decreases hi - lo,
    {
        let mid = lo + (hi - lo) / 2;
        proof {
            assert(lo < mid < hi);
            assert(mid * mid <= 3037000499i64 * 3037000499i64) by (nonlinear_arith)
                requires
                    0 <= mid <= 3037000499i64,
            ;
        }
        if mid * mid <= n {
            lo = mid;
        } else {
            hi = mid;
        }
    }
    proof {
        lemma_isqrt_unique(n as int, lo as int);
    }
    lo
}

/// A nonnegative coordinate whose tile column is below `n` lies below
/// `n` tiles' worth of units.
pub proof fn lemma_div_bound(x: int, n: int)
    requires
        0 <= x,
        x / (TILE as int) < n,
        n <= 4096,
    ensures
        x < n * TILE,
        x < WORLD_LIMIT,
{
    vstd::arithmetic::div_mod::lemma_fundamental_div_mod(x, TILE as int);
    vstd::arithmetic::div_mod::lemma_mod_bound(x, TILE as int);
}

/// Facing of an entity: the four cardinal directions.
#[derive(Clone, Copy, Debug, PartialEq, Eq, Structural)]
pub enum Dir {
    N,
    E,
    S,
    W,
}

impl Dir {
    /// The unit step vector of this facing (north is +y).
    pub fn to_vec2(self) -> (r: Vec2)
        ensures
            r == self.spec_vec2(),
    {
        match self {
            Dir::N => Vec2 { x: 0, y: 1 },
            Dir::E => Vec2 { x: 1, y: 0 },
            Dir::S => Vec2 { x: 0, y: -1 },
            Dir::W => Vec2 { x: -1, y: 0 },
        }
    }

    /// Spec-level image of `to_vec2`.
    pub open spec fn spec_vec2(self) -> Vec2 {
        match self {
            Dir::N => Vec2 { x: 0i64, y: 1i64 },
            Dir::E => Vec2 { x: 1i64, y: 0i64 },
            Dir::S => Vec2 { x: 0i64, y: (-1) as i64 },
            Dir::W => Vec2 { x: (-1) as i64, y: 0i64 },
        }
    }
}

/// A positioned, facing entity.
#[derive(Clone, Copy, Debug, PartialEq, Eq, Structural)]
pub struct Pos {
    pub pos: Vec2,
    pub dir: Dir,
}

/// An axis-aligned rectangle: `(x, y)` is the lower-left corner, `w` and
/// `h` the nonnegative extents.
#[derive(Clone, Copy, Debug, PartialEq, Eq, Structural)]
pub struct Rect {
    pub x: i64,
    pub y: i64,
    pub w: i64,
    pub h: i64,
}

/// Overlap extent of two rects along the x axis (positive iff they
/// properly intersect on that axis).
pub open spec fn x_extent(a: Rect, b: Rect) -> int {
    min_int(a.x + a.w, b.x + b.w) - max_int(a.x as int, b.x as int)
}

/// Overlap extent of two rects along the y axis.
pub open spec fn y_extent(a: Rect, b: Rect) -> int {
    min_int(a.y + a.h, b.y + b.h) - max_int(a.y as int, b.y as int)
}

/// Two rects overlap iff both axis extents are strictly positive.
pub open spec fn rects_overlap(a: Rect, b: Rect) -> bool {
    x_extent(a, b) > 0 && y_extent(a, b) > 0
}

pub open spec fn min_int(a: int, b: int) -> int {
    if a <= b {
        a
    } else {
        b
    }
}

pub open spec fn max_int(a: int, b: int) -> int {
    if a >= b {
        a
    } else {
        b
    }
}

impl Rect {
    /// Within the safe geometry range, extents nonnegative and bounded.
    pub open spec fn wf(self) -> bool {
        &&& -COORD_MAX <= self.x
        &&& self.x + self.w <= COORD_MAX
        &&& 0 <= self.w <= COORD_MAX
        &&& -COORD_MAX <= self.y
        &&& self.y + self.h <= COORD_MAX
        &&& 0 <= self.h <= COORD_MAX
    }

    /// A rect with a zero extent covers nothing.
    pub fn is_empty(&self) -> (r: bool)
        ensures
            r == (self.w == 0 || self.h == 0),
    {
        self.w == 0 || self.h == 0
    }

    /// The signed overlap extents along each axis if the rectangles
    /// properly intersect, else nothing. Touching edges do not overlap.
    pub fn overlap(self, other: Rect) -> (r: Option<Vec2>)
        requires
            self.wf(),
            other.wf(),
        ensures
            rects_overlap(self, other) ==> r == Some(
                Vec2 { x: x_extent(self, other) as i64, y: y_extent(self, other) as i64 },
            ),
            !rects_overlap(self, other) ==> r is None,
            r is Some ==> 0 < r->0.x <= self.w && 0 < r->0.x <= other.w && 0 < r->0.y
                <= self.h && 0 < r->0.y <= other.h,
    {
        let x_hi = if self.x + self.w <= other.x + other.w {
            self.x + self.w
        } else {
            other.x + other.w
        };
        let x_lo = if self.x >= other.x {
            self.x
        } else {
            other.x
        };
        let y_hi = if self.y + self.h <= other.y + other.h {
            self.y + self.h
        } else {
            other.y + other.h
        };
        let y_lo = if self.y >= other.y {
            self.y
        } else {
            other.y
        };
        if x_hi > x_lo && y_hi > y_lo {
            Some(Vec2 { x: x_hi - x_lo, y: y_hi - y_lo })
        } else {
            None
        }
    }

    /// Center point of the rectangle (components rounded toward the
    /// lower-left when an extent is odd).
    pub fn center(self) -> (r: Vec2)
        requires
            self.wf(),
        ensures
            r.x == self.x + self.w / 2,
            r.y == self.y + self.h / 2,
    {
        Vec2 { x: self.x + self.w / 2, y: self.y + self.h / 2 }
    }
}

/// The tile-sized collision box of an entity standing at `position`: a
/// `TILE`-square rect centered on it.
pub fn make_rect(position: Vec2) -> (r: Rect)
    requires
        position.wf(),
        position.in_world(),
    ensures
        r == spec_make_rect(position),
        r.wf(),
{
    Rect { x: position.x - TILE / 2, y: position.y - TILE / 2, w: TILE, h: TILE }
}

/// Spec-level image of `make_rect`.
pub open spec fn spec_make_rect(position: Vec2) -> Rect {
    Rect {
        x: (position.x - TILE / 2) as i64,
        y: (position.y - TILE / 2) as i64,
        w: TILE,
        h: TILE,
    }
}

} // verus!
