//! The tile grid: an immutable-after-load 2D array of tile descriptors
//! plus entity spawn markers, answering spatial range queries.
//!
//! Tile `(tx, ty)` covers the world rect `[tx*TILE, (tx+1)*TILE) x
//! [ty*TILE, (ty+1)*TILE)`; row 0 is the bottom of the world. A level is
//! built once from a textual grid (one byte per cell, decoded through a
//! caller-supplied legend) and never mutated afterwards.

use vstd::prelude::*;

use crate::geom::{Rect, Vec2, TILE};

verus! {

/// Largest accepted grid dimension along either axis.
pub const MAX_DIM: usize = 4096;

/// What one grid cell is: whether it blocks movement, and which sprite
/// the presentation layer should draw for it.
#[derive(Clone, Copy, Debug, PartialEq, Eq, Structural)]
pub struct TileDescriptor {
    pub solid: bool,
    pub sprite: u16,
}

/// The kinds of entity a level can mark a starting position for.
#[derive(Clone, Copy, Debug, PartialEq, Eq, Structural)]
pub enum EntityKind {
    Player,
    Enemy,
}

/// One row of the level legend: the byte that appears in the level text,
/// the tile it decodes to, and the spawn marker it carries, if any.
#[derive(Clone, Copy, Debug, PartialEq, Eq, Structural)]
pub struct LegendEntry {
    pub token: u8,
    pub tile: TileDescriptor,
    pub start: Option<EntityKind>,
}

/// Why a textual level description was rejected at load time.
#[derive(Clone, Copy, Debug, PartialEq, Eq, Structural)]
pub enum ConfigError {
    /// No rows, or an empty first row.
    EmptyLevel,
    /// A dimension exceeds `MAX_DIM`.
    TooLarge,
    /// Row at this index differs in length from the first row.
    RaggedRow(usize),
    /// Byte at this (row, column) has no legend entry.
    UnknownToken(usize, usize),
}

/// An entry produced by a tile range query: tile column, tile row, the
/// tile's world rect, and its descriptor.
pub type TileHit = (usize, usize, Rect, TileDescriptor);

/// First legend entry whose token matches, if any.
pub open spec fn legend_lookup(legend: Seq<LegendEntry>, token: u8) -> Option<LegendEntry>
    decreases legend.len(),
{
    if legend.len() == 0 {
        None
    } else if legend[0].token == token {
        Some(legend[0])
    } else {
        legend_lookup(legend.drop_first(), token)
    }
}

/// A 2D array of `width x height` tile descriptors with spawn markers,
/// immutable after load.
pub struct Level {
    pub width: usize,
    pub height: usize,
    /// Row-major, bottom row first: tile `(tx, ty)` is `tiles[ty*width + tx]`.
    pub tiles: Vec<TileDescriptor>,
    /// Spawn markers in text order (top text row first, left to right).
    pub starts: Vec<(EntityKind, Vec2)>,
}

impl Level {
    /// Structural invariant: dimensions positive and bounded, the tile
    /// array exactly fills the grid, and every spawn position is inside
    /// the world range.
    pub open spec fn wf(self) -> bool {
        &&& 1 <= self.width <= MAX_DIM
        &&& 1 <= self.height <= MAX_DIM
        &&& self.tiles@.len() == self.width * self.height
        &&& forall|i: int|
            0 <= i < self.starts@.len() ==> (#[trigger] self.starts@[i].1).wf()
                && self.starts@[i].1.in_world()
    }

    /// Descriptor of tile `(tx, ty)`.
    pub open spec fn tile_at(self, tx: int, ty: int) -> TileDescriptor {
        self.tiles@[ty * self.width + tx]
    }

    /// World rect covered by tile `(tx, ty)`.
    pub open spec fn tile_rect(tx: int, ty: int) -> Rect {
        Rect { x: (tx * TILE) as i64, y: (ty * TILE) as i64, w: TILE, h: TILE }
    }

    /// The grid query entry for tile `(tx, ty)`.
    pub open spec fn tile_hit(self, tx: int, ty: int) -> TileHit {
        (tx as usize, ty as usize, Level::tile_rect(tx, ty), self.tile_at(tx, ty))
    }

    /// Whether `(tx, ty)` is a grid cell.
    pub open spec fn in_grid(self, tx: int, ty: int) -> bool {
        0 <= tx < self.width && 0 <= ty < self.height
    }

    /// First tile column whose tiles can overlap `r`, clamped to the grid.
    pub open spec fn col_lo(self, r: Rect) -> int {
        crate::geom::min_int(crate::geom::max_int(0, r.x as int / TILE as int), self.width as int)
    }

    /// One past the last tile column whose tiles can overlap `r`.
    pub open spec fn col_hi(self, r: Rect) -> int {
        crate::geom::min_int(
            crate::geom::max_int(self.col_lo(r), (r.x + r.w + TILE - 1) / (TILE as int)),
            self.width as int,
        )
    }

    /// First tile row whose tiles can overlap `r`, clamped to the grid.
    pub open spec fn row_lo(self, r: Rect) -> int {
        crate::geom::min_int(crate::geom::max_int(0, r.y as int / TILE as int), self.height as int)
    }

    /// One past the last tile row whose tiles can overlap `r`.
    pub open spec fn row_hi(self, r: Rect) -> int {
        crate::geom::min_int(
            crate::geom::max_int(self.row_lo(r), (r.y + r.h + TILE - 1) / (TILE as int)),
            self.height as int,
        )
    }

    /// Entries of one query row, columns `x0` up to `j`.
    pub open spec fn row_hits(self, ty: int, x0: int, j: int) -> Seq<TileHit>
        decreases j - x0,
    {
        if j <= x0 {
            Seq::empty()
        } else {
            self.row_hits(ty, x0, j - 1).push(self.tile_hit(j - 1, ty))
        }
    }

    /// Entries of the query rows `y0` up to `j`, row-major.
    pub open spec fn range_hits(self, x0: int, x1: int, y0: int, j: int) -> Seq<TileHit>
        decreases j - y0,
    {
        if j <= y0 {
            Seq::empty()
        } else {
            self.range_hits(x0, x1, y0, j - 1) + self.row_hits(j - 1, x0, x1)
        }
    }

    /// Everything `tiles_within` returns for `r`: one entry per tile in
    /// the clamped floor/ceil range, in row-major order.
    pub open spec fn hits_within(self, r: Rect) -> Seq<TileHit> {
        self.range_hits(self.col_lo(r), self.col_hi(r), self.row_lo(r), self.row_hi(r))
    }

    /// Tiles overlapping `r`: computes the inclusive range of tile
    /// columns and rows touching `r` (floor/ceil division by the tile
    /// size, clamped to the grid) and returns one entry per tile in that
    /// range, bottom row first, left to right. A fresh query each call;
    /// callers filter by `solid`.
    pub fn tiles_within(&self, r: Rect) -> (out: Vec<TileHit>)
        requires
            self.wf(),
            r.wf(),
        ensures
            out@ == self.hits_within(r),
    {
        let w_i: i64 = self.width as i64;
        let h_i: i64 = self.height as i64;
        let x0: i64 = if r.x <= 0 {
            0
        } else {
            let q = r.x / TILE;
            if q > w_i {
                w_i
            } else {
                q
            }
        };
        let x1: i64 = {
            let n = r.x + r.w;
            if n <= 0 {
                x0
            } else {
                let q = (n + (TILE - 1)) / TILE;
                if q < x0 {
                    x0
                } else if q > w_i {
                    w_i
                } else {
                    q
                }
            }
        };
        let y0: i64 = if r.y <= 0 {
            0
        } else {
            let q = r.y / TILE;
            if q > h_i {
                h_i
            } else {
                q
            }
        };
        let y1: i64 = {
            let n = r.y + r.h;
            if n <= 0 {
                y0
            } else {
                let q = (n + (TILE - 1)) / TILE;
                if q < y0 {
                    y0
                } else if q > h_i {
                    h_i
                } else {
                    q
                }
            }
        };
        proof {
            assert(x0 == self.col_lo(r));
            assert(x1 == self.col_hi(r));
            assert(y0 == self.row_lo(r));
            assert(y1 == self.row_hi(r));
        }
        let mut out: Vec<TileHit> = Vec::new();
        let mut ty: i64 = y0;
        while ty < y1
            invariant
                self.wf(),
                r.wf(),
                x0 == self.col_lo(r),
                x1 == self.col_hi(r),
                y0 == self.row_lo(r),
                y1 == self.row_hi(r),
                y0 <= ty <= y1,
                0 <= x0 <= x1 <= self.width,
                0 <= y0 <= y1 <= self.height,
                out@ == self.range_hits(x0 as int, x1 as int, y0 as int, ty as int),
            decreases y1 - ty,
        {
            let mut tx: i64 = x0;
            while tx < x1
                invariant
                    self.wf(),
                    x0 <= tx <= x1,
                    0 <= x0 <= x1 <= self.width,
                    0 <= y0 <= ty < y1 <= self.height,
                    out@ == self.range_hits(x0 as int, x1 as int, y0 as int, ty as int)
                        + self.row_hits(ty as int, x0 as int, tx as int),
                decreases x1 - tx,
            {
                let desc = self.tile_desc(tx as usize, ty as usize);
                proof {
                    lemma_tile_rect_wf(tx as int, ty as int);
                }
                let rect = Rect { x: tx * TILE, y: ty * TILE, w: TILE, h: TILE };
                out.push((tx as usize, ty as usize, rect, desc));
                tx = tx + 1;
            }
            proof {
                assert(self.range_hits(x0 as int, x1 as int, y0 as int, ty as int + 1)
                    == self.range_hits(x0 as int, x1 as int, y0 as int, ty as int) + self.row_hits(
                    ty as int,
                    x0 as int,
                    x1 as int,
                ));
            }
            ty = ty + 1;
        }
        out
    }

    /// Every entry of one query row is the grid entry of an in-bounds
    /// cell, with a well-formed tile rect.
    pub proof fn lemma_row_hits_props(self, ty: int, x0: int, j: int)
        requires
            self.wf(),
            0 <= x0,
            j <= self.width,
            0 <= ty < self.height,
        ensures
            forall|k: int|
                0 <= k < self.row_hits(ty, x0, j).len() ==> {
                    let e = #[trigger] self.row_hits(ty, x0, j)[k];
                    &&& self.in_grid(e.0 as int, e.1 as int)
                    &&& e == self.tile_hit(e.0 as int, e.1 as int)
                    &&& e.2.wf()
                },
        decreases j - x0,
    {
        if j > x0 {
            self.lemma_row_hits_props(ty, x0, j - 1);
            lemma_tile_rect_wf(j - 1, ty);
            assert(self.row_hits(ty, x0, j) == self.row_hits(ty, x0, j - 1).push(
                self.tile_hit(j - 1, ty),
            ));
        }
    }

    /// Every entry of a row-major range query is the grid entry of an
    /// in-bounds cell, with a well-formed tile rect.
    pub proof fn lemma_range_hits_props(self, x0: int, x1: int, y0: int, j: int)
        requires
            self.wf(),
            0 <= x0,
            x1 <= self.width,
            0 <= y0,
            j <= self.height,
        ensures
            forall|k: int|
                0 <= k < self.range_hits(x0, x1, y0, j).len() ==> {
                    let e = #[trigger] self.range_hits(x0, x1, y0, j)[k];
                    &&& self.in_grid(e.0 as int, e.1 as int)
                    &&& e == self.tile_hit(e.0 as int, e.1 as int)
                    &&& e.2.wf()
                },
        decreases j - y0,
    {
        if j > y0 {
            self.lemma_range_hits_props(x0, x1, y0, j - 1);
            self.lemma_row_hits_props(j - 1, x0, x1);
            let left = self.range_hits(x0, x1, y0, j - 1);
            let right = self.row_hits(j - 1, x0, x1);
            let whole = self.range_hits(x0, x1, y0, j);
            assert forall|k: int| 0 <= k < whole.len() implies {
                let e = #[trigger] whole[k];
                &&& self.in_grid(e.0 as int, e.1 as int)
                &&& e == self.tile_hit(e.0 as int, e.1 as int)
                &&& e.2.wf()
            } by {
                if k < left.len() {
                    assert(whole[k] == left[k]);
                } else {
                    assert(whole[k] == right[k - left.len()]);
                }
            }
        }
    }

    /// One query row has at most `MAX_DIM` entries.
    pub proof fn lemma_row_hits_len(self, ty: int, x0: int, j: int)
        requires
            0 <= x0,
            j <= MAX_DIM,
        ensures
            self.row_hits(ty, x0, j).len() == (if j >= x0 {
                j - x0
            } else {
                0
            }),
            self.row_hits(ty, x0, j).len() <= MAX_DIM,
        decreases j - x0,
    {
        if j > x0 {
            self.lemma_row_hits_len(ty, x0, j - 1);
        }
    }

    /// A range query has at most `MAX_DIM * MAX_DIM` entries.
    pub proof fn lemma_range_hits_len(self, x0: int, x1: int, y0: int, j: int)
        requires
            0 <= x0,
            x1 <= MAX_DIM,
            0 <= y0,
            j <= MAX_DIM,
        ensures
            self.range_hits(x0, x1, y0, j).len() <= (if j >= y0 {
                (j - y0) * MAX_DIM
            } else {
                0
            }),
        decreases j - y0,
    {
        if j > y0 {
            self.lemma_range_hits_len(x0, x1, y0, j - 1);
            self.lemma_row_hits_len(j - 1, x0, x1);
            assert((j - y0) * MAX_DIM == (j - 1 - y0) * MAX_DIM + MAX_DIM) by (nonlinear_arith);
        }
    }

    /// The full query result is bounded by the grid area.
    pub proof fn lemma_hits_within_len(self, r: Rect)
        requires
            self.wf(),
        ensures
            self.hits_within(r).len() <= MAX_DIM * MAX_DIM,
    {
        self.lemma_range_hits_len(
            self.col_lo(r),
            self.col_hi(r),
            self.row_lo(r),
            self.row_hi(r),
        );
        let rows = self.row_hi(r) - self.row_lo(r);
        if rows >= 0 {
            assert(rows * MAX_DIM <= MAX_DIM as int * MAX_DIM) by (nonlinear_arith)
                requires
                    0 <= rows <= MAX_DIM,
            ;
        }
    }

    /// Every entry `tiles_within` can return is the grid entry of an
    /// in-bounds cell, with a well-formed tile rect.
    pub proof fn lemma_hits_within_props(self, r: Rect)
        requires
            self.wf(),
        ensures
            forall|k: int|
                0 <= k < self.hits_within(r).len() ==> {
                    let e = #[trigger] self.hits_within(r)[k];
                    &&& self.in_grid(e.0 as int, e.1 as int)
                    &&& e == self.tile_hit(e.0 as int, e.1 as int)
                    &&& e.2.wf()
                },
    {
        self.lemma_range_hits_props(self.col_lo(r), self.col_hi(r), self.row_lo(r), self.row_hi(r));
    }

    /// Read the descriptor of a grid cell.
    pub fn tile_desc(&self, tx: usize, ty: usize) -> (d: TileDescriptor)
        requires
            self.wf(),
            self.in_grid(tx as int, ty as int),
        ensures
            d == self.tile_at(tx as int, ty as int),
    {
        proof {
            lemma_grid_index(self.width as int, self.height as int, tx as int, ty as int);
        }
        self.tiles[ty * self.width + tx]
    }

    /// The tile under a world coordinate: integer division by the tile
    /// size; nothing when the coordinate falls outside the grid. Callers
    /// must treat that as "cannot move there" or "not solid".
    pub fn get_tile_at(&self, pos: Vec2) -> (r: Option<TileDescriptor>)
        requires
            self.wf(),
            pos.wf(),
        ensures
            r == self.spec_tile_at_pos(pos),
            r is Some <==> 0 <= pos.x && ((pos.x as int) / (TILE as int)) < self.width && 0
                <= pos.y && ((pos.y as int) / (TILE as int)) < self.height,
    {
        if pos.x < 0 || pos.y < 0 {
            return None;
        }
        let tx = pos.x / TILE;
        let ty = pos.y / TILE;
        if tx >= self.width as i64 || ty >= self.height as i64 {
            return None;
        }
        Some(self.tile_desc(tx as usize, ty as usize))
    }

    /// Spec-level image of `get_tile_at`.
    pub open spec fn spec_tile_at_pos(self, pos: Vec2) -> Option<TileDescriptor> {
        let tx = pos.x as int / TILE as int;
        let ty = pos.y as int / TILE as int;
        if 0 <= pos.x && tx < self.width && 0 <= pos.y && ty < self.height {
            Some(self.tile_at(tx, ty))
        } else {
            None
        }
    }

    /// Whether the tile under `pos` is known and solid.
    pub fn solid_at(&self, pos: Vec2) -> (r: bool)
        requires
            self.wf(),
            pos.wf(),
        ensures
            r == self.spec_solid_at(pos),
    {
        match self.get_tile_at(pos) {
            Some(td) => td.solid,
            None => false,
        }
    }

    /// Spec-level image of `solid_at`: out-of-bounds counts as not solid.
    pub open spec fn spec_solid_at(self, pos: Vec2) -> bool {
        match self.spec_tile_at_pos(pos) {
            Some(td) => td.solid,
            None => false,
        }
    }

    /// Number of tile sprites a renderer must reserve for this level.
    pub fn sprite_count(&self) -> (n: usize)
        requires
            self.wf(),
        ensures
            n == self.width * self.height,
    {
        proof {
            assert((self.width as int) * (self.height as int) <= MAX_DIM as int * MAX_DIM as int)
                by (nonlinear_arith)
                requires
                    0 <= self.width <= MAX_DIM,
                    0 <= self.height <= MAX_DIM,
            ;
        }
        self.width * self.height
    }

    /// The spawn markers extracted at load time.
    pub fn starts(&self) -> (s: &Vec<(EntityKind, Vec2)>)
        ensures
            s@ == self.starts@,
    {
        &self.starts
    }

    /// The first player spawn marker, if the level has one.
    pub fn player_start(&self) -> (r: Option<Vec2>)
        requires
            self.wf(),
        ensures
            r == spec_player_start(self.starts@),
    {
        let mut i: usize = 0;
        proof {
            assert(self.starts@.skip(0) =~= self.starts@);
        }
        while i < self.starts.len()
            invariant
                i <= self.starts@.len(),
                spec_player_start(self.starts@) == spec_player_start(self.starts@.skip(i as int)),
            decreases self.starts@.len() - i,
        {
            let (kind, pos) = self.starts[i];
            proof {
                assert(self.starts@.skip(i as int).drop_first() =~= self.starts@.skip(
                    i as int + 1,
                ));
            }
            if matches!(kind, EntityKind::Player) {
                assert(self.starts@.skip(i as int)[0] == self.starts@[i as int]);
                return Some(pos);
            }
            i = i + 1;
        }
        None
    }
}

/// The tile a token decodes to; meaningful only where the lookup succeeds.
pub open spec fn spec_tile_of(legend: Seq<LegendEntry>, token: u8) -> TileDescriptor {
    match legend_lookup(legend, token) {
        Some(e) => e.tile,
        None => TileDescriptor { solid: false, sprite: 0 },
    }
}

/// Every token of this line from column `c` on is known to the legend.
pub open spec fn row_tokens_known(line: Seq<u8>, legend: Seq<LegendEntry>) -> bool {
    forall|c: int| 0 <= c < line.len() ==> legend_lookup(legend, line[c]) is Some
}

/// First unknown-token column of a line, if any.
pub open spec fn row_first_unknown(line: Seq<u8>, legend: Seq<LegendEntry>, c: int) -> Option<
    int,
>
    decreases line.len() - c,
{
    if c < 0 || c >= line.len() {
        None
    } else if legend_lookup(legend, line[c]) is None {
        Some(c)
    } else {
        row_first_unknown(line, legend, c + 1)
    }
}

/// First configuration fault in the rows from `r` on: each row is checked
/// for length against `width`, then its tokens left to right.
pub open spec fn spec_first_error(
    lines: Seq<Seq<u8>>,
    legend: Seq<LegendEntry>,
    width: int,
    r: int,
) -> Option<ConfigError>
    decreases lines.len() - r,
{
    if r < 0 || r >= lines.len() {
        None
    } else if lines[r].len() != width {
        Some(ConfigError::RaggedRow(r as usize))
    } else {
        match row_first_unknown(lines[r], legend, 0) {
            Some(c) => Some(ConfigError::UnknownToken(r as usize, c as usize)),
            None => spec_first_error(lines, legend, width, r + 1),
        }
    }
}

/// Decoded descriptors of one text line, columns `0` up to `j`.
pub open spec fn row_tiles(line: Seq<u8>, legend: Seq<LegendEntry>, j: int) -> Seq<TileDescriptor>
    decreases j,
{
    if j <= 0 {
        Seq::empty()
    } else {
        row_tiles(line, legend, j - 1).push(spec_tile_of(legend, line[j - 1]))
    }
}

/// Decoded tile array for grid rows `0` up to `j` (bottom first): grid
/// row `ty` comes from text line `height - 1 - ty`.
pub open spec fn level_tiles(
    lines: Seq<Seq<u8>>,
    legend: Seq<LegendEntry>,
    width: int,
    height: int,
    j: int,
) -> Seq<TileDescriptor>
    decreases j,
{
    if j <= 0 {
        Seq::empty()
    } else {
        level_tiles(lines, legend, width, height, j - 1) + row_tiles(
            lines[height - j],
            legend,
            width,
        )
    }
}

/// World position at the center of tile `(tx, ty)`.
pub open spec fn spec_tile_center(tx: int, ty: int) -> Vec2 {
    Vec2 { x: (tx * TILE + TILE / 2) as i64, y: (ty * TILE + TILE / 2) as i64 }
}

/// Spawn markers of one text line (grid row `ty`), columns `0` up to `j`.
pub open spec fn row_starts(line: Seq<u8>, legend: Seq<LegendEntry>, ty: int, j: int) -> Seq<
    (EntityKind, Vec2),
>
    decreases j,
{
    if j <= 0 {
        Seq::empty()
    } else {
        let rest = row_starts(line, legend, ty, j - 1);
        match legend_lookup(legend, line[j - 1]) {
            Some(e) => match e.start {
                Some(kind) => rest.push((kind, spec_tile_center(j - 1, ty))),
                None => rest,
            },
            None => rest,
        }
    }
}

/// Spawn markers of text lines `0` up to `j`, in text order (top line
/// first, left to right); text line `r` is grid row `height - 1 - r`.
pub open spec fn level_starts(
    lines: Seq<Seq<u8>>,
    legend: Seq<LegendEntry>,
    width: int,
    height: int,
    j: int,
) -> Seq<(EntityKind, Vec2)>
    decreases j,
{
    if j <= 0 {
        Seq::empty()
    } else {
        level_starts(lines, legend, width, height, j - 1) + row_starts(
            lines[j - 1],
            legend,
            height - j,
            width,
        )
    }
}

/// First legend entry with this token, if any.
pub fn legend_find(legend: &Vec<LegendEntry>, token: u8) -> (r: Option<LegendEntry>)
    ensures
        r == legend_lookup(legend@, token),
{
    let mut i: usize = 0;
    proof {
        assert(legend@.skip(0) =~= legend@);
    }
    while i < legend.len()
        invariant
            i <= legend@.len(),
            legend_lookup(legend@, token) == legend_lookup(legend@.skip(i as int), token),
        decreases legend@.len() - i,
    {
        proof {
            assert(legend@.skip(i as int).drop_first() =~= legend@.skip(i as int + 1));
            assert(legend@.skip(i as int)[0] == legend@[i as int]);
        }
        if legend[i].token == token {
            return Some(legend[i]);
        }
        i = i + 1;
    }
    None
}

impl Level {
    /// Build a level from a textual grid: one byte per cell, the first
    /// line the top row of the world, decoded through `legend`. Spawn
    /// markers are collected in text order at the centers of their
    /// tiles. Rejects an empty grid, an oversized grid, ragged rows and
    /// unknown tokens; the error names the first fault in scan order.
    pub fn from_text(lines: &Vec<Vec<u8>>, legend: &Vec<LegendEntry>) -> (r: Result<
        Level,
        ConfigError,
    >)
        ensures
            ({
                let ls = lines@.map_values(|l: Vec<u8>| l@);
                let width = if ls.len() > 0 { ls[0].len() as int } else { 0 };
                let height = ls.len() as int;
                if height == 0 || width == 0 {
                    r == Err::<Level, ConfigError>(ConfigError::EmptyLevel)
                } else if height > MAX_DIM || width > MAX_DIM {
                    r == Err::<Level, ConfigError>(ConfigError::TooLarge)
                } else {
                    match spec_first_error(ls, legend@, width, 0) {
                        Some(e) => r == Err::<Level, ConfigError>(e),
                        None => {
                            &&& r is Ok
                            &&& r->Ok_0.width == width
                            &&& r->Ok_0.height == height
                            &&& r->Ok_0.tiles@ == level_tiles(ls, legend@, width, height, height)
                            &&& r->Ok_0.starts@ == level_starts(ls, legend@, width, height, height)
                            &&& r->Ok_0.wf()
                        },
                    }
                }
            }),
    {
        let ghost ls = lines@.map_values(|l: Vec<u8>| l@);
        if lines.len() == 0 {
            return Err(ConfigError::EmptyLevel);
        }
        let width = lines[0].len();
        let height = lines.len();
        if width == 0 {
            return Err(ConfigError::EmptyLevel);
        }
        if width > MAX_DIM || height > MAX_DIM {
            return Err(ConfigError::TooLarge);
        }
        // Validate every row: length, then tokens left to right.
        let mut r: usize = 0;
        while r < height
            invariant
                ls == lines@.map_values(|l: Vec<u8>| l@),
                height == lines@.len(),
                width == ls[0].len(),
                1 <= width <= MAX_DIM,
                1 <= height <= MAX_DIM,
                r <= height,
                spec_first_error(ls, legend@, width as int, 0) == spec_first_error(
                    ls,
                    legend@,
                    width as int,
                    r as int,
                ),
            decreases height - r,
        {
            if lines[r].len() != width {
                proof {
                    assert(ls[r as int] == lines@[r as int]@);
                    assert(spec_first_error(ls, legend@, width as int, r as int) == Some(
                        ConfigError::RaggedRow(r),
                    ));
                }
                return Err(ConfigError::RaggedRow(r));
            }
            let line = &lines[r];
            let mut c: usize = 0;
            while c < width
                invariant
                    ls == lines@.map_values(|l: Vec<u8>| l@),
                    height == lines@.len(),
                    width == ls[0].len(),
                    1 <= width <= MAX_DIM,
                    1 <= height <= MAX_DIM,
                    r < height,
                    c <= width,
                    line@ == ls[r as int],
                    line@.len() == width,
                    spec_first_error(ls, legend@, width as int, 0) == spec_first_error(
                        ls,
                        legend@,
                        width as int,
                        r as int,
                    ),
                    row_first_unknown(line@, legend@, 0) == row_first_unknown(
                        line@,
                        legend@,
                        c as int,
                    ),
                decreases width - c,
            {
                if legend_find(legend, line[c]).is_none() {
                    proof {
                        assert(row_first_unknown(line@, legend@, c as int) == Some(c as int));
                        assert(spec_first_error(ls, legend@, width as int, r as int) == Some(
                            ConfigError::UnknownToken(r, c),
                        ));
                    }
                    return Err(ConfigError::UnknownToken(r, c));
                }
                c = c + 1;
            }
            r = r + 1;
        }
        assert(spec_first_error(ls, legend@, width as int, 0) is None);
        // Decode the tile array, bottom grid row first.
        let mut tiles: Vec<TileDescriptor> = Vec::new();
        let mut ty: usize = 0;
        while ty < height
            invariant
                ls == lines@.map_values(|l: Vec<u8>| l@),
                height == lines@.len(),
                width == ls[0].len(),
                1 <= width <= MAX_DIM,
                1 <= height <= MAX_DIM,
                ty <= height,
                spec_first_error(ls, legend@, width as int, 0) is None,
                tiles@ == level_tiles(ls, legend@, width as int, height as int, ty as int),
                tiles@.len() == ty * width,
            decreases height - ty,
        {
            let line = &lines[height - 1 - ty];
            proof {
                lemma_no_error_rows(ls, legend@, width as int, (height - 1 - ty) as int);
            }
            let mut tx: usize = 0;
            while tx < width
                invariant
                    ls == lines@.map_values(|l: Vec<u8>| l@),
                    height == lines@.len(),
                    width == ls[0].len(),
                    ty < height,
                    tx <= width,
                    line@ == ls[height - 1 - ty],
                    line@.len() == width,
                    row_tokens_known(line@, legend@),
                    tiles@ == level_tiles(ls, legend@, width as int, height as int, ty as int)
                        + row_tiles(line@, legend@, tx as int),
                    tiles@.len() == ty * width + tx,
                decreases width - tx,
            {
                match legend_find(legend, line[tx]) {
                    Some(e) => tiles.push(e.tile),
                    None => {
                        return vstd::pervasive::unreached();
                    },
                }
                tx = tx + 1;
            }
            proof {
                assert(level_tiles(ls, legend@, width as int, height as int, ty as int + 1)
                    == level_tiles(ls, legend@, width as int, height as int, ty as int)
                    + row_tiles(ls[height - 1 - ty], legend@, width as int));
                assert((ty + 1) * width == ty * width + width) by (nonlinear_arith);
            }
            ty = ty + 1;
        }
        // Collect spawn markers in text order.
        let mut starts: Vec<(EntityKind, Vec2)> = Vec::new();
        let mut row: usize = 0;
        while row < height
            invariant
                ls == lines@.map_values(|l: Vec<u8>| l@),
                height == lines@.len(),
                width == ls[0].len(),
                1 <= width <= MAX_DIM,
                1 <= height <= MAX_DIM,
                row <= height,
                spec_first_error(ls, legend@, width as int, 0) is None,
                starts@ == level_starts(ls, legend@, width as int, height as int, row as int),
                forall|i: int|
                    0 <= i < starts@.len() ==> (#[trigger] starts@[i].1).wf()
                        && starts@[i].1.in_world(),
            decreases height - row,
        {
            let line = &lines[row];
            proof {
                lemma_no_error_rows(ls, legend@, width as int, row as int);
            }
            let ghost gy: int = height - 1 - row;
            let mut c: usize = 0;
            while c < width
                invariant
                    ls == lines@.map_values(|l: Vec<u8>| l@),
                    height == lines@.len(),
                    width == ls[0].len(),
                    1 <= width <= MAX_DIM,
                    1 <= height <= MAX_DIM,
                    row < height,
                    c <= width,
                    gy == height - 1 - row,
                    line@ == ls[row as int],
                    line@.len() == width,
                    row_tokens_known(line@, legend@),
                    starts@ == level_starts(ls, legend@, width as int, height as int, row as int)
                        + row_starts(line@, legend@, gy, c as int),
                    forall|i: int|
                        0 <= i < starts@.len() ==> (#[trigger] starts@[i].1).wf()
                            && starts@[i].1.in_world(),
                decreases width - c,
            {
                match legend_find(legend, line[c]) {
                    Some(e) => {
                        match e.start {
                            Some(kind) => {
                                proof {
                                    lemma_tile_center_in_world(c as int, gy);
                                }
                                let x = (c as i64) * TILE + TILE / 2;
                                let y = ((height - 1 - row) as i64) * TILE + TILE / 2;
                                starts.push((kind, Vec2 { x, y }));
                            },
                            None => {},
                        }
                    },
                    None => {
                        return vstd::pervasive::unreached();
                    },
                }
                c = c + 1;
            }
            proof {
                assert(level_starts(ls, legend@, width as int, height as int, row as int + 1)
                    == level_starts(ls, legend@, width as int, height as int, row as int)
                    + row_starts(ls[row as int], legend@, height - 1 - row, width as int));
            }
            row = row + 1;
        }
        let level = Level { width, height, tiles, starts };
        proof {
            assert(level.tiles@.len() == height * width);
            assert(height * width == width * height) by (nonlinear_arith);
        }
        Ok(level)
    }
}

/// Where the row scan finds no fault, every row has the right length and
/// only known tokens.
proof fn lemma_no_error_rows(
    lines: Seq<Seq<u8>>,
    legend: Seq<LegendEntry>,
    width: int,
    r: int,
)
    requires
        spec_first_error(lines, legend, width, 0) is None,
        0 <= r < lines.len(),
    ensures
        lines[r].len() == width,
        row_tokens_known(lines[r], legend),
{
    lemma_no_error_from(lines, legend, width, 0, r);
}

/// Helper for `lemma_no_error_rows`: walk the scan down to row `r`.
proof fn lemma_no_error_from(
    lines: Seq<Seq<u8>>,
    legend: Seq<LegendEntry>,
    width: int,
    lo: int,
    r: int,
)
    requires
        spec_first_error(lines, legend, width, lo) is None,
        0 <= lo <= r < lines.len(),
    ensures
        lines[r].len() == width,
        row_tokens_known(lines[r], legend),
    decreases r - lo,
{
    if lo == r {
        lemma_row_no_unknown(lines[r], legend, 0);
    } else {
        lemma_no_error_from(lines, legend, width, lo + 1, r);
    }
}

/// A line whose unknown-token scan finds nothing has only known tokens.
proof fn lemma_row_no_unknown(line: Seq<u8>, legend: Seq<LegendEntry>, c: int)
    requires
        row_first_unknown(line, legend, c) is None,
        0 <= c,
    ensures
        forall|k: int| c <= k < line.len() ==> legend_lookup(legend, line[k]) is Some,
    decreases line.len() - c,
{
    if c < line.len() {
        lemma_row_no_unknown(line, legend, c + 1);
    }
}

/// Tile centers of grid cells lie inside the world range.
proof fn lemma_tile_center_in_world(tx: int, ty: int)
    requires
        0 <= tx < MAX_DIM,
        0 <= ty < MAX_DIM,
    ensures
        spec_tile_center(tx, ty).wf(),
        spec_tile_center(tx, ty).in_world(),
        spec_tile_center(tx, ty) == (Vec2 {
            x: (tx * TILE + TILE / 2) as i64,
            y: (ty * TILE + TILE / 2) as i64,
        }),
{
    assert(0 <= tx * TILE <= (MAX_DIM - 1) as int * TILE && 0 <= ty * TILE <= (MAX_DIM - 1) as int
        * TILE) by (nonlinear_arith)
        requires
            0 <= tx < MAX_DIM,
            0 <= ty < MAX_DIM,
    ;
}

/// First marker of the player kind in a start list.
pub open spec fn spec_player_start(starts: Seq<(EntityKind, Vec2)>) -> Option<Vec2>
    decreases starts.len(),
{
    if starts.len() == 0 {
        None
    } else if starts[0].0 is Player {
        Some(starts[0].1)
    } else {
        spec_player_start(starts.drop_first())
    }
}

/// A grid index `ty*width + tx` stays inside the tile array.
proof fn lemma_grid_index(width: int, height: int, tx: int, ty: int)
    requires
        0 <= tx < width,
        0 <= ty < height,
        width <= MAX_DIM,
        height <= MAX_DIM,
    ensures
        0 <= ty * width + tx < width * height,
        ty * width + tx <= MAX_DIM * MAX_DIM,
    decreases 0int,
{
    assert(0 <= ty * width + tx < width * height && ty * width + tx <= MAX_DIM as int * MAX_DIM as int)
        by (nonlinear_arith)
        requires
            0 <= tx < width,
            0 <= ty < height,
            width <= MAX_DIM,
            height <= MAX_DIM,
    ;
}

/// Tile rects of grid cells are well-formed.
proof fn lemma_tile_rect_wf(tx: int, ty: int)
    requires
        0 <= tx <= MAX_DIM,
        0 <= ty <= MAX_DIM,
    ensures
        Level::tile_rect(tx, ty).wf(),
{
    assert(0 <= tx * TILE <= MAX_DIM as int * TILE && 0 <= ty * TILE <= MAX_DIM as int * TILE)
        by (nonlinear_arith)
        requires
            0 <= tx <= MAX_DIM,
            0 <= ty <= MAX_DIM,
    ;
}

} // verus!
