//! Tile-pyramid addressing: tile identifiers and the viewport-to-tile-set
//! computation.
//!
//! At zoom `z` the world is a `2^z` by `2^z` grid of square tiles. Columns
//! wrap around the antimeridian modulo `2^z`; rows clamp at the poles, where
//! the mercator northing is cut off at the edge of the square world.

use vstd::arithmetic::div_mod::{
    lemma_div_is_ordered, lemma_div_is_ordered_by_denominator, lemma_div_multiples_vanish_fancy,
    lemma_hoist_over_denominator, lemma_mod_bound, lemma_mod_multiples_vanish,
};
use vstd::prelude::*;

use crate::mercator::{merc_y, spec_merc_y};
use crate::position::LON_MAX;
use crate::projector::{
    scale_for_zoom, spec_clamp, spec_scale, Projector, HALF_SUBPIXELS_PER_PIXEL,
};

verus! {

/// Width of the world in fixed-point longitude units.
pub const WORLD_UNITS: i64 = 360_000_000;

/// The mercator northing is cut off at this magnitude for tile addressing,
/// which makes the tiled world square, as the tile pyramid requires.
pub const MERC_TILE_CUTOFF: i64 = 180_000_000;

/// Identifier of one tile of the pyramid: column, row and zoom level.
#[derive(Clone, Copy, PartialEq, Eq, Structural, Debug, Hash)]
pub struct TileId {
    pub x: u32,
    pub y: u32,
    pub zoom: u8,
}

impl TileId {
    /// Column and row lie within the `2^zoom` grid.
    pub open spec fn wf(self) -> bool {
        &&& self.x < spec_scale(self.zoom as nat)
        &&& self.y < spec_scale(self.zoom as nat)
    }

    /// The tile one zoom level coarser that covers this tile, used for
    /// progressive fallback while this tile is not yet ready. The root tile
    /// has no parent.
    pub fn parent(&self) -> (r: Option<TileId>)
        requires
            self.wf(),
        ensures
            self.zoom == 0 ==> r is None,
            self.zoom > 0 ==> r == Some(
                TileId {
                    x: (self.x / 2) as u32,
                    y: (self.y / 2) as u32,
                    zoom: (self.zoom - 1) as u8,
                },
            ),
            r matches Some(p) ==> p.wf(),
    {
        if self.zoom == 0 {
            None
        } else {
            proof {
                vstd::arithmetic::power2::lemma_pow2_unfold(self.zoom as nat);
                let p = spec_scale((self.zoom - 1) as nat);
                assert(p > 0) by {
                    vstd::arithmetic::power2::lemma_pow2_pos((self.zoom - 1) as nat);
                }
                assert((2 * (p - 1) + 1) / 2 == p - 1) by {
                    lemma_div_multiples_vanish_fancy(p - 1, 1, 2);
                }
                lemma_div_is_ordered(self.x as int, 2 * p - 1, 2);
                lemma_div_is_ordered(self.y as int, 2 * p - 1, 2);
            }
            Some(TileId { x: self.x / 2, y: self.y / 2, zoom: self.zoom - 1 })
        }
    }
}

/// Floor division of a signed value by a positive divisor.
fn div_floor(a: i64, d: i64) -> (q: i64)
    requires
        1 <= d <= 400_000_000,
        -(1_000_000 * d as int) <= a as int <= 100_000_000_000_000_000,
    ensures
        q == a as int / d as int,
{
    let shifted = a + 1_000_000 * d;
    proof {
        lemma_hoist_over_denominator(a as int, 1_000_000, d as nat);
        lemma_div_is_ordered_by_denominator(shifted as int, 1, d as int);
        assert((shifted as int) / 1 == shifted as int);
        lemma_div_is_ordered(0, shifted as int, d as int);
    }
    let q = (shifted as u64) / (d as u64);
    (q as i64) - 1_000_000
}

/// Euclidean remainder, used to wrap tile columns around the antimeridian.
fn wrap_mod(a: i64, m: i64) -> (r: i64)
    requires
        1 <= m <= 400_000_000,
        -(1_000_000 * m as int) <= a as int <= 100_000_000_000_000_000,
    ensures
        r == a as int % m as int,
        0 <= r < m,
{
    let shifted = a + 1_000_000 * m;
    proof {
        lemma_mod_multiples_vanish(1_000_000, a as int, m as int);
        lemma_mod_bound(a as int, m as int);
    }
    let r = (shifted as u64) % (m as u64);
    r as i64
}

/// Scaled world x coordinate of the viewport centre: longitude measured from
/// the antimeridian, scaled by `2^zoom`.
pub open spec fn spec_center_world_x(proj: Projector) -> int {
    (proj.center.lon + LON_MAX as int) * spec_scale(proj.zoom as nat)
}

/// Scaled world y coordinate of the viewport centre: the cut-off mercator
/// northing measured downward from the north edge, scaled by `2^zoom`.
pub open spec fn spec_center_world_y(proj: Projector) -> int {
    (MERC_TILE_CUTOFF as int - spec_clamp(
        spec_merc_y(proj.center.lat as int),
        -(MERC_TILE_CUTOFF as int),
        MERC_TILE_CUTOFF as int,
    )) * spec_scale(proj.zoom as nat)
}

/// First tile column covered by the viewport, before wrapping.
pub open spec fn spec_col_min(proj: Projector) -> int {
    (spec_center_world_x(proj) - (proj.width as int) * (HALF_SUBPIXELS_PER_PIXEL as int)) / (
    WORLD_UNITS as int)
}

/// Last tile column covered by the viewport, before wrapping.
pub open spec fn spec_col_max(proj: Projector) -> int {
    (spec_center_world_x(proj) + (proj.width as int) * (HALF_SUBPIXELS_PER_PIXEL as int)) / (
    WORLD_UNITS as int)
}

/// First tile row covered by the viewport, clamped to the grid.
pub open spec fn spec_row_min(proj: Projector) -> int {
    spec_clamp(
        (spec_center_world_y(proj) - (proj.height as int) * (HALF_SUBPIXELS_PER_PIXEL as int)) / (
        WORLD_UNITS as int),
        0,
        spec_scale(proj.zoom as nat) - 1,
    )
}

/// Last tile row covered by the viewport, clamped to the grid.
pub open spec fn spec_row_max(proj: Projector) -> int {
    spec_clamp(
        (spec_center_world_y(proj) + (proj.height as int) * (HALF_SUBPIXELS_PER_PIXEL as int)) / (
        WORLD_UNITS as int),
        0,
        spec_scale(proj.zoom as nat) - 1,
    )
}

/// The tile at offset `k` of the covering rectangle, enumerated column by
/// column and row by row within each column.
pub open spec fn spec_tile_at(proj: Projector, k: int) -> TileId {
    let rows = spec_row_max(proj) - spec_row_min(proj) + 1;
    TileId {
        x: ((spec_col_min(proj) + k / rows) % spec_scale(proj.zoom as nat)) as u32,
        y: (spec_row_min(proj) + k % rows) as u32,
        zoom: proj.zoom,
    }
}

/// The minimal covering set of tiles for the viewport: a contiguous
/// rectangle of tile addresses, columns wrapped modulo `2^zoom`, rows
/// clamped to the grid, enumerated deterministically column by column.
pub fn visible_tiles(proj: &Projector) -> (r: Vec<TileId>)
    requires
        proj.wf(),
    ensures
        r@.len() == (spec_col_max(*proj) - spec_col_min(*proj) + 1) * (spec_row_max(*proj)
            - spec_row_min(*proj) + 1),
        forall|k: int| 0 <= k < r@.len() ==> #[trigger] r@[k] == spec_tile_at(*proj, k),
        forall|k: int| 0 <= k < r@.len() ==> (#[trigger] r@[k]).wf(),
{
    let s = scale_for_zoom(proj.zoom);
    let cm = merc_y(proj.center.lat);
    proof {
        crate::mercator::lemma_merc_bounded(proj.center.lat as int);
    }
    let cut = if cm < -MERC_TILE_CUTOFF {
        -MERC_TILE_CUTOFF
    } else if cm > MERC_TILE_CUTOFF {
        MERC_TILE_CUTOFF
    } else {
        cm
    };
    proof {
        assert(0 <= (proj.center.lon + LON_MAX as int) * (s as int) <= 6_100_000_000_000_000)
            by (nonlinear_arith)
            requires
                0 <= proj.center.lon + LON_MAX as int <= 360_000_000,
                1 <= s as int <= 16_777_216,
        ;
        assert(0 <= (MERC_TILE_CUTOFF as int - cut as int) * (s as int) <= 6_100_000_000_000_000)
            by (nonlinear_arith)
            requires
                0 <= MERC_TILE_CUTOFF as int - cut as int <= 360_000_000,
                1 <= s as int <= 16_777_216,
        ;
    }
    let cx = (proj.center.lon + LON_MAX) * s;
    let cy = (MERC_TILE_CUTOFF - cut) * s;
    let half_w = (proj.width as i64) * HALF_SUBPIXELS_PER_PIXEL;
    let half_h = (proj.height as i64) * HALF_SUBPIXELS_PER_PIXEL;

    let col_min = div_floor(cx - half_w, WORLD_UNITS);
    let col_max = div_floor(cx + half_w, WORLD_UNITS);
    proof {
        lemma_div_is_ordered(cx as int - half_w as int, cx as int + half_w as int,
            WORLD_UNITS as int);
        lemma_div_is_ordered(-46_080_000_000, cx as int - half_w as int, WORLD_UNITS as int);
        assert((-46_080_000_000) / (WORLD_UNITS as int) >= -1_000_000);
        lemma_div_is_ordered(cx as int + half_w as int, 6_200_000_000_000_000, WORLD_UNITS as int);
        assert(6_200_000_000_000_000int / (WORLD_UNITS as int) <= 100_000_000);
    }

    let row_min_raw = div_floor(cy - half_h, WORLD_UNITS);
    let row_max_raw = div_floor(cy + half_h, WORLD_UNITS);
    proof {
        lemma_div_is_ordered(cy as int - half_h as int, cy as int + half_h as int,
            WORLD_UNITS as int);
    }
    let row_min = if row_min_raw < 0 {
        0
    } else if row_min_raw > s - 1 {
        s - 1
    } else {
        row_min_raw
    };
    let row_max = if row_max_raw < 0 {
        0
    } else if row_max_raw > s - 1 {
        s - 1
    } else {
        row_max_raw
    };
    assert(row_min == spec_row_min(*proj));
    assert(row_max == spec_row_max(*proj));
    assert(0 <= row_min <= row_max <= s - 1);

    let cols = col_max - col_min + 1;
    let rows = row_max - row_min + 1;
    let ghost total = cols as int * rows as int;
    proof {
        assert(cols as int * rows as int <= 102_000_000 * 16_777_216) by (nonlinear_arith)
            requires
                1 <= cols as int <= 102_000_000,
                1 <= rows as int <= 16_777_216,
        ;
        assert(cols as int * rows as int >= 1) by (nonlinear_arith)
            requires
                1 <= cols as int,
                1 <= rows as int,
        ;
    }

    let mut out: Vec<TileId> = Vec::new();
    let mut i: i64 = 0;
    while i < cols
        invariant
            0 <= i <= cols,
            cols == spec_col_max(*proj) - spec_col_min(*proj) + 1,
            rows == spec_row_max(*proj) - spec_row_min(*proj) + 1,
            col_min == spec_col_min(*proj),
            row_min == spec_row_min(*proj),
            1 <= rows <= s as int,
            1 <= cols <= 102_000_000,
            0 <= row_min,
            row_min + rows - 1 <= s - 1,
            -1_000_000 <= col_min,
            col_min + cols - 1 <= 100_000_000,
            s == spec_scale(proj.zoom as nat),
            1 <= s <= 16_777_216,
            proj.zoom <= 24,
            out@.len() == i as int * rows as int,
            forall|k: int| 0 <= k < out@.len() ==> #[trigger] out@[k] == spec_tile_at(*proj, k),
            forall|k: int| 0 <= k < out@.len() ==> (#[trigger] out@[k]).wf(),
        decreases cols - i,
    {
        let col = col_min + i;
        let x = wrap_mod(col, s);
        let mut j: i64 = 0;
        while j < rows
            invariant
                0 <= j <= rows,
                0 <= i < cols,
                cols == spec_col_max(*proj) - spec_col_min(*proj) + 1,
                rows == spec_row_max(*proj) - spec_row_min(*proj) + 1,
                col_min == spec_col_min(*proj),
                row_min == spec_row_min(*proj),
                col == col_min + i,
                x == (col_min + i) % (s as int),
                0 <= x < s,
                1 <= rows <= s as int,
                1 <= cols <= 102_000_000,
                0 <= row_min,
                row_min + rows - 1 <= s - 1,
                s == spec_scale(proj.zoom as nat),
                1 <= s <= 16_777_216,
                proj.zoom <= 24,
                out@.len() == i as int * rows as int + j as int,
                forall|k: int| 0 <= k < out@.len() ==> #[trigger] out@[k] == spec_tile_at(*proj, k),
                forall|k: int| 0 <= k < out@.len() ==> (#[trigger] out@[k]).wf(),
            decreases rows - j,
        {
            let y = row_min + j;
            let t = TileId { x: x as u32, y: y as u32, zoom: proj.zoom };
            proof {
                let k = i as int * rows as int + j as int;
                assert(rows as int * i as int + j as int == i as int * rows as int + j as int)
                    by (nonlinear_arith);
                lemma_div_multiples_vanish_fancy(i as int, j as int, rows as int);
                vstd::arithmetic::div_mod::lemma_mod_multiples_vanish(
                    i as int,
                    j as int,
                    rows as int,
                );
                vstd::arithmetic::div_mod::lemma_small_mod(j as nat, rows as nat);
                assert(j as int % rows as int == j as int);
                assert(k / rows as int == i as int);
                assert(k % rows as int == j as int);
                assert(t == spec_tile_at(*proj, k));
                assert(t.wf());
            }
            out.push(t);
            proof {
                assert(out@.len() == i as int * rows as int + (j as int + 1));
            }
            j = j + 1;
        }
        proof {
            assert((i as int + 1) * rows as int == i as int * rows as int + rows as int)
                by (nonlinear_arith);
        }
        i = i + 1;
    }
    proof {
        assert(out@.len() == cols as int * rows as int);
    }
    out
}

} // verus!
