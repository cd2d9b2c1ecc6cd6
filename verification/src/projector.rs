//! Projection between geographic positions and viewport screen coordinates.
//!
//! Screen coordinates are kept in subpixel units so that projecting loses no
//! precision: one pixel is `SUBPIXELS_PER_PIXEL` subpixel units. With that
//! choice `project` is injective on valid positions and `unproject` recovers
//! the exact position from any projected point.

use vstd::arithmetic::div_mod::{lemma_div_by_multiple, lemma_div_is_ordered_by_denominator};
use vstd::arithmetic::power2::{lemma2_to64, lemma_pow2_strictly_increases, lemma_pow2_unfold, pow2};
use vstd::prelude::*;

use crate::mercator::{
    inv_merc_y, lemma_merc_bounded, lemma_merc_strictly_monotone, merc_y, spec_merc_y,
    spec_merc_y_nonneg,
};
use crate::position::{Position, LAT_MAX, LON_MAX};

verus! {

/// Number of subpixel units in one screen pixel.
///
/// At zoom `z` the world is `256 * 2^z` pixels wide and `360e6` fixed-point
/// longitude units wide, so one pixel is `360e6 / 256 = 1_406_250` units
/// scaled by `2^z`; keeping screen coordinates scaled by `2^z` makes the
/// subpixel size independent of zoom.
pub const SUBPIXELS_PER_PIXEL: i64 = 1_406_250;

/// Half of `SUBPIXELS_PER_PIXEL`, used to centre the viewport.
pub const HALF_SUBPIXELS_PER_PIXEL: i64 = 703_125;

/// Largest zoom level the projector arithmetic supports.
pub const MAX_ZOOM_CAP: u8 = 24;

/// Largest viewport side length, in pixels.
pub const MAX_VIEWPORT_SIDE: u32 = 65_536;

/// Margin, in pixels, by which the viewport is expanded when testing
/// visibility, so that partially visible markers still register.
pub const VIEW_MARGIN_PIXELS: i64 = 100;

/// A point in viewport coordinates, in subpixel units; the origin is the
/// top-left corner of the viewport and y grows downwards.
#[derive(Clone, Copy, PartialEq, Eq, Structural, Debug)]
pub struct ScreenPoint {
    pub x: i64,
    pub y: i64,
}

/// Projection state for one frame: the position at the viewport centre, the
/// zoom level, and the viewport size in pixels.
#[derive(Clone, Copy, PartialEq, Eq, Structural, Debug)]
pub struct Projector {
    pub center: Position,
    pub zoom: u8,
    pub width: u32,
    pub height: u32,
}

/// The pixel scale factor at a zoom level.
pub open spec fn spec_scale(z: nat) -> int {
    pow2(z) as int
}

/// Horizontal screen coordinate of a position, in subpixel units.
pub open spec fn spec_project_x(proj: Projector, p: Position) -> int {
    (p.lon - proj.center.lon) * spec_scale(proj.zoom as nat) + (proj.width as int) * (
    HALF_SUBPIXELS_PER_PIXEL as int)
}

/// Vertical screen coordinate of a position, in subpixel units.
pub open spec fn spec_project_y(proj: Projector, p: Position) -> int {
    (spec_merc_y(proj.center.lat as int) - spec_merc_y(p.lat as int)) * spec_scale(
        proj.zoom as nat,
    ) + (proj.height as int) * (HALF_SUBPIXELS_PER_PIXEL as int)
}

/// Whether a position projects into the viewport expanded by the margin.
pub open spec fn spec_is_in_view(proj: Projector, p: Position) -> bool {
    let x = spec_project_x(proj, p);
    let y = spec_project_y(proj, p);
    &&& -(VIEW_MARGIN_PIXELS as int) * (SUBPIXELS_PER_PIXEL as int) <= x
    &&& x <= (proj.width as int + VIEW_MARGIN_PIXELS as int) * (SUBPIXELS_PER_PIXEL as int)
    &&& -(VIEW_MARGIN_PIXELS as int) * (SUBPIXELS_PER_PIXEL as int) <= y
    &&& y <= (proj.height as int + VIEW_MARGIN_PIXELS as int) * (SUBPIXELS_PER_PIXEL as int)
}

/// Whether two positions project within `limit` pixels of each other.
pub open spec fn spec_within_distance(
    proj: Projector,
    p1: Position,
    p2: Position,
    limit: int,
) -> bool {
    let dx = spec_project_x(proj, p1) - spec_project_x(proj, p2);
    let dy = spec_project_y(proj, p1) - spec_project_y(proj, p2);
    dx * dx + dy * dy < (limit * (SUBPIXELS_PER_PIXEL as int)) * (limit * (
    SUBPIXELS_PER_PIXEL as int))
}

/// The scale factor of a supported zoom level is between one and `2^24`.
pub proof fn lemma_scale_bounds(z: nat)
    requires
        z <= MAX_ZOOM_CAP as nat,
    ensures
        1 <= spec_scale(z) <= 16_777_216,
{
    lemma2_to64();
    vstd::arithmetic::power2::lemma_pow2_pos(z);
    if z < 24 {
        lemma_pow2_strictly_increases(z, 24);
    }
}

/// Screen coordinates of valid positions under a well-formed projector stay
/// within fixed bounds.
pub proof fn lemma_project_bounds(proj: Projector, p: Position)
    requires
        proj.wf(),
        p.is_valid(),
    ensures
        -8_000_000_000_000_000 <= spec_project_x(proj, p) <= 8_000_000_000_000_000,
        -8_000_000_000_000_000 <= spec_project_y(proj, p) <= 8_000_000_000_000_000,
{
    let s = spec_scale(proj.zoom as nat);
    lemma_scale_bounds(proj.zoom as nat);
    lemma_merc_bounded(proj.center.lat as int);
    lemma_merc_bounded(p.lat as int);
    let dlon = p.lon - proj.center.lon;
    let dm = spec_merc_y(proj.center.lat as int) - spec_merc_y(p.lat as int);
    assert(-7_000_000_000_000_000 <= dlon * s <= 7_000_000_000_000_000) by (nonlinear_arith)
        requires
            -360_000_000 <= dlon <= 360_000_000,
            1 <= s <= 16_777_216,
    ;
    assert(-7_000_000_000_000_000 <= dm * s <= 7_000_000_000_000_000) by (nonlinear_arith)
        requires
            -280_000_000 <= dm <= 280_000_000,
            1 <= s <= 16_777_216,
    ;
}

/// Truncating integer division, the rounding used when mapping screen
/// coordinates back to world units.
pub open spec fn trunc_div(a: int, b: int) -> int {
    if a >= 0 {
        a / b
    } else {
        -((-a) / b)
    }
}

/// Truncating division of a signed value by a positive divisor.
fn div_trunc(a: i64, b: i64) -> (q: i64)
    requires
        1 <= b,
        -0x7fff_ffff_ffff_ffff <= a,
    ensures
        q == trunc_div(a as int, b as int),
{
    proof {
        if a >= 0 {
            lemma_div_is_ordered_by_denominator(a as int, 1, b as int);
            assert((a as int) / 1 == a as int);
        } else {
            lemma_div_is_ordered_by_denominator(-(a as int), 1, b as int);
            assert((-(a as int)) / 1 == -(a as int));
        }
    }
    if a >= 0 {
        ((a as u64) / (b as u64)) as i64
    } else {
        let m = ((-a) as u64) / (b as u64);
        -(m as i64)
    }
}

/// Dividing an exact multiple truncates to the exact quotient.
proof fn lemma_trunc_div_exact(d: int, s: int)
    requires
        1 <= s,
    ensures
        trunc_div(d * s, s) == d,
{
    if d >= 0 {
        lemma_div_by_multiple(d, s);
    } else {
        assert(d * s < 0) by (nonlinear_arith)
            requires
                d < 0,
                s >= 1,
        ;
        assert(-(d * s) == (-d) * s) by (nonlinear_arith);
        lemma_div_by_multiple(-d, s);
    }
}

/// Clamp a value into a closed interval.
fn clamp_i64(x: i64, lo: i64, hi: i64) -> (r: i64)
    requires
        lo <= hi,
    ensures
        r == spec_clamp(x as int, lo as int, hi as int),
{
    if x < lo {
        lo
    } else if x > hi {
        hi
    } else {
        x
    }
}

/// The value of a clamp into a closed interval.
pub open spec fn spec_clamp(x: int, lo: int, hi: int) -> int {
    if x < lo {
        lo
    } else if x > hi {
        hi
    } else {
        x
    }
}

/// The pixel scale factor at a zoom level, `2^z`.
pub fn scale_for_zoom(z: u8) -> (s: i64)
    requires
        z <= MAX_ZOOM_CAP,
    ensures
        s == spec_scale(z as nat),
        1 <= s <= 16_777_216,
{
    proof {
        lemma2_to64();
    }
    let mut s: i64 = 1;
    let mut i: u8 = 0;
    while i < z
        invariant
            i <= z <= MAX_ZOOM_CAP,
            s == spec_scale(i as nat),
            1 <= s,
            s <= 16_777_216,
        decreases z - i,
    {
        proof {
            lemma2_to64();
            lemma_pow2_unfold(i as nat + 1);
            if (i as nat) + 1 < 24 {
                lemma_pow2_strictly_increases(i as nat + 1, 24);
            }
        }
        s = s * 2;
        i = i + 1;
    }
    s
}

impl Projector {
    /// A projector is well formed when its centre is a valid position, its
    /// zoom is within the supported cap, and the viewport fits the size bound.
    pub open spec fn wf(self) -> bool {
        &&& self.center.is_valid()
        &&& self.zoom <= MAX_ZOOM_CAP
        &&& self.width <= MAX_VIEWPORT_SIDE
        &&& self.height <= MAX_VIEWPORT_SIDE
    }

    /// Build the projector for one frame.
    pub fn new(center: Position, zoom: u8, width: u32, height: u32) -> (r: Projector)
        requires
            center.is_valid(),
            zoom <= MAX_ZOOM_CAP,
            width <= MAX_VIEWPORT_SIDE,
            height <= MAX_VIEWPORT_SIDE,
        ensures
            r == (Projector { center, zoom, width, height }),
            r.wf(),
    {
        Projector { center, zoom, width, height }
    }

    /// Project a position to viewport coordinates.
    pub fn project(&self, p: Position) -> (sp: ScreenPoint)
        requires
            self.wf(),
            p.is_valid(),
        ensures
            sp.x == spec_project_x(*self, p),
            sp.y == spec_project_y(*self, p),
    {
        let s = scale_for_zoom(self.zoom);
        let cm = merc_y(self.center.lat);
        let pm = merc_y(p.lat);
        proof {
            lemma_merc_bounded(self.center.lat as int);
            lemma_merc_bounded(p.lat as int);
        }
        let dlon = p.lon - self.center.lon;
        let dm = cm - pm;
        proof {
            assert(-7_000_000_000_000_000 <= (dlon as int) * (s as int) <= 7_000_000_000_000_000)
                by (nonlinear_arith)
                requires
                    -360_000_000 <= dlon as int <= 360_000_000,
                    1 <= s as int <= 16_777_216,
            ;
            assert(-7_000_000_000_000_000 <= (dm as int) * (s as int) <= 7_000_000_000_000_000)
                by (nonlinear_arith)
                requires
                    -280_000_000 <= dm as int <= 280_000_000,
                    1 <= s as int <= 16_777_216,
            ;
        }
        let x = dlon * s + (self.width as i64) * HALF_SUBPIXELS_PER_PIXEL;
        let y = dm * s + (self.height as i64) * HALF_SUBPIXELS_PER_PIXEL;
        ScreenPoint { x, y }
    }

    /// Map a viewport coordinate back to the position it came from. Whenever
    /// the point is the projection of a valid position, exactly that position
    /// is returned; any other point yields some valid position.
    pub fn unproject(&self, sp: ScreenPoint) -> (p: Position)
        requires
            self.wf(),
            -0x7fff_0000_0000_0000 <= sp.x <= 0x7fff_0000_0000_0000,
            -0x7fff_0000_0000_0000 <= sp.y <= 0x7fff_0000_0000_0000,
        ensures
            p.is_valid(),
            forall|q: Position|
                q.is_valid() && #[trigger] spec_project_x(*self, q) == sp.x as int
                    && spec_project_y(*self, q) == sp.y as int ==> p == q,
    {
        let s = scale_for_zoom(self.zoom);
        let cm = merc_y(self.center.lat);
        proof {
            lemma_merc_bounded(self.center.lat as int);
        }

        let relx = sp.x - (self.width as i64) * HALF_SUBPIXELS_PER_PIXEL;
        let dlon = clamp_i64(div_trunc(relx, s), -360_000_000, 360_000_000);
        let lon = clamp_i64(self.center.lon + dlon, -LON_MAX, LON_MAX);

        let rely = sp.y - (self.height as i64) * HALF_SUBPIXELS_PER_PIXEL;
        let dm = clamp_i64(div_trunc(rely, s), -300_000_000, 300_000_000);
        let mmax = merc_y(LAT_MAX);
        let m = clamp_i64(cm - dm, -mmax, mmax);
        let lat = inv_merc_y(m);

        let p = Position { lat, lon };
        proof {
            assert forall|q: Position|
                q.is_valid() && #[trigger] spec_project_x(*self, q) == sp.x as int
                    && spec_project_y(*self, q) == sp.y as int implies p == q by {
                lemma_merc_bounded(q.lat as int);
                // The horizontal coordinate is an exact multiple of the scale.
                assert(relx as int == (q.lon - self.center.lon) * (s as int));
                lemma_trunc_div_exact(q.lon - self.center.lon, s as int);
                assert(dlon as int == q.lon - self.center.lon);
                assert(lon == q.lon);
                // So is the vertical coordinate, in northing units.
                assert(rely as int == (spec_merc_y(self.center.lat as int) - spec_merc_y(
                    q.lat as int,
                )) * (s as int));
                lemma_trunc_div_exact(
                    spec_merc_y(self.center.lat as int) - spec_merc_y(q.lat as int),
                    s as int,
                );
                assert(m as int == spec_merc_y(q.lat as int));
                assert(lat == q.lat);
            }
        }
        p
    }

    /// Whether a position projects inside the viewport expanded by the margin.
    pub fn is_in_view(&self, p: Position) -> (r: bool)
        requires
            self.wf(),
            p.is_valid(),
        ensures
            r == spec_is_in_view(*self, p),
    {
        let sp = self.project(p);
        let lo = -VIEW_MARGIN_PIXELS * SUBPIXELS_PER_PIXEL;
        let hix = (self.width as i64 + VIEW_MARGIN_PIXELS) * SUBPIXELS_PER_PIXEL;
        let hiy = (self.height as i64 + VIEW_MARGIN_PIXELS) * SUBPIXELS_PER_PIXEL;
        lo <= sp.x && sp.x <= hix && lo <= sp.y && sp.y <= hiy
    }

    /// Whether two positions project within `limit_px` pixels of each other.
    pub fn within_distance(&self, p1: Position, p2: Position, limit_px: u32) -> (r: bool)
        requires
            self.wf(),
            p1.is_valid(),
            p2.is_valid(),
            limit_px <= 10_000,
        ensures
            r == spec_within_distance(*self, p1, p2, limit_px as int),
    {
        let sp1 = self.project(p1);
        let sp2 = self.project(p2);
        proof {
            lemma_project_bounds(*self, p1);
            lemma_project_bounds(*self, p2);
        }
        let dx = (sp1.x - sp2.x) as i128;
        let dy = (sp1.y - sp2.y) as i128;
        proof {
            assert(dx * dx <= 0x100_0000_0000_0000_0000_0000_0000_0000int && dx * dx >= 0)
                by (nonlinear_arith)
                requires
                    -16_000_000_000_000_000 <= dx as int <= 16_000_000_000_000_000,
            ;
            assert(dy * dy <= 0x100_0000_0000_0000_0000_0000_0000_0000int && dy * dy >= 0)
                by (nonlinear_arith)
                requires
                    -16_000_000_000_000_000 <= dy as int <= 16_000_000_000_000_000,
            ;
        }
        let d2 = dx * dx + dy * dy;
        proof {
            assert((limit_px as int) * (SUBPIXELS_PER_PIXEL as int) <= 15_000_000_000_000)
                by (nonlinear_arith)
                requires
                    0 <= limit_px as int <= 10_000,
            ;
        }
        let lim = (limit_px as i128) * (SUBPIXELS_PER_PIXEL as i128);
        proof {
            assert(lim * lim <= 0x100_0000_0000_0000_0000_0000_0000_0000int && lim * lim >= 0)
                by (nonlinear_arith)
                requires
                    0 <= lim as int <= 15_000_000_000_000,
            ;
        }
        d2 < lim * lim
    }
}

/// Projection is injective on valid positions: two valid positions with the
/// same screen coordinates are the same position, so the projection can be
/// inverted exactly on projected points.
pub proof fn lemma_project_injective(proj: Projector, p: Position, q: Position)
    requires
        proj.wf(),
        p.is_valid(),
        q.is_valid(),
        spec_project_x(proj, p) == spec_project_x(proj, q),
        spec_project_y(proj, p) == spec_project_y(proj, q),
    ensures
        p == q,
{
    let s = spec_scale(proj.zoom as nat);
    assert(s >= 1) by {
        vstd::arithmetic::power2::lemma_pow2_pos(proj.zoom as nat);
    }
    assert((p.lon - proj.center.lon) * s == (q.lon - proj.center.lon) * s);
    assert(p.lon == q.lon) by (nonlinear_arith)
        requires
            (p.lon - proj.center.lon) * s == (q.lon - proj.center.lon) * s,
            s >= 1,
    ;
    assert(spec_merc_y(p.lat as int) == spec_merc_y(q.lat as int)) by {
        assert((spec_merc_y(proj.center.lat as int) - spec_merc_y(p.lat as int)) * s == (
        spec_merc_y(proj.center.lat as int) - spec_merc_y(q.lat as int)) * s);
        let a = spec_merc_y(proj.center.lat as int) - spec_merc_y(p.lat as int);
        let b = spec_merc_y(proj.center.lat as int) - spec_merc_y(q.lat as int);
        assert(a == b) by (nonlinear_arith)
            requires
                a * s == b * s,
                s >= 1,
        ;
    }
    if p.lat < q.lat {
        lemma_merc_strictly_monotone(p.lat as int, q.lat as int);
    } else if q.lat < p.lat {
        lemma_merc_strictly_monotone(q.lat as int, p.lat as int);
    }
}

} // verus!
