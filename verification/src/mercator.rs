//! The mercator northing curve in fixed-point arithmetic.
//!
//! Latitudes are measured in millionths of a degree. The northing of a
//! latitude is the latitude plus a cubic correction term, the third-order
//! expansion of the mercator integral `atanh(sin lat)` expressed in the same
//! fixed-point units. The curve is strictly increasing, which makes it
//! invertible; the inverse is computed by binary search and returns the exact
//! preimage whenever one exists.

use vstd::arithmetic::div_mod::lemma_div_is_ordered;
use vstd::prelude::*;

use crate::position::LAT_MAX;

verus! {

/// Divisor of the cubic correction term. This is `6 * (180e6 / pi)^2`, the
/// constant that turns `lat^3` in millionths of a degree into the third-order
/// mercator correction in the same units.
pub const MERC_CUBIC_DIVISOR: i64 = 19_696_838_000_000_000;

/// The cube of an integer.
pub open spec fn cube(x: int) -> int {
    x * x * x
}

/// Mercator northing of a nonnegative latitude, in millionths of a degree.
pub open spec fn spec_merc_y_nonneg(lat: int) -> int {
    lat + cube(lat) / (MERC_CUBIC_DIVISOR as int)
}

/// Mercator northing of any latitude; the curve is odd in the latitude.
pub open spec fn spec_merc_y(lat: int) -> int {
    if lat >= 0 {
        spec_merc_y_nonneg(lat)
    } else {
        -spec_merc_y_nonneg(-lat)
    }
}

/// Cubing preserves order.
pub proof fn lemma_cube_monotone(a: int, b: int)
    requires
        a <= b,
    ensures
        cube(a) <= cube(b),
{
    assert(a * a * a <= b * b * b) by (nonlinear_arith)
        requires
            a <= b,
    ;
}

/// On nonnegative latitudes the cubic correction is nonnegative, so the
/// northing is at least the latitude itself.
pub proof fn lemma_merc_nonneg_at_least(lat: int)
    requires
        0 <= lat,
    ensures
        spec_merc_y_nonneg(lat) >= lat,
{
    assert(cube(lat) >= 0) by (nonlinear_arith)
        requires
            0 <= lat,
    ;
    lemma_div_is_ordered(0, cube(lat), MERC_CUBIC_DIVISOR as int);
}

/// The northing curve is strictly increasing on nonnegative latitudes.
pub proof fn lemma_merc_nonneg_strict(a: int, b: int)
    requires
        0 <= a < b,
    ensures
        spec_merc_y_nonneg(a) < spec_merc_y_nonneg(b),
{
    lemma_cube_monotone(a, b);
    lemma_div_is_ordered(cube(a), cube(b), MERC_CUBIC_DIVISOR as int);
}

/// The northing curve is strictly increasing everywhere.
pub proof fn lemma_merc_strictly_monotone(a: int, b: int)
    requires
        a < b,
    ensures
        spec_merc_y(a) < spec_merc_y(b),
{
    if 0 <= a {
        lemma_merc_nonneg_strict(a, b);
    } else if b < 0 {
        lemma_merc_nonneg_strict(-b, -a);
    } else {
        // a < 0 <= b: the curve is negative at a and nonnegative at b.
        lemma_merc_nonneg_strict(0, -a);
        lemma_merc_nonneg_at_least(b);
        assert(spec_merc_y_nonneg(0) == 0);
    }
}

/// The northing of a valid latitude stays within fixed bounds.
pub proof fn lemma_merc_bounded(lat: int)
    requires
        -(LAT_MAX as int) <= lat <= LAT_MAX as int,
    ensures
        -spec_merc_y_nonneg(LAT_MAX as int) <= spec_merc_y(lat) <= spec_merc_y_nonneg(
            LAT_MAX as int,
        ),
        spec_merc_y_nonneg(LAT_MAX as int) <= 140_000_000,
{
    if lat < LAT_MAX as int {
        lemma_merc_strictly_monotone(lat, LAT_MAX as int);
    }
    if -(LAT_MAX as int) < lat {
        lemma_merc_strictly_monotone(-(LAT_MAX as int), lat);
    }
    assert(cube(LAT_MAX as int) == 729_000_000_000_000_000_000_000int);
    assert(729_000_000_000_000_000_000_000int / (MERC_CUBIC_DIVISOR as int) < 50_000_000);
}

/// Northing of a nonnegative latitude.
fn merc_y_nonneg(lat: i64) -> (y: i64)
    requires
        0 <= lat <= LAT_MAX as int,
    ensures
        y == spec_merc_y_nonneg(lat as int),
{
    let l = lat as u128;
    proof {
        assert((l as int) * (l as int) <= 8_100_000_000_000_000int) by (nonlinear_arith)
            requires
                0 <= l as int <= 90_000_000,
        ;
        assert((l as int) * (l as int) * (l as int) <= 729_000_000_000_000_000_000_000int)
            by (nonlinear_arith)
            requires
                0 <= l as int <= 90_000_000,
        ;
    }
    let c = l * l * l;
    let q = c / (MERC_CUBIC_DIVISOR as u128);
    proof {
        assert(c == cube(lat as int));
        lemma_cube_monotone(lat as int, LAT_MAX as int);
        lemma_div_is_ordered(cube(lat as int), cube(LAT_MAX as int), MERC_CUBIC_DIVISOR as int);
        assert(cube(LAT_MAX as int) == 729_000_000_000_000_000_000_000int);
        assert(729_000_000_000_000_000_000_000int / (MERC_CUBIC_DIVISOR as int) < 50_000_000);
        assert(cube(lat as int) >= 0) by (nonlinear_arith)
            requires
                0 <= lat,
        ;
        lemma_div_is_ordered(0, cube(lat as int), MERC_CUBIC_DIVISOR as int);
    }
    lat + (q as i64)
}

/// Mercator northing of a latitude, in millionths of a degree.
pub fn merc_y(lat: i64) -> (y: i64)
    requires
        -(LAT_MAX as int) <= lat <= LAT_MAX as int,
    ensures
        y == spec_merc_y(lat as int),
{
    if lat >= 0 {
        merc_y_nonneg(lat)
    } else {
        let m = merc_y_nonneg(-lat);
        -m
    }
}

/// Inverse of the northing curve on nonnegative northings: the largest
/// latitude whose northing does not exceed `y`.
fn inv_merc_y_nonneg(y: i64) -> (lat: i64)
    requires
        0 <= y,
    ensures
        0 <= lat <= LAT_MAX as int,
        spec_merc_y_nonneg(lat as int) <= y as int,
        lat < LAT_MAX as int ==> (y as int) < spec_merc_y_nonneg(lat as int + 1),
{
    let mut lo: u64 = 0;
    let mut hi: u64 = LAT_MAX as u64;
    while lo < hi
        invariant
            0 <= lo <= hi <= LAT_MAX as int,
            spec_merc_y_nonneg(lo as int) <= y as int,
            hi < LAT_MAX as int ==> (y as int) < spec_merc_y_nonneg(hi as int + 1),
        decreases hi - lo,
    {
        let mid = lo + (hi - lo + 1) / 2;
        let m = merc_y_nonneg(mid as i64);
        if m <= y {
            lo = mid;
        } else {
            hi = mid - 1;
        }
    }
    lo as i64
}

/// Inverse of the northing curve. Whenever `y` is exactly the northing of a
/// valid latitude, that latitude is returned.
pub fn inv_merc_y(y: i64) -> (lat: i64)
    requires
        -spec_merc_y_nonneg(LAT_MAX as int) <= y as int <= spec_merc_y_nonneg(LAT_MAX as int),
    ensures
        -(LAT_MAX as int) <= lat <= LAT_MAX as int,
        forall|a: int|
            -(LAT_MAX as int) <= a <= LAT_MAX as int && #[trigger] spec_merc_y(a) == y as int
                ==> lat == a,
{
    proof {
        lemma_merc_nonneg_at_least(LAT_MAX as int);
    }
    let r: i64 = if y >= 0 {
        let lat = inv_merc_y_nonneg(y);
        proof {
            lemma_exact_preimage_nonneg(y as int, lat as int);
        }
        lat
    } else {
        let lat = inv_merc_y_nonneg(-y);
        proof {
            lemma_exact_preimage_nonneg(-(y as int), lat as int);
        }
        -lat
    };
    proof {
        assert forall|a: int|
            -(LAT_MAX as int) <= a <= LAT_MAX as int && #[trigger] spec_merc_y(a) == y as int
                implies r == a by {
            if y >= 0 {
                if a < 0 {
                    lemma_merc_strictly_monotone(a, 0);
                    assert(spec_merc_y(0) == 0);
                }
            } else {
                if -a < 0 {
                    lemma_merc_strictly_monotone(-a, 0);
                }
                assert(spec_merc_y(-a) == -(y as int));
            }
        }
    }
    r
}

/// If a nonnegative `y` is the northing of some valid latitude `a`, then any
/// latitude bracketing `y` as `inv_merc_y_nonneg` does equals `a`.
proof fn lemma_exact_preimage_nonneg(y: int, lat: int)
    requires
        0 <= y,
        0 <= lat <= LAT_MAX as int,
        spec_merc_y_nonneg(lat) <= y,
        lat < LAT_MAX as int ==> y < spec_merc_y_nonneg(lat + 1),
    ensures
        forall|a: int|
            0 <= a <= LAT_MAX as int && #[trigger] spec_merc_y_nonneg(a) == y ==> lat == a,
{
    assert forall|a: int| 0 <= a <= LAT_MAX as int && #[trigger] spec_merc_y_nonneg(a) == y
        implies lat == a by {
        if a < lat {
            lemma_merc_nonneg_strict(a, lat);
        } else if lat < a {
            if lat + 1 < a {
                lemma_merc_nonneg_strict(lat + 1, a);
            }
            assert(spec_merc_y_nonneg(lat + 1) <= y);
        }
    }
}

} // verus!
