//! Tile provider configuration and the tile URL template.
//!
//! A provider's URL template holds `{x}`, `{y}` and `{z}` placeholders; the
//! URL of one tile substitutes the tile's column, row and zoom in decimal.
//! The substitution works on the template's bytes; the host converts from
//! and to text at the edge.

use vstd::arithmetic::div_mod::{lemma_div_is_ordered_by_denominator, lemma_mod_bound};
use vstd::prelude::*;

use crate::download::HeaderValue;
use crate::tiles::TileId;

verus! {

/// The decimal digits of a number, most significant first, as bytes.
pub open spec fn spec_digits(n: nat) -> Seq<u8>
    decreases n,
{
    if n < 10 {
        seq![(n + 0x30) as u8]
    } else {
        spec_digits(n / 10).push((n % 10 + 0x30) as u8)
    }
}

/// The template with every `{x}`, `{y}` and `{z}` placeholder replaced by
/// the decimal column, row and zoom.
pub open spec fn spec_render(t: Seq<u8>, x: nat, y: nat, z: nat) -> Seq<u8>
    decreases t.len(),
{
    if t.len() == 0 {
        Seq::empty()
    } else if t.len() >= 3 && t[0] == 0x7bu8 && t[1] == 0x78u8 && t[2] == 0x7du8 {
        spec_digits(x) + spec_render(t.skip(3), x, y, z)
    } else if t.len() >= 3 && t[0] == 0x7bu8 && t[1] == 0x79u8 && t[2] == 0x7du8 {
        spec_digits(y) + spec_render(t.skip(3), x, y, z)
    } else if t.len() >= 3 && t[0] == 0x7bu8 && t[1] == 0x7au8 && t[2] == 0x7du8 {
        spec_digits(z) + spec_render(t.skip(3), x, y, z)
    } else {
        seq![t[0]] + spec_render(t.skip(1), x, y, z)
    }
}

/// The decimal digits of a number, as bytes.
fn digits_of(n: u32) -> (r: Vec<u8>)
    ensures
        r@ == spec_digits(n as nat),
    decreases n,
{
    if n < 10 {
        let mut out: Vec<u8> = Vec::new();
        out.push((n as u8) + 0x30);
        proof {
            assert(out@ =~= spec_digits(n as nat));
        }
        out
    } else {
        proof {
            lemma_div_is_ordered_by_denominator(n as int, 1, 10);
            assert((n as int) / 1 == n as int);
            lemma_mod_bound(n as int, 10);
        }
        let mut out = digits_of(n / 10);
        out.push(((n % 10) as u8) + 0x30);
        out
    }
}

/// Substitute a tile's column, row and zoom into a URL template's bytes.
pub fn render_template(template: &[u8], tile: TileId) -> (r: Vec<u8>)
    ensures
        r@ == spec_render(template@, tile.x as nat, tile.y as nat, tile.zoom as nat),
{
    let ghost t = template@;
    let ghost x = tile.x as nat;
    let ghost y = tile.y as nat;
    let ghost z = tile.zoom as nat;
    let mut out: Vec<u8> = Vec::new();
    let mut i: usize = 0;
    proof {
        assert(t.skip(0) =~= t);
        assert(out@ + spec_render(t, x, y, z) =~= spec_render(t, x, y, z));
    }
    while i < template.len()
        invariant
            0 <= i <= t.len(),
            t == template@,
            x == tile.x as nat,
            y == tile.y as nat,
            z == tile.zoom as nat,
            spec_render(t, x, y, z) == out@ + spec_render(t.skip(i as int), x, y, z),
        decreases t.len() - i,
    {
        let ghost rest = t.skip(i as int);
        let ghost before = out@;
        if template.len() - i >= 3 && template[i] == 0x7b && template[i + 2] == 0x7d && (
        template[i + 1] == 0x78 || template[i + 1] == 0x79 || template[i + 1] == 0x7a) {
            let value: u32 = if template[i + 1] == 0x78 {
                tile.x
            } else if template[i + 1] == 0x79 {
                tile.y
            } else {
                tile.zoom as u32
            };
            let mut digits = digits_of(value);
            out.append(&mut digits);
            proof {
                assert(rest.len() >= 3);
                assert(rest[0] == t[i as int] && rest[1] == t[i as int + 1] && rest[2] == t[
                    i as int + 2
                ]);
                assert(rest.skip(3) =~= t.skip(i as int + 3));
                if t[i as int + 1] == 0x78u8 {
                    assert(out@ =~= before + spec_digits(x));
                    assert(spec_render(rest, x, y, z) == spec_digits(x) + spec_render(
                        rest.skip(3),
                        x,
                        y,
                        z,
                    ));
                } else if t[i as int + 1] == 0x79u8 {
                    assert(out@ =~= before + spec_digits(y));
                    assert(spec_render(rest, x, y, z) == spec_digits(y) + spec_render(
                        rest.skip(3),
                        x,
                        y,
                        z,
                    ));
                } else {
                    assert(out@ =~= before + spec_digits(z));
                    assert(spec_render(rest, x, y, z) == spec_digits(z) + spec_render(
                        rest.skip(3),
                        x,
                        y,
                        z,
                    ));
                }
                assert(before + spec_render(rest, x, y, z) =~= out@ + spec_render(
                    t.skip(i as int + 3),
                    x,
                    y,
                    z,
                ));
            }
            i = i + 3;
        } else {
            out.push(template[i]);
            proof {
                assert(rest.len() >= 1);
                assert(rest[0] == t[i as int]);
                assert(rest.skip(1) =~= t.skip(i as int + 1));
                assert(spec_render(rest, x, y, z) == seq![rest[0]] + spec_render(
                    rest.skip(1),
                    x,
                    y,
                    z,
                ));
                assert(out@ =~= before + seq![rest[0]]);
                assert(before + spec_render(rest, x, y, z) =~= out@ + spec_render(
                    t.skip(i as int + 1),
                    x,
                    y,
                    z,
                ));
            }
            i = i + 1;
        }
    }
    proof {
        assert(t.skip(t.len() as int) =~= Seq::<u8>::empty());
        assert(out@ + spec_render(t.skip(i as int), x, y, z) =~= out@);
    }
    out
}

/// Attribution the provider asks to be displayed alongside its tiles.
#[derive(Clone, Debug)]
pub struct Attribution {
    pub text: String,
    pub url: String,
}

/// One tile provider: its name, the URL template its tiles are fetched
/// from, the zoom range it serves and its attribution.
#[derive(Clone, Debug)]
pub struct TileSource {
    pub name: String,
    /// URL template with column/row/zoom placeholders, substituted by the
    /// host when it performs the fetch.
    pub url_template: String,
    pub min_zoom: u8,
    pub max_zoom: u8,
    pub attribution: Attribution,
    /// Extra request headers, such as a user agent or attribution tokens,
    /// sent by the host with each tile fetch.
    pub headers: Vec<HeaderValue>,
}

impl TileSource {
    /// The zoom range is ordered and within what the projector arithmetic
    /// supports.
    pub open spec fn wf(self) -> bool {
        self.min_zoom <= self.max_zoom && self.max_zoom <= crate::projector::MAX_ZOOM_CAP
    }
}

} // verus!
