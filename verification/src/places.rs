//! Point markers and the screen-proximity clustering engine.
//!
//! Markers are partitioned into groups greedily, in marker-list order: a
//! marker joins the first group whose members all project within a fixed
//! pixel distance of it, and starts a new group otherwise. Below a zoom
//! threshold every visible marker collapses into one world-scale group, and a
//! lone marker is suppressed entirely. The partition is a pure function of
//! the marker list and the projector, so recomputing it never changes it.

use vstd::prelude::*;

use crate::position::{Position, LAT_MAX, LON_MAX};
use crate::projector::{
    lemma_project_bounds, spec_is_in_view, spec_project_x, spec_project_y, spec_within_distance,
    trunc_div, Projector, ScreenPoint, SUBPIXELS_PER_PIXEL,
};
use vstd::arithmetic::div_mod::{lemma_div_by_multiple, lemma_div_is_ordered};

verus! {

/// Zoom levels below this threshold show at most one world-scale group.
pub const WORLD_GROUP_ZOOM: u8 = 6;

/// Screen distance, in pixels, within which a marker joins an existing group.
pub const GROUP_DISTANCE_PIXELS: u32 = 50;

/// Side length, in pixels, of the hit rectangle around a group's glyph.
pub const GROUP_HIT_RECT_PIXELS: u32 = 50;

/// A labelled point marker supplied by the host application.
#[derive(Clone, Debug)]
pub struct Place {
    pub position: Position,
    pub label: String,
    /// Icon/style selector interpreted by the renderer.
    pub style: u32,
}

/// A group in the current partition: the indices of its members in the
/// marker list, its stable identifier, and the geographic centroid of its
/// members.
#[derive(Clone, Debug)]
pub struct Group {
    pub id: usize,
    pub members: Vec<usize>,
    pub center: Position,
}

/// One draw instruction produced for the render pass.
#[derive(Clone, Copy, PartialEq, Eq, Structural, Debug)]
pub enum DrawCommand {
    /// Draw the marker at this index of the marker list individually.
    Marker { index: usize },
    /// Draw one aggregate glyph for the group with this identifier, at the
    /// group's geographic centroid.
    Cluster { id: usize, center: Position, size: usize },
}

/// Every marker in the sequence has a valid position.
pub open spec fn places_valid(s: Seq<Place>) -> bool {
    forall|i: int| 0 <= i < s.len() ==> (#[trigger] s[i]).position.is_valid()
}

/// The positions of a sequence of markers.
pub open spec fn positions_of(places: Seq<Place>) -> Seq<Position> {
    places.map_values(|p: Place| p.position)
}

/// The member lists of a sequence of groups.
pub open spec fn groups_view(gs: Seq<Vec<usize>>) -> Seq<Seq<usize>> {
    gs.map_values(|g: Vec<usize>| g@)
}

/// Every member index points into a marker list of length `n`.
pub open spec fn wf_groups(groups: Seq<Seq<usize>>, n: nat) -> bool {
    forall|i: int, k: int|
        0 <= i < groups.len() && 0 <= k < groups[i].len() ==> #[trigger] groups[i][k] < n
}

/// Whether every member of a group projects within the grouping distance of
/// the candidate position.
pub open spec fn group_fits(g: Seq<usize>, pos: Seq<Position>, proj: Projector, p: Position) -> bool {
    forall|k: int|
        0 <= k < g.len() ==> spec_within_distance(
            proj,
            p,
            pos[#[trigger] g[k] as int],
            GROUP_DISTANCE_PIXELS as int,
        )
}

/// Index of the first group at or after `j` that fits the candidate, or the
/// number of groups when none does.
pub open spec fn spec_first_fitting(
    groups: Seq<Seq<usize>>,
    pos: Seq<Position>,
    proj: Projector,
    p: Position,
    j: nat,
) -> nat
    decreases groups.len() - j,
{
    if j >= groups.len() {
        groups.len()
    } else if group_fits(groups[j as int], pos, proj, p) {
        j
    } else {
        spec_first_fitting(groups, pos, proj, p, j + 1)
    }
}

/// The partition after considering marker `idx`, starting from `groups`.
pub open spec fn spec_step(
    groups: Seq<Seq<usize>>,
    pos: Seq<Position>,
    proj: Projector,
    idx: usize,
) -> Seq<Seq<usize>> {
    let p = pos[idx as int];
    if !spec_is_in_view(proj, p) {
        groups
    } else if (proj.zoom as int) < WORLD_GROUP_ZOOM as int {
        if groups.len() == 0 {
            seq![seq![idx]]
        } else {
            groups.update(0, groups[0].push(idx))
        }
    } else {
        let g = spec_first_fitting(groups, pos, proj, p, 0);
        if g < groups.len() {
            groups.update(g as int, groups[g as int].push(idx))
        } else {
            groups.push(seq![idx])
        }
    }
}

/// The partition after considering markers `i ..` starting from `acc`.
pub open spec fn spec_groups_loop(
    pos: Seq<Position>,
    proj: Projector,
    i: nat,
    acc: Seq<Seq<usize>>,
) -> Seq<Seq<usize>>
    decreases pos.len() - i,
{
    if i >= pos.len() {
        acc
    } else {
        spec_groups_loop(pos, proj, i + 1, spec_step(acc, pos, proj, i as usize))
    }
}

/// The partition the clustering engine produces for a marker list and a
/// projector. A lone marker is suppressed below the zoom threshold and shown
/// as a singleton group otherwise; longer lists are grouped greedily in list
/// order.
pub open spec fn spec_groups(pos: Seq<Position>, proj: Projector) -> Seq<Seq<usize>> {
    if pos.len() == 1 {
        if (proj.zoom as int) < WORLD_GROUP_ZOOM as int {
            Seq::empty()
        } else {
            seq![seq![0usize]]
        }
    } else {
        spec_groups_loop(pos, proj, 0, Seq::empty())
    }
}

/// Sum of the latitudes of a sequence of positions.
pub open spec fn spec_sum_lat(s: Seq<Position>) -> int
    decreases s.len(),
{
    if s.len() == 0 {
        0
    } else {
        spec_sum_lat(s.drop_last()) + s.last().lat
    }
}

/// Sum of the longitudes of a sequence of positions.
pub open spec fn spec_sum_lon(s: Seq<Position>) -> int
    decreases s.len(),
{
    if s.len() == 0 {
        0
    } else {
        spec_sum_lon(s.drop_last()) + s.last().lon
    }
}

/// The centroid of a sequence of positions: the arithmetic mean of the
/// coordinates, rounded towards zero; the origin for an empty sequence.
pub open spec fn spec_center(s: Seq<Position>) -> Position {
    if s.len() == 0 {
        Position { lat: 0, lon: 0 }
    } else {
        Position {
            lat: trunc_div(spec_sum_lat(s), s.len() as int) as i64,
            lon: trunc_div(spec_sum_lon(s), s.len() as int) as i64,
        }
    }
}

/// Truncating division of a signed 128-bit value by a positive divisor.
fn div_trunc_i128(a: i128, b: i128) -> (q: i128)
    requires
        1 <= b,
        -0x7fff_ffff_ffff_ffff_ffff_ffff_ffff_ffff <= a,
    ensures
        q == trunc_div(a as int, b as int),
{
    proof {
        if a >= 0 {
            vstd::arithmetic::div_mod::lemma_div_is_ordered_by_denominator(a as int, 1, b as int);
            assert((a as int) / 1 == a as int);
        } else {
            vstd::arithmetic::div_mod::lemma_div_is_ordered_by_denominator(
                -(a as int),
                1,
                b as int,
            );
            assert((-(a as int)) / 1 == -(a as int));
        }
    }
    if a >= 0 {
        ((a as u128) / (b as u128)) as i128
    } else {
        let m = ((-a) as u128) / (b as u128);
        -(m as i128)
    }
}

/// A truncated quotient of a sum of `n` bounded values is itself bounded.
proof fn lemma_trunc_div_mean_bound(sum: int, n: int, bound: int)
    requires
        1 <= n,
        0 <= bound,
        -n * bound <= sum <= n * bound,
    ensures
        -bound <= trunc_div(sum, n) <= bound,
{
    assert((-n) * bound == -(n * bound)) by (nonlinear_arith);
    if sum >= 0 {
        lemma_div_is_ordered(sum, n * bound, n);
        lemma_div_by_multiple(bound, n);
        assert(bound * n == n * bound) by (nonlinear_arith);
        lemma_div_is_ordered(0, sum, n);
    } else {
        lemma_div_is_ordered(-sum, n * bound, n);
        lemma_div_by_multiple(bound, n);
        assert(bound * n == n * bound) by (nonlinear_arith);
        lemma_div_is_ordered(0, -sum, n);
    }
}

/// The geographic centroid of a list of positions: the arithmetic mean of
/// the coordinates, or the origin when the list is empty. Computed in
/// geographic space so that it is stable across re-projections.
pub fn center(positions: &[Position]) -> (r: Position)
    requires
        forall|i: int| 0 <= i < positions@.len() ==> (#[trigger] positions@[i]).is_valid(),
    ensures
        r == spec_center(positions@),
        r.is_valid(),
{
    let n = positions.len();
    if n == 0 {
        return Position { lat: 0, lon: 0 };
    }
    let mut sum_lat: i128 = 0;
    let mut sum_lon: i128 = 0;
    let mut i: usize = 0;
    while i < n
        invariant
            0 <= i <= n,
            n == positions@.len(),
            forall|j: int| 0 <= j < positions@.len() ==> (#[trigger] positions@[j]).is_valid(),
            sum_lat == spec_sum_lat(positions@.take(i as int)),
            sum_lon == spec_sum_lon(positions@.take(i as int)),
            -(i as int) * (LAT_MAX as int) <= sum_lat <= (i as int) * (LAT_MAX as int),
            -(i as int) * (LON_MAX as int) <= sum_lon <= (i as int) * (LON_MAX as int),
        decreases n - i,
    {
        let p = positions[i];
        proof {
            assert(positions@.take(i as int + 1).drop_last() =~= positions@.take(i as int));
            assert(positions@.take(i as int + 1).last() == positions@[i as int]);
        }
        sum_lat = sum_lat + (p.lat as i128);
        sum_lon = sum_lon + (p.lon as i128);
        i = i + 1;
    }
    proof {
        assert(positions@.take(n as int) =~= positions@);
        lemma_trunc_div_mean_bound(sum_lat as int, n as int, LAT_MAX as int);
        lemma_trunc_div_mean_bound(sum_lon as int, n as int, LON_MAX as int);
    }
    let lat = div_trunc_i128(sum_lat, n as i128);
    let lon = div_trunc_i128(sum_lon, n as i128);
    Position { lat: lat as i64, lon: lon as i64 }
}

/// Whether a list of identifiers holds a given identifier.
fn contains_id(v: &Vec<usize>, id: usize) -> (r: bool)
    ensures
        r == v@.contains(id),
{
    let mut i: usize = 0;
    while i < v.len()
        invariant
            0 <= i <= v@.len(),
            forall|j: int| 0 <= j < i ==> v@[j] != id,
        decreases v@.len() - i,
    {
        if v[i] == id {
            assert(v@[i as int] == id);
            return true;
        }
        i = i + 1;
    }
    assert(!v@.contains(id));
    false
}

/// Whether every member of the group projects within the grouping distance
/// of the candidate position.
fn group_all_within(
    places: &Vec<Place>,
    g: &Vec<usize>,
    projector: &Projector,
    p: Position,
) -> (r: bool)
    requires
        projector.wf(),
        p.is_valid(),
        places_valid(places@),
        forall|k: int| 0 <= k < g@.len() ==> #[trigger] g@[k] < places@.len(),
    ensures
        r == group_fits(g@, positions_of(places@), *projector, p),
{
    let mut k: usize = 0;
    while k < g.len()
        invariant
            0 <= k <= g@.len(),
            projector.wf(),
            p.is_valid(),
            places_valid(places@),
            forall|j: int| 0 <= j < g@.len() ==> #[trigger] g@[j] < places@.len(),
            forall|j: int|
                0 <= j < k ==> spec_within_distance(
                    *projector,
                    p,
                    positions_of(places@)[#[trigger] g@[j] as int],
                    GROUP_DISTANCE_PIXELS as int,
                ),
        decreases g@.len() - k,
    {
        let member = g[k];
        let q = places[member].position;
        if !projector.within_distance(p, q, GROUP_DISTANCE_PIXELS) {
            assert(!group_fits(g@, positions_of(places@), *projector, p)) by {
                assert(positions_of(places@)[g@[k as int] as int] == q);
            }
            return false;
        }
        k = k + 1;
    }
    true
}

/// Index of the first group that fits the candidate, or the number of groups
/// when none does.
fn first_fitting(
    groups: &Vec<Vec<usize>>,
    places: &Vec<Place>,
    projector: &Projector,
    p: Position,
) -> (r: usize)
    requires
        projector.wf(),
        p.is_valid(),
        places_valid(places@),
        wf_groups(groups_view(groups@), places@.len() as nat),
    ensures
        r == spec_first_fitting(groups_view(groups@), positions_of(places@), *projector, p, 0),
        r <= groups@.len(),
{
    let ghost gv = groups_view(groups@);
    let ghost pos = positions_of(places@);
    let mut j: usize = 0;
    while j < groups.len()
        invariant
            0 <= j <= groups@.len(),
            projector.wf(),
            p.is_valid(),
            places_valid(places@),
            wf_groups(groups_view(groups@), places@.len() as nat),
            gv == groups_view(groups@),
            pos == positions_of(places@),
            spec_first_fitting(gv, pos, *projector, p, 0) == spec_first_fitting(
                gv,
                pos,
                *projector,
                p,
                j as nat,
            ),
        decreases groups@.len() - j,
    {
        let fits = group_all_within(places, &groups[j], projector, p);
        if fits {
            assert(spec_first_fitting(gv, pos, *projector, p, j as nat) == j as nat);
            return j;
        }
        proof {
            assert(spec_first_fitting(gv, pos, *projector, p, j as nat) == spec_first_fitting(
                gv,
                pos,
                *projector,
                p,
                j as nat + 1,
            ));
        }
        j = j + 1;
    }
    j
}

/// The positions of the members of one group.
pub open spec fn member_positions(places: Seq<Place>, g: Seq<usize>) -> Seq<Position> {
    g.map_values(|j: usize| places[j as int].position)
}

/// The draw instructions for one group: a single aggregate glyph while the
/// group is collapsed and has at least two members, its markers individually
/// otherwise.
pub open spec fn spec_group_commands(
    places: Seq<Place>,
    g: Seq<usize>,
    i: usize,
    expanded: Seq<usize>,
) -> Seq<DrawCommand> {
    if g.len() >= 2 && !expanded.contains(i) {
        seq![
            (DrawCommand::Cluster {
                id: i,
                center: spec_center(member_positions(places, g)),
                size: g.len() as usize,
            }),
        ]
    } else {
        Seq::new(g.len(), |k: int| DrawCommand::Marker { index: g[k] })
    }
}

/// The draw instructions for the groups from `i` on, in group order.
pub open spec fn spec_run(
    places: Seq<Place>,
    groups: Seq<Seq<usize>>,
    expanded: Seq<usize>,
    i: nat,
) -> Seq<DrawCommand>
    decreases groups.len() - i,
{
    if i >= groups.len() {
        Seq::empty()
    } else {
        spec_group_commands(places, groups[i as int], i as usize, expanded) + spec_run(
            places,
            groups,
            expanded,
            i + 1,
        )
    }
}

/// Collect the positions of one group's members.
fn collect_positions(places: &Vec<Place>, g: &Vec<usize>) -> (r: Vec<Position>)
    requires
        forall|k: int| 0 <= k < g@.len() ==> #[trigger] g@[k] < places@.len(),
    ensures
        r@ == member_positions(places@, g@),
{
    let mut out: Vec<Position> = Vec::new();
    let mut k: usize = 0;
    while k < g.len()
        invariant
            0 <= k <= g@.len(),
            forall|j: int| 0 <= j < g@.len() ==> #[trigger] g@[j] < places@.len(),
            out@ == member_positions(places@, g@.take(k as int)),
        decreases g@.len() - k,
    {
        out.push(places[g[k]].position);
        proof {
            assert(member_positions(places@, g@.take(k as int + 1)) =~= member_positions(
                places@,
                g@.take(k as int),
            ).push(places@[g@[k as int] as int].position));
        }
        k = k + 1;
    }
    proof {
        assert(g@.take(g@.len() as int) =~= g@);
    }
    out
}

/// A layer of markers drawn individually, with no grouping.
pub struct Places {
    pub places: Vec<Place>,
}

impl Places {
    /// Wrap a marker list into an ungrouped layer.
    pub fn new(places: Vec<Place>) -> (r: Places)
        ensures
            r.places == places,
    {
        Places { places }
    }

    /// Draw instructions for the layer: one individual marker per place, in
    /// list order.
    pub fn run(&self) -> (r: Vec<DrawCommand>)
        ensures
            r@.len() == self.places@.len(),
            forall|i: int| 0 <= i < r@.len() ==> r@[i] == (DrawCommand::Marker { index: i as usize }),
    {
        let mut out: Vec<DrawCommand> = Vec::new();
        let mut i: usize = 0;
        while i < self.places.len()
            invariant
                0 <= i <= self.places@.len(),
                out@.len() == i,
                forall|j: int|
                    0 <= j < i ==> out@[j] == (DrawCommand::Marker { index: j as usize }),
            decreases self.places@.len() - i,
        {
            out.push(DrawCommand::Marker { index: i });
            i = i + 1;
        }
        out
    }
}

/// Groups nearby markers and draws each group as one aggregate glyph until
/// it is expanded.
pub struct GroupedPlaces {
    pub places: Vec<Place>,
    /// The most recently computed partition, as member indices per group.
    pub current_groups_indexes: Vec<Vec<usize>>,
    /// Identifiers of the groups the user has expanded.
    pub expanded: Vec<usize>,
}

impl GroupedPlaces {
    /// Marker positions are valid, the stored partition points into the
    /// marker list, and the expanded set holds no duplicates.
    pub open spec fn wf(self) -> bool {
        &&& places_valid(self.places@)
        &&& wf_groups(groups_view(self.current_groups_indexes@), self.places@.len() as nat)
        &&& forall|i: int, j: int|
            0 <= i < j < self.expanded@.len() ==> self.expanded@[i] != self.expanded@[j]
    }

    /// Wrap a marker list into a clustering layer with no partition computed
    /// yet and nothing expanded.
    pub fn new(places: Vec<Place>) -> (r: GroupedPlaces)
        requires
            places_valid(places@),
        ensures
            r.places == places,
            r.current_groups_indexes@.len() == 0,
            r.expanded@.len() == 0,
            r.wf(),
    {
        GroupedPlaces { places, current_groups_indexes: Vec::new(), expanded: Vec::new() }
    }

    /// Group places that are close together on screen.
    ///
    /// The result is exactly the greedy, list-ordered partition described by
    /// `spec_groups`, so re-running it on the same marker list and projector
    /// always yields the identical partition.
    pub fn groups(&self, projector: &Projector) -> (r: Vec<Vec<usize>>)
        requires
            projector.wf(),
            self.wf(),
        ensures
            groups_view(r@) == spec_groups(positions_of(self.places@), *projector),
            wf_groups(groups_view(r@), self.places@.len() as nat),
    {
        let ghost pos = positions_of(self.places@);
        let mut result: Vec<Vec<usize>> = Vec::new();

        if self.places.len() == 1 {
            if projector.zoom < WORLD_GROUP_ZOOM {
                assert(groups_view(result@) =~= Seq::<Seq<usize>>::empty());
            } else {
                let mut g: Vec<usize> = Vec::new();
                g.push(0);
                result.push(g);
                assert(groups_view(result@) =~~= seq![seq![0usize]]);
            }
            return result;
        }

        proof {
            assert(groups_view(result@) =~= Seq::<Seq<usize>>::empty());
        }
        let mut idx: usize = 0;
        while idx < self.places.len()
            invariant
                0 <= idx <= self.places@.len(),
                projector.wf(),
                self.wf(),
                pos == positions_of(self.places@),
                wf_groups(groups_view(result@), self.places@.len() as nat),
                spec_groups_loop(pos, *projector, 0, Seq::empty()) == spec_groups_loop(
                    pos,
                    *projector,
                    idx as nat,
                    groups_view(result@),
                ),
            decreases self.places@.len() - idx,
        {
            let ghost before = groups_view(result@);
            let p = self.places[idx].position;
            assert(pos[idx as int] == p);
            if projector.is_in_view(p) {
                if projector.zoom < WORLD_GROUP_ZOOM {
                    if result.len() == 0 {
                        let mut g: Vec<usize> = Vec::new();
                        g.push(idx);
                        result.push(g);
                        proof {
                            assert(groups_view(result@) =~~= seq![seq![idx]]);
                        }
                    } else {
                        result[0].push(idx);
                        proof {
                            assert(groups_view(result@) =~~= before.update(
                                0,
                                before[0].push(idx),
                            ));
                        }
                    }
                } else {
                    let g = first_fitting(&result, &self.places, projector, p);
                    if g < result.len() {
                        result[g].push(idx);
                        proof {
                            assert(groups_view(result@) =~~= before.update(
                                g as int,
                                before[g as int].push(idx),
                            ));
                        }
                    } else {
                        let mut ng: Vec<usize> = Vec::new();
                        ng.push(idx);
                        result.push(ng);
                        proof {
                            assert(groups_view(result@) =~~= before.push(seq![idx]));
                        }
                    }
                }
            }
            proof {
                assert(groups_view(result@) == spec_step(before, pos, *projector, idx));
            }
            idx = idx + 1;
        }
        result
    }

    /// Recompute the partition off the render thread and publish it.
    pub fn parallel_run(&mut self, projector: &Projector)
        requires
            projector.wf(),
            old(self).wf(),
        ensures
            final(self).places == old(self).places,
            final(self).expanded == old(self).expanded,
            groups_view(final(self).current_groups_indexes@) == spec_groups(
                positions_of(old(self).places@),
                *projector,
            ),
            final(self).wf(),
    {
        let groups = self.groups(projector);
        self.current_groups_indexes = groups;
    }

    /// The clustering computation may run off the render thread.
    pub fn is_parallel(&self) -> (r: bool)
        ensures
            r,
    {
        true
    }

    /// Whether the group with this identifier is currently expanded.
    pub fn is_expanded(&self, id: usize) -> (r: bool)
        ensures
            r == self.expanded@.contains(id),
    {
        contains_id(&self.expanded, id)
    }

    /// Handle one interaction with a group's glyph. Returns whether the
    /// group renders expanded this frame; a click toggles the flag for the
    /// following frames, leaving every other group untouched.
    pub fn interact(&mut self, id: usize, clicked: bool) -> (expand: bool)
        requires
            old(self).wf(),
        ensures
            final(self).wf(),
            expand == old(self).expanded@.contains(id),
            final(self).places == old(self).places,
            final(self).current_groups_indexes == old(self).current_groups_indexes,
            !clicked ==> final(self).expanded == old(self).expanded,
            clicked ==> final(self).expanded@.contains(id) == !expand,
            clicked ==> forall|other: usize|
                other != id ==> final(self).expanded@.contains(other) == old(
                    self,
                ).expanded@.contains(other),
    {
        let was = contains_id(&self.expanded, id);
        if clicked {
            if was {
                let mut i: usize = 0;
                let mut found: usize = 0;
                let mut have: bool = false;
                while i < self.expanded.len()
                    invariant
                        0 <= i <= self.expanded@.len(),
                        have ==> 0 <= found < self.expanded@.len() && self.expanded@[found as int]
                            == id,
                        !have ==> forall|j: int| 0 <= j < i ==> self.expanded@[j] != id,
                    ensures
                        have ==> 0 <= found < self.expanded@.len() && self.expanded@[found as int]
                            == id,
                        !have ==> forall|j: int|
                            0 <= j < self.expanded@.len() ==> self.expanded@[j] != id,
                    decreases self.expanded@.len() - i,
                {
                    if self.expanded[i] == id {
                        found = i;
                        have = true;
                        break ;
                    }
                    i = i + 1;
                }
                proof {
                    if !have {
                        assert(!self.expanded@.contains(id));
                    }
                }
                assert(have);
                let ghost old_exp = self.expanded@;
                self.expanded.remove(found);
                proof {
                    assert(!self.expanded@.contains(id)) by {
                        assert forall|j: int| 0 <= j < self.expanded@.len() implies self.expanded@[j]
                            != id by {
                            if j < found {
                                assert(self.expanded@[j] == old_exp[j]);
                            } else {
                                assert(self.expanded@[j] == old_exp[j + 1]);
                            }
                        }
                    }
                    assert forall|other: usize| other != id implies self.expanded@.contains(other)
                        == old_exp.contains(other) by {
                        if old_exp.contains(other) {
                            let w = choose|w: int| 0 <= w < old_exp.len() && old_exp[w] == other;
                            if w < found {
                                assert(self.expanded@[w] == other);
                            } else {
                                assert(w != found);
                                assert(self.expanded@[w - 1] == other);
                            }
                            assert(self.expanded@.contains(other));
                        }
                        if self.expanded@.contains(other) {
                            let w = choose|w: int|
                                0 <= w < self.expanded@.len() && self.expanded@[w] == other;
                            if w < found {
                                assert(old_exp[w] == other);
                            } else {
                                assert(old_exp[w + 1] == other);
                            }
                            assert(old_exp.contains(other));
                        }
                    }
                }
            } else {
                let ghost old_exp = self.expanded@;
                self.expanded.push(id);
                proof {
                    assert(self.expanded@[self.expanded@.len() - 1] == id);
                    assert(self.expanded@.contains(id));
                    assert forall|other: usize| other != id implies self.expanded@.contains(other)
                        == old_exp.contains(other) by {
                        if old_exp.contains(other) {
                            let w = choose|w: int| 0 <= w < old_exp.len() && old_exp[w] == other;
                            assert(self.expanded@[w] == other);
                        }
                        if self.expanded@.contains(other) {
                            let w = choose|w: int|
                                0 <= w < self.expanded@.len() && self.expanded@[w] == other;
                            assert(w < old_exp.len());
                            assert(old_exp[w] == other);
                        }
                    }
                }
            }
        }
        was
    }

    /// Handle a click at a screen position: the first group whose glyph hit
    /// rectangle contains the click has its expand/collapse flag toggled,
    /// and its identifier is returned; a click that hits no glyph changes
    /// nothing.
    pub fn click(&mut self, projector: &Projector, click_at: ScreenPoint) -> (r: Option<usize>)
        requires
            old(self).wf(),
            projector.wf(),
            -10_000_000_000_000_000 <= click_at.x <= 10_000_000_000_000_000,
            -10_000_000_000_000_000 <= click_at.y <= 10_000_000_000_000_000,
        ensures
            final(self).wf(),
            final(self).places == old(self).places,
            final(self).current_groups_indexes == old(self).current_groups_indexes,
            match r {
                Some(i) => {
                    &&& i as nat == spec_first_hit(
                        old(self).places@,
                        groups_view(old(self).current_groups_indexes@),
                        *projector,
                        click_at,
                        0,
                    )
                    &&& i < old(self).current_groups_indexes@.len()
                    &&& final(self).expanded@.contains(i) == !old(self).expanded@.contains(i)
                    &&& forall|other: usize|
                        other != i ==> final(self).expanded@.contains(other) == old(
                            self,
                        ).expanded@.contains(other)
                },
                None => {
                    &&& *final(self) == *old(self)
                    &&& spec_first_hit(
                        old(self).places@,
                        groups_view(old(self).current_groups_indexes@),
                        *projector,
                        click_at,
                        0,
                    ) == old(self).current_groups_indexes@.len()
                },
            },
    {
        let ghost gv = groups_view(self.current_groups_indexes@);
        let mut hit: Option<usize> = None;
        let mut i: usize = 0;
        while i < self.current_groups_indexes.len()
            invariant_except_break
                hit is None,
                spec_first_hit(self.places@, gv, *projector, click_at, 0) == spec_first_hit(
                    self.places@,
                    gv,
                    *projector,
                    click_at,
                    i as nat,
                ),
            invariant
                0 <= i <= self.current_groups_indexes@.len(),
                self.wf(),
                projector.wf(),
                -10_000_000_000_000_000 <= click_at.x <= 10_000_000_000_000_000,
                -10_000_000_000_000_000 <= click_at.y <= 10_000_000_000_000_000,
                gv == groups_view(self.current_groups_indexes@),
            ensures
                0 <= i <= self.current_groups_indexes@.len(),
                match hit {
                    Some(h) => h as nat == spec_first_hit(
                        self.places@,
                        gv,
                        *projector,
                        click_at,
                        0,
                    ) && h < self.current_groups_indexes@.len(),
                    None => spec_first_hit(self.places@, gv, *projector, click_at, 0)
                        == gv.len(),
                },
            decreases self.current_groups_indexes@.len() - i,
        {
            let g = &self.current_groups_indexes[i];
            proof {
                assert forall|k: int| 0 <= k < g@.len() implies #[trigger] g@[k]
                    < self.places@.len() by {
                    assert(groups_view(self.current_groups_indexes@)[i as int][k] == g@[k]);
                }
            }
            let mpos = collect_positions(&self.places, g);
            proof {
                assert forall|j: int| 0 <= j < mpos@.len() implies (
                #[trigger] mpos@[j]).is_valid() by {
                    assert(mpos@[j] == self.places@[g@[j] as int].position);
                }
            }
            let c = center(mpos.as_slice());
            let glyph = projector.project(c);
            proof {
                lemma_project_bounds(*projector, c);
                assert(glyph == spec_glyph_at(*projector, c));
            }
            if hit_test(glyph, click_at) {
                hit = Some(i);
                proof {
                    assert(spec_group_glyph_hit(self.places@, gv[i as int], *projector, click_at));
                    assert(spec_first_hit(self.places@, gv, *projector, click_at, i as nat)
                        == i as nat);
                }
                break ;
            }
            proof {
                assert(!spec_group_glyph_hit(self.places@, gv[i as int], *projector, click_at));
                assert(spec_first_hit(self.places@, gv, *projector, click_at, i as nat)
                    == spec_first_hit(self.places@, gv, *projector, click_at, i as nat + 1));
            }
            i = i + 1;
        }
        match hit {
            Some(h) => {
                self.interact(h, true);
                Some(h)
            },
            None => None,
        }
    }

    /// The group record for one entry of the current partition: its stable
    /// identifier, its member indices and the geographic centroid of its
    /// members.
    pub fn group_record(&self, i: usize) -> (r: Group)
        requires
            self.wf(),
            i < self.current_groups_indexes@.len(),
        ensures
            r.id == i,
            r.members@ == groups_view(self.current_groups_indexes@)[i as int],
            r.center == spec_center(
                member_positions(self.places@, groups_view(self.current_groups_indexes@)[i as int]),
            ),
            r.center.is_valid(),
    {
        let g = &self.current_groups_indexes[i];
        proof {
            assert forall|k: int| 0 <= k < g@.len() implies #[trigger] g@[k]
                < self.places@.len() by {
                assert(groups_view(self.current_groups_indexes@)[i as int][k] == g@[k]);
            }
        }
        let mpos = collect_positions(&self.places, g);
        proof {
            assert forall|j: int| 0 <= j < mpos@.len() implies (#[trigger] mpos@[j]).is_valid() by {
                assert(mpos@[j] == self.places@[g@[j] as int].position);
            }
        }
        let c = center(mpos.as_slice());
        let members = collect_indices(g);
        Group { id: i, members, center: c }
    }

    /// Draw instructions for the current partition: collapsed groups of two
    /// or more members render as one aggregate glyph at their centroid,
    /// expanded or small groups render their markers individually.
    pub fn run(&self) -> (r: Vec<DrawCommand>)
        requires
            self.wf(),
        ensures
            r@ == spec_run(
                self.places@,
                groups_view(self.current_groups_indexes@),
                self.expanded@,
                0,
            ),
    {
        let ghost gv = groups_view(self.current_groups_indexes@);
        let mut out: Vec<DrawCommand> = Vec::new();
        let mut i: usize = 0;
        proof {
            assert(out@ + spec_run(self.places@, gv, self.expanded@, 0) =~= spec_run(
                self.places@,
                gv,
                self.expanded@,
                0,
            ));
        }
        while i < self.current_groups_indexes.len()
            invariant
                0 <= i <= self.current_groups_indexes@.len(),
                self.wf(),
                gv == groups_view(self.current_groups_indexes@),
                spec_run(self.places@, gv, self.expanded@, 0) == out@ + spec_run(
                    self.places@,
                    gv,
                    self.expanded@,
                    i as nat,
                ),
            decreases self.current_groups_indexes@.len() - i,
        {
            let ghost base = out@;
            let ghost cmds = spec_group_commands(self.places@, gv[i as int], i, self.expanded@);
            let g = &self.current_groups_indexes[i];
            proof {
                assert forall|k: int| 0 <= k < g@.len() implies #[trigger] g@[k]
                    < self.places@.len() by {
                    assert(groups_view(self.current_groups_indexes@)[i as int][k] == g@[k]);
                }
            }
            if g.len() >= 2 && !contains_id(&self.expanded, i) {
                let mpos = collect_positions(&self.places, g);
                proof {
                    assert forall|j: int| 0 <= j < mpos@.len() implies (
                    #[trigger] mpos@[j]).is_valid() by {
                        assert(mpos@[j] == self.places@[g@[j] as int].position);
                    }
                }
                let c = center(mpos.as_slice());
                out.push(DrawCommand::Cluster { id: i, center: c, size: g.len() });
                proof {
                    assert(out@ =~= base + cmds);
                }
            } else {
                let mut k: usize = 0;
                while k < g.len()
                    invariant
                        0 <= k <= g@.len(),
                        g@ == gv[i as int],
                        0 <= i < gv.len(),
                        cmds == spec_group_commands(self.places@, gv[i as int], i, self.expanded@),
                        !(g@.len() >= 2 && !self.expanded@.contains(i)),
                        out@ =~= base + Seq::new(
                            k as nat,
                            |j: int| DrawCommand::Marker { index: g@[j] },
                        ),
                    decreases g@.len() - k,
                {
                    out.push(DrawCommand::Marker { index: g[k] });
                    proof {
                        assert(out@ =~= base + Seq::new(
                            k as nat + 1,
                            |j: int| DrawCommand::Marker { index: g@[j] },
                        ));
                    }
                    k = k + 1;
                }
                proof {
                    assert(out@ =~= base + cmds);
                }
            }
            proof {
                assert(spec_run(self.places@, gv, self.expanded@, i as nat) == cmds + spec_run(
                    self.places@,
                    gv,
                    self.expanded@,
                    i as nat + 1,
                ));
                assert(base + (cmds + spec_run(self.places@, gv, self.expanded@, i as nat + 1))
                    =~= (base + cmds) + spec_run(self.places@, gv, self.expanded@, i as nat + 1));
            }
            i = i + 1;
        }
        proof {
            assert(out@ + spec_run(self.places@, gv, self.expanded@, i as nat) =~= out@);
        }
        out
    }
}

/// Copy a list of member indices.
fn collect_indices(g: &Vec<usize>) -> (r: Vec<usize>)
    ensures
        r@ == g@,
{
    let mut out: Vec<usize> = Vec::new();
    let mut k: usize = 0;
    while k < g.len()
        invariant
            0 <= k <= g@.len(),
            out@ == g@.take(k as int),
        decreases g@.len() - k,
    {
        out.push(g[k]);
        proof {
            assert(g@.take(k as int + 1) =~= g@.take(k as int).push(g@[k as int]));
        }
        k = k + 1;
    }
    proof {
        assert(g@.take(g@.len() as int) =~= g@);
    }
    out
}

/// The screen point a group glyph is drawn at: the projection of the
/// group's geographic centroid.
pub open spec fn spec_glyph_at(proj: Projector, c: Position) -> ScreenPoint {
    ScreenPoint { x: spec_project_x(proj, c) as i64, y: spec_project_y(proj, c) as i64 }
}

/// Whether a click hits the glyph of one group of the partition.
pub open spec fn spec_group_glyph_hit(
    places: Seq<Place>,
    g: Seq<usize>,
    proj: Projector,
    click: ScreenPoint,
) -> bool {
    spec_hit(spec_glyph_at(proj, spec_center(member_positions(places, g))), click)
}

/// Index of the first group whose glyph the click hits, at or after `j`, or
/// the group count when it hits none.
pub open spec fn spec_first_hit(
    places: Seq<Place>,
    groups: Seq<Seq<usize>>,
    proj: Projector,
    click: ScreenPoint,
    j: nat,
) -> nat
    decreases groups.len() - j,
{
    if j >= groups.len() {
        groups.len()
    } else if spec_group_glyph_hit(places, groups[j as int], proj, click) {
        j
    } else {
        spec_first_hit(places, groups, proj, click, j + 1)
    }
}

/// Whether a click lands within the hit rectangle of a group glyph.
pub open spec fn spec_hit(glyph: ScreenPoint, click: ScreenPoint) -> bool {
    let half = (GROUP_HIT_RECT_PIXELS as int / 2) * (SUBPIXELS_PER_PIXEL as int);
    &&& -half <= glyph.x - click.x <= half
    &&& -half <= glyph.y - click.y <= half
}

/// Whether a click lands within the hit rectangle centred on a group's
/// projected glyph position.
pub fn hit_test(glyph: ScreenPoint, click: ScreenPoint) -> (r: bool)
    requires
        -10_000_000_000_000_000 <= glyph.x <= 10_000_000_000_000_000,
        -10_000_000_000_000_000 <= glyph.y <= 10_000_000_000_000_000,
        -10_000_000_000_000_000 <= click.x <= 10_000_000_000_000_000,
        -10_000_000_000_000_000 <= click.y <= 10_000_000_000_000_000,
    ensures
        r == spec_hit(glyph, click),
{
    let half = (GROUP_HIT_RECT_PIXELS as i64 / 2) * SUBPIXELS_PER_PIXEL;
    let dx = glyph.x - click.x;
    let dy = glyph.y - click.y;
    -half <= dx && dx <= half && -half <= dy && dy <= half
}

/// A lone marker is suppressed entirely below the world-scale zoom
/// threshold, and shown as exactly one singleton group at or above it.
pub proof fn lemma_single_marker_threshold(pos: Seq<Position>, proj: Projector)
    requires
        pos.len() == 1,
    ensures
        (proj.zoom as int) < WORLD_GROUP_ZOOM as int ==> spec_groups(pos, proj) == Seq::<
            Seq<usize>,
        >::empty(),
        (proj.zoom as int) >= WORLD_GROUP_ZOOM as int ==> spec_groups(pos, proj) == seq![
            seq![0usize],
        ],
{
}

/// Whether an index is a member of some group of the partition.
pub open spec fn in_some_group(groups: Seq<Seq<usize>>, idx: usize) -> bool {
    exists|i: int, k: int|
        0 <= i < groups.len() && 0 <= k < groups[i].len() && #[trigger] groups[i][k] == idx
}

/// Membership invariant carried through the greedy loop: every member of
/// the partition so far is a visible marker with index below `i`, and every
/// visible marker with index below `i` is a member.
proof fn lemma_groups_loop_members(pos: Seq<Position>, proj: Projector, i: nat, acc: Seq<Seq<usize>>)
    requires
        i <= pos.len(),
        pos.len() <= usize::MAX,
        forall|a: int, k: int|
            0 <= a < acc.len() && 0 <= k < acc[a].len() ==> #[trigger] acc[a][k] < i
                && spec_is_in_view(proj, pos[acc[a][k] as int]),
        forall|idx: usize|
            idx < i && spec_is_in_view(proj, pos[idx as int]) ==> in_some_group(acc, idx),
    ensures
        forall|a: int, k: int|
            0 <= a < spec_groups_loop(pos, proj, i, acc).len() && 0 <= k < spec_groups_loop(
                pos,
                proj,
                i,
                acc,
            )[a].len() ==> #[trigger] spec_groups_loop(pos, proj, i, acc)[a][k] < pos.len()
                && spec_is_in_view(proj, pos[spec_groups_loop(pos, proj, i, acc)[a][k] as int]),
        forall|idx: usize|
            idx < pos.len() && spec_is_in_view(proj, pos[idx as int]) ==> in_some_group(
                spec_groups_loop(pos, proj, i, acc),
                idx,
            ),
    decreases pos.len() - i,
{
    if i < pos.len() {
        let stepped = spec_step(acc, pos, proj, i as usize);
        assert forall|a: int, k: int|
            0 <= a < stepped.len() && 0 <= k < stepped[a].len() implies #[trigger] stepped[a][k]
            < i + 1 && spec_is_in_view(proj, pos[stepped[a][k] as int]) by {
            if spec_is_in_view(proj, pos[i as int]) {
                if (proj.zoom as int) < WORLD_GROUP_ZOOM as int {
                    if acc.len() == 0 {
                        assert(stepped[a][k] == i as usize);
                    } else {
                        if a == 0 && k == stepped[0].len() - 1 {
                            assert(stepped[a][k] == i as usize);
                        } else {
                            assert(stepped[a][k] == acc[a][k]);
                        }
                    }
                } else {
                    let g = spec_first_fitting(acc, pos, proj, pos[i as int], 0) as int;
                    if g < acc.len() {
                        if a == g && k == stepped[g].len() - 1 {
                            assert(stepped[a][k] == i as usize);
                        } else {
                            assert(stepped[a][k] == acc[a][k]);
                        }
                    } else {
                        if a == stepped.len() - 1 {
                            assert(stepped[a][k] == i as usize);
                        } else {
                            assert(stepped[a][k] == acc[a][k]);
                        }
                    }
                }
            } else {
                assert(stepped[a][k] == acc[a][k]);
            }
        }
        assert forall|idx: usize|
            idx < i + 1 && spec_is_in_view(proj, pos[idx as int]) implies in_some_group(
            stepped,
            idx,
        ) by {
            if idx < i {
                assert(in_some_group(acc, idx));
                let (a, k): (int, int) = choose|a: int, k: int|
                    0 <= a < acc.len() && 0 <= k < acc[a].len() && #[trigger] acc[a][k] == idx;
                assert(acc[a][k] == idx);
                assert(stepped[a].len() >= acc[a].len());
                assert(stepped[a][k] == idx);
            } else {
                if (proj.zoom as int) < WORLD_GROUP_ZOOM as int {
                    if acc.len() == 0 {
                        assert(stepped[0][0] == idx);
                    } else {
                        assert(stepped[0][stepped[0].len() - 1] == idx);
                    }
                } else {
                    let g = spec_first_fitting(acc, pos, proj, pos[i as int], 0) as int;
                    if g < acc.len() {
                        assert(stepped[g][stepped[g].len() - 1] == idx);
                    } else {
                        assert(stepped[stepped.len() - 1][0] == idx);
                    }
                }
            }
        }
        lemma_groups_loop_members(pos, proj, i + 1, stepped);
        assert(spec_groups_loop(pos, proj, i, acc) == spec_groups_loop(pos, proj, i + 1, stepped));
    } else {
        assert(spec_groups_loop(pos, proj, i, acc) == acc);
        assert forall|a: int, k: int|
            0 <= a < spec_groups_loop(pos, proj, i, acc).len() && 0 <= k < spec_groups_loop(
                pos,
                proj,
                i,
                acc,
            )[a].len() implies #[trigger] spec_groups_loop(pos, proj, i, acc)[a][k] < pos.len()
            && spec_is_in_view(proj, pos[spec_groups_loop(pos, proj, i, acc)[a][k] as int]) by {
            assert(spec_groups_loop(pos, proj, i, acc)[a] == acc[a]);
            assert(acc[a][k] < i && spec_is_in_view(proj, pos[acc[a][k] as int]));
        }
    }
}

/// The partition holds exactly the visible markers: every member of every
/// group is a marker index whose position is in view, and every marker in
/// view belongs to some group. A lone marker below the world-scale zoom
/// threshold is the one exception: it is suppressed entirely.
pub proof fn lemma_groups_cover_visible(pos: Seq<Position>, proj: Projector)
    requires
        pos.len() != 1,
        pos.len() <= usize::MAX,
    ensures
        forall|a: int, k: int|
            0 <= a < spec_groups(pos, proj).len() && 0 <= k < spec_groups(pos, proj)[a].len()
                ==> #[trigger] spec_groups(pos, proj)[a][k] < pos.len() && spec_is_in_view(
                proj,
                pos[spec_groups(pos, proj)[a][k] as int],
            ),
        forall|idx: usize|
            idx < pos.len() && spec_is_in_view(proj, pos[idx as int]) ==> in_some_group(
                spec_groups(pos, proj),
                idx,
            ),
{
    lemma_groups_loop_members(pos, proj, 0, Seq::empty());
}

/// Grouping is deterministic: any two partitions produced for the same
/// marker positions and the same projector are identical, so re-running the
/// grouping algorithm never changes the partition.
pub proof fn lemma_groups_idempotent(
    pos: Seq<Position>,
    proj: Projector,
    r1: Seq<Seq<usize>>,
    r2: Seq<Seq<usize>>,
)
    requires
        r1 == spec_groups(pos, proj),
        r2 == spec_groups(pos, proj),
    ensures
        r1 == r2,
{
}

} // verus!
