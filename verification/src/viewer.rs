//! Viewer-level state: the provider list, the shared map state, and the
//! construction of marker layers from the host's point-of-interest records.

use vstd::prelude::*;

use crate::http_tiles::HttpTiles;
use crate::memory::MapMemory;
use crate::places::{places_valid, GroupedPlaces, Place};
use crate::sources::TileSource;

verus! {

/// Map state of the viewer: the configured providers, each owning its own
/// tile cache, the selected provider, and the pan/zoom state.
pub struct ViewerMapInfo {
    pub providers: Vec<(TileSource, HttpTiles)>,
    pub selected_provider: usize,
    pub map_memory: MapMemory,
    pub zoom_with_ctrl_wheel: bool,
}

impl ViewerMapInfo {
    /// At least one provider, a valid selection, well-formed caches and
    /// well-formed map state.
    pub open spec fn wf(self) -> bool {
        &&& self.providers@.len() >= 1
        &&& self.selected_provider < self.providers@.len()
        &&& forall|i: int|
            0 <= i < self.providers@.len() ==> (#[trigger] self.providers@[i]).0.wf()
                && self.providers@[i].1.wf()
        &&& self.map_memory.wf()
    }

    /// Start with the given providers: the first is selected, the map
    /// follows the position feed at the default zoom, and the modifier-key
    /// zoom toggle is off.
    pub fn new(providers: Vec<(TileSource, HttpTiles)>) -> (r: ViewerMapInfo)
        requires
            providers@.len() >= 1,
            forall|i: int|
                0 <= i < providers@.len() ==> (#[trigger] providers@[i]).0.wf()
                    && providers@[i].1.wf(),
        ensures
            r.providers == providers,
            r.selected_provider == 0,
            r.map_memory == (MapMemory {
                zoom: crate::zoom::DEFAULT_ZOOM,
                min_zoom: crate::zoom::DEFAULT_MIN_ZOOM,
                max_zoom: crate::zoom::DEFAULT_MAX_ZOOM,
                center_mode: crate::memory::CenterMode::Following,
            }),
            !r.zoom_with_ctrl_wheel,
            r.wf(),
    {
        ViewerMapInfo {
            providers,
            selected_provider: 0,
            map_memory: MapMemory::default(),
            zoom_with_ctrl_wheel: false,
        }
    }
}

/// The partition view: country names and member lists as sequences.
pub open spec fn pview(acc: Seq<(String, Vec<Place>)>) -> Seq<(Seq<char>, Seq<Place>)> {
    acc.map_values(|e: (String, Vec<Place>)| (e.0@, e.1@))
}

/// The item view: country names as sequences.
pub open spec fn iview(items: Seq<(String, Place)>) -> Seq<(Seq<char>, Place)> {
    items.map_values(|e: (String, Place)| (e.0@, e.1))
}

/// Index of the first group with this country, or the group count.
pub open spec fn pb_first(acc: Seq<(Seq<char>, Seq<Place>)>, country: Seq<char>, j: nat) -> nat
    decreases acc.len() - j,
{
    if j >= acc.len() {
        acc.len()
    } else if acc[j as int].0 == country {
        j
    } else {
        pb_first(acc, country, j + 1)
    }
}

/// The partition after filing one record under its country.
pub open spec fn pb_step(
    acc: Seq<(Seq<char>, Seq<Place>)>,
    country: Seq<char>,
    p: Place,
) -> Seq<(Seq<char>, Seq<Place>)> {
    let w = pb_first(acc, country, 0);
    if w < acc.len() {
        acc.update(w as int, (acc[w as int].0, acc[w as int].1.push(p)))
    } else {
        acc.push((country, seq![p]))
    }
}

/// The partition after filing the records from `i` on, starting from `acc`.
pub open spec fn pb_loop(
    items: Seq<(Seq<char>, Place)>,
    i: nat,
    acc: Seq<(Seq<char>, Seq<Place>)>,
) -> Seq<(Seq<char>, Seq<Place>)>
    decreases items.len() - i,
{
    if i >= items.len() {
        acc
    } else {
        pb_loop(items, i + 1, pb_step(acc, items[i as int].0, items[i as int].1))
    }
}

/// The partition of a record list by country: one group per country, in
/// order of first appearance, each group in record order.
pub open spec fn spec_partition(items: Seq<(Seq<char>, Place)>) -> Seq<(Seq<char>, Seq<Place>)> {
    pb_loop(items, 0, Seq::empty())
}

/// Index of the first group whose country matches.
fn pb_find(acc: &Vec<(String, Vec<Place>)>, country: &String) -> (r: usize)
    ensures
        r == pb_first(pview(acc@), country@, 0),
        r <= acc@.len(),
{
    let ghost av = pview(acc@);
    let mut j: usize = 0;
    while j < acc.len()
        invariant
            0 <= j <= acc@.len(),
            av == pview(acc@),
            pb_first(av, country@, 0) == pb_first(av, country@, j as nat),
        decreases acc@.len() - j,
    {
        if acc[j].0 == *country {
            assert(pb_first(av, country@, j as nat) == j as nat);
            return j;
        }
        proof {
            assert(av[j as int].0 != country@);
            assert(pb_first(av, country@, j as nat) == pb_first(av, country@, j as nat + 1));
        }
        j = j + 1;
    }
    j
}

/// Partition labelled records by their country, keeping order of first
/// appearance between groups and record order within each group.
pub fn partition_by_country(items: Vec<(String, Place)>) -> (r: Vec<(String, Vec<Place>)>)
    requires
        forall|i: int|
            0 <= i < items@.len() ==> (#[trigger] items@[i]).1.position.is_valid(),
    ensures
        pview(r@) == spec_partition(iview(items@)),
        forall|i: int| 0 <= i < r@.len() ==> places_valid((#[trigger] r@[i]).1@),
{
    let ghost orig = iview(items@);
    let mut rest = items;
    let mut acc: Vec<(String, Vec<Place>)> = Vec::new();
    let ghost mut i: int = 0;
    proof {
        assert(pview(acc@) =~= Seq::<(Seq<char>, Seq<Place>)>::empty());
        assert(rest@.map_values(|e: (String, Place)| (e.0@, e.1)) =~= orig.subrange(
            i as int,
            orig.len() as int,
        ));
    }
    while rest.len() > 0
        invariant
            0 <= i as int <= orig.len(),
            rest@.len() == orig.len() - i as int,
            iview(rest@) =~= orig.subrange(i as int, orig.len() as int),
            forall|k: int|
                0 <= k < rest@.len() ==> (#[trigger] rest@[k]).1.position.is_valid(),
            forall|k: int| 0 <= k < acc@.len() ==> places_valid((#[trigger] acc@[k]).1@),
            pb_loop(orig, 0, Seq::empty()) == pb_loop(orig, i as nat, pview(acc@)),
        decreases rest@.len(),
    {
        let ghost before = pview(acc@);
        let ghost prev_rest = rest@;
        let it = rest.remove(0);
        proof {
            assert(iview(prev_rest)[0] == (prev_rest[0].0@, prev_rest[0].1));
            assert(orig[i as int] == iview(prev_rest)[0]);
            assert(orig[i as int] == (it.0@, it.1));
            assert forall|k: int| 0 <= k < rest@.len() implies iview(rest@)[k] == orig.subrange(
                i as int + 1,
                orig.len() as int,
            )[k] by {
                assert(rest@[k] == prev_rest[k + 1]);
                assert(iview(rest@)[k] == (rest@[k].0@, rest@[k].1));
                assert(iview(prev_rest)[k + 1] == (prev_rest[k + 1].0@, prev_rest[k + 1].1));
            }
            assert(iview(rest@) =~= orig.subrange(i as int + 1, orig.len() as int));
        }
        let country = it.0;
        let p = it.1;
        let w = pb_find(&acc, &country);
        if w < acc.len() {
            acc[w].1.push(p);
            proof {
                assert(pview(acc@) =~~= before.update(
                    w as int,
                    (before[w as int].0, before[w as int].1.push(p)),
                ));
            }
        } else {
            let mut g: Vec<Place> = Vec::new();
            g.push(p);
            acc.push((country, g));
            proof {
                assert(pview(acc@) =~~= before.push((orig[i as int].0, seq![p])));
            }
        }
        proof {
            assert(pview(acc@) == pb_step(before, orig[i as int].0, orig[i as int].1));
            i = i + 1;
        }
    }
    proof {
        assert(pb_loop(orig, i as nat, pview(acc@)) == pview(acc@));
    }
    acc
}

/// Build one clustering layer per country from the host's records.
pub fn airport_plugin(items: Vec<(String, Place)>) -> (r: Vec<GroupedPlaces>)
    requires
        forall|i: int|
            0 <= i < items@.len() ==> (#[trigger] items@[i]).1.position.is_valid(),
    ensures
        r@.len() == spec_partition(iview(items@)).len(),
        forall|i: int|
            0 <= i < r@.len() ==> (#[trigger] r@[i]).places@ == spec_partition(iview(items@))[i].1
                && r@[i].current_groups_indexes@.len() == 0 && r@[i].expanded@.len() == 0
                && r@[i].wf(),
{
    let ghost part = spec_partition(iview(items@));
    let mut groups = partition_by_country(items);
    let mut out: Vec<GroupedPlaces> = Vec::new();
    while groups.len() > 0
        invariant
            out@.len() + groups@.len() == part.len(),
            pview(groups@) =~= part.subrange(out@.len() as int, part.len() as int),
            forall|k: int| 0 <= k < groups@.len() ==> places_valid((#[trigger] groups@[k]).1@),
            forall|i: int|
                0 <= i < out@.len() ==> (#[trigger] out@[i]).places@ == part[i].1
                    && out@[i].current_groups_indexes@.len() == 0 && out@[i].expanded@.len() == 0
                    && out@[i].wf(),
        decreases groups@.len(),
    {
        let ghost prev_groups = groups@;
        let ghost n = out@.len() as int;
        let entry = groups.remove(0);
        proof {
            assert(pview(prev_groups)[0] == (prev_groups[0].0@, prev_groups[0].1@));
            assert(part[n] == pview(prev_groups)[0]);
            assert(part[n] == (entry.0@, entry.1@));
            assert forall|k: int| 0 <= k < groups@.len() implies pview(groups@)[k]
                == part.subrange(n + 1, part.len() as int)[k] by {
                assert(groups@[k] == prev_groups[k + 1]);
                assert(pview(groups@)[k] == (groups@[k].0@, groups@[k].1@));
                assert(pview(prev_groups)[k + 1] == (prev_groups[k + 1].0@, prev_groups[k + 1].1@));
            }
            assert(pview(groups@) =~= part.subrange(n + 1, part.len() as int));
        }
        let gp = GroupedPlaces::new(entry.1);
        out.push(gp);
    }
    out
}

/// Build a single clustering layer over all of the host's records.
pub fn airport_plugin_2(items: Vec<Place>) -> (r: GroupedPlaces)
    requires
        places_valid(items@),
    ensures
        r.places@ == items@,
        r.current_groups_indexes@.len() == 0,
        r.expanded@.len() == 0,
        r.wf(),
{
    GroupedPlaces::new(items)
}

} // verus!
