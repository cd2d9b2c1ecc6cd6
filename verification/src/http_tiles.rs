//! The tile cache: one authoritative store of per-tile fetch state.
//!
//! Each tile has at most one entry, and an entry whose fetch is outstanding
//! (requested or loading) is tracked by the download queue exactly once, so
//! repeated lookups never issue a duplicate download. Fetch failures are
//! recorded per tile and become eligible for retry after a backoff window;
//! completed-but-unwanted results are discarded.

use vstd::prelude::*;

use crate::download::{unique_tiles, Downloads, HttpStats, MaxParallelDownloads};
use crate::tiles::TileId;

verus! {

/// Weight of one zoom level in the eviction distance, relative to one tile
/// of grid distance.
pub const ZOOM_EVICTION_WEIGHT: i64 = 65_536;

/// Handle of a decoded tile texture, owned by the host's rendering layer.
#[derive(Clone, Copy, PartialEq, Eq, Structural, Debug)]
pub struct Texture {
    pub handle: u64,
}

/// Fetch state of one cached tile.
#[derive(Clone, Copy, PartialEq, Eq, Structural, Debug)]
pub enum TileState {
    /// Queued for download, waiting for a free slot.
    Requested,
    /// Download currently in flight.
    Loading,
    /// Decoded texture available.
    Ready(Texture),
    /// Fetch failed; eligible for retry once the clock passes this instant.
    Failed { retry_after: u64 },
}

/// No tile has two entries.
pub open spec fn unique_keys(s: Seq<(TileId, TileState)>) -> bool {
    forall|i: int, j: int| 0 <= i < j < s.len() ==> (#[trigger] s[i]).0 != (#[trigger] s[j]).0
}

/// Whether some entry holds this tile.
pub open spec fn has_key(s: Seq<(TileId, TileState)>, t: TileId) -> bool {
    exists|i: int| 0 <= i < s.len() && (#[trigger] s[i]).0 == t
}

/// Index of the entry holding this tile, when there is one.
pub open spec fn key_index(s: Seq<(TileId, TileState)>, t: TileId) -> int {
    choose|i: int| 0 <= i < s.len() && (#[trigger] s[i]).0 == t
}

/// The state recorded for a tile, if any.
pub open spec fn spec_get(s: Seq<(TileId, TileState)>, t: TileId) -> Option<TileState> {
    if has_key(s, t) {
        Some(s[key_index(s, t)].1)
    } else {
        None
    }
}

/// With unique keys, any entry holding the tile is the entry looked up.
proof fn lemma_key_index_is(s: Seq<(TileId, TileState)>, t: TileId, i: int)
    requires
        unique_keys(s),
        0 <= i < s.len(),
        s[i].0 == t,
    ensures
        has_key(s, t),
        key_index(s, t) == i,
        spec_get(s, t) == Some(s[i].1),
{
    assert(has_key(s, t));
    let w = key_index(s, t);
    if w != i {
        if w < i {
            assert(s[w].0 != s[i].0);
        } else {
            assert(s[i].0 != s[w].0);
        }
    }
}

/// Appending an entry for a fresh tile: that tile's lookup gains the new
/// state, every other lookup is unchanged.
proof fn lemma_get_push(s: Seq<(TileId, TileState)>, k: TileId, v: TileState)
    requires
        unique_keys(s),
        !has_key(s, k),
    ensures
        unique_keys(s.push((k, v))),
        spec_get(s.push((k, v)), k) == Some(v),
        forall|u: TileId| u != k ==> spec_get(s.push((k, v)), u) == spec_get(s, u),
{
    let s2 = s.push((k, v));
    assert forall|i: int, j: int| 0 <= i < j < s2.len() implies (#[trigger] s2[i]).0 != (
    #[trigger] s2[j]).0 by {
        if j == s2.len() - 1 {
            assert(s2[i].0 == s[i].0);
            assert(s[i].0 == s[i].0);
        }
    }
    lemma_key_index_is(s2, k, s.len() as int);
    assert forall|u: TileId| u != k implies spec_get(s2, u) == spec_get(s, u) by {
        if has_key(s, u) {
            let w = key_index(s, u);
            assert(s2[w].0 == u);
            lemma_key_index_is(s2, u, w);
        } else if has_key(s2, u) {
            let w = choose|w: int| 0 <= w < s2.len() && (#[trigger] s2[w]).0 == u;
            assert(w < s.len());
            assert(s[w].0 == u);
        }
    }
}

/// Replacing the state of one entry: that tile's lookup changes, every other
/// lookup is unchanged.
proof fn lemma_get_update(s: Seq<(TileId, TileState)>, i: int, v: TileState)
    requires
        unique_keys(s),
        0 <= i < s.len(),
    ensures
        unique_keys(s.update(i, (s[i].0, v))),
        spec_get(s.update(i, (s[i].0, v)), s[i].0) == Some(v),
        forall|u: TileId|
            u != s[i].0 ==> spec_get(s.update(i, (s[i].0, v)), u) == spec_get(s, u),
{
    let s2 = s.update(i, (s[i].0, v));
    assert forall|a: int, b: int| 0 <= a < b < s2.len() implies (#[trigger] s2[a]).0 != (
    #[trigger] s2[b]).0 by {
        assert(s2[a].0 == s[a].0);
        assert(s2[b].0 == s[b].0);
    }
    lemma_key_index_is(s2, s[i].0, i);
    assert forall|u: TileId| u != s[i].0 implies spec_get(s2, u) == spec_get(s, u) by {
        if has_key(s, u) {
            let w = key_index(s, u);
            assert(w != i);
            assert(s2[w].0 == u);
            lemma_key_index_is(s2, u, w);
        } else if has_key(s2, u) {
            let w = choose|w: int| 0 <= w < s2.len() && (#[trigger] s2[w]).0 == u;
            assert(s[w].0 == u);
        }
    }
}

/// Removing one entry: that tile's lookup disappears, every other lookup is
/// unchanged.
proof fn lemma_get_remove(s: Seq<(TileId, TileState)>, i: int)
    requires
        unique_keys(s),
        0 <= i < s.len(),
    ensures
        unique_keys(s.remove(i)),
        spec_get(s.remove(i), s[i].0) == None::<TileState>,
        forall|u: TileId| u != s[i].0 ==> spec_get(s.remove(i), u) == spec_get(s, u),
{
    let s2 = s.remove(i);
    assert forall|a: int, b: int| 0 <= a < b < s2.len() implies (#[trigger] s2[a]).0 != (
    #[trigger] s2[b]).0 by {
        let oa: int = if a < i {
            a
        } else {
            a + 1
        };
        let ob: int = if b < i {
            b
        } else {
            b + 1
        };
        assert(s2[a].0 == s[oa].0);
        assert(s2[b].0 == s[ob].0);
    }
    assert forall|w: int| 0 <= w < s2.len() implies (#[trigger] s2[w]).0 != s[i].0 by {
        if w < i {
            assert(s2[w].0 == s[w].0);
        } else {
            assert(s2[w].0 == s[w + 1].0);
        }
    }
    assert(!has_key(s2, s[i].0));
    assert forall|u: TileId| u != s[i].0 implies spec_get(s2, u) == spec_get(s, u) by {
        if has_key(s, u) {
            let w = key_index(s, u);
            assert(w != i);
            if w < i {
                assert(s2[w].0 == u);
                lemma_key_index_is(s2, u, w);
                assert(s2[w].1 == s[w].1);
            } else {
                assert(s2[w - 1].0 == u);
                lemma_key_index_is(s2, u, w - 1);
                assert(s2[w - 1].1 == s[w].1);
            }
        } else if has_key(s2, u) {
            let w = choose|w: int| 0 <= w < s2.len() && (#[trigger] s2[w]).0 == u;
            if w < i {
                assert(s[w].0 == u);
            } else {
                assert(s[w + 1].0 == u);
            }
        }
    }
}

/// Find the entry of a tile.
fn find_entry(entries: &Vec<(TileId, TileState)>, t: TileId) -> (r: Option<usize>)
    requires
        unique_keys(entries@),
    ensures
        match r {
            Some(i) => i < entries@.len() && entries@[i as int].0 == t && key_index(entries@, t)
                == i as int && spec_get(entries@, t) == Some(entries@[i as int].1),
            None => !has_key(entries@, t) && spec_get(entries@, t) == None::<TileState>,
        },
{
    let mut i: usize = 0;
    while i < entries.len()
        invariant
            0 <= i <= entries@.len(),
            unique_keys(entries@),
            forall|j: int| 0 <= j < i ==> (#[trigger] entries@[j]).0 != t,
        decreases entries@.len() - i,
    {
        if entries[i].0 == t {
            proof {
                lemma_key_index_is(entries@, t, i as int);
            }
            return Some(i);
        }
        i = i + 1;
    }
    proof {
        if has_key(entries@, t) {
            let w = choose|w: int| 0 <= w < entries@.len() && (#[trigger] entries@[w]).0 == t;
            assert(entries@[w].0 != t);
        }
    }
    None
}

/// Eviction distance between two tiles: grid distance plus a weighted zoom
/// difference.
pub open spec fn spec_tile_distance(a: TileId, b: TileId) -> int {
    let dx = if a.x >= b.x {
        a.x - b.x
    } else {
        b.x - a.x
    };
    let dy = if a.y >= b.y {
        a.y - b.y
    } else {
        b.y - a.y
    };
    let dz = if a.zoom >= b.zoom {
        a.zoom - b.zoom
    } else {
        b.zoom - a.zoom
    };
    dx + dy + dz * (ZOOM_EVICTION_WEIGHT as int)
}

/// Eviction distance between two tiles.
pub fn tile_distance(a: TileId, b: TileId) -> (r: i64)
    ensures
        r == spec_tile_distance(a, b),
        r >= 0,
{
    let dx: i64 = if a.x >= b.x {
        (a.x - b.x) as i64
    } else {
        (b.x - a.x) as i64
    };
    let dy: i64 = if a.y >= b.y {
        (a.y - b.y) as i64
    } else {
        (b.y - a.y) as i64
    };
    let dz: i64 = if a.zoom >= b.zoom {
        (a.zoom - b.zoom) as i64
    } else {
        (b.zoom - a.zoom) as i64
    };
    dx + dy + dz * ZOOM_EVICTION_WEIGHT
}

/// Whether a state may be evicted: only decoded or failed entries leave the
/// cache; an outstanding fetch is never evicted.
pub open spec fn spec_evictable(st: TileState) -> bool {
    match st {
        TileState::Ready(_) => true,
        TileState::Failed { .. } => true,
        TileState::Requested => false,
        TileState::Loading => false,
    }
}

/// The authoritative tile store: fetch state per tile, the download queue,
/// the working-set bound and the retry backoff window.
pub struct HttpTiles {
    pub entries: Vec<(TileId, TileState)>,
    pub downloads: Downloads,
    /// Bound on the number of resident entries the cache aims to keep.
    pub capacity: usize,
    /// Backoff window, in clock units, before a failed tile may be retried.
    pub backoff: u64,
}

impl HttpTiles {
    /// Keys are unique, the queue is well formed, and an entry is
    /// outstanding in the queue exactly when its state says so.
    pub open spec fn wf(self) -> bool {
        &&& unique_keys(self.entries@)
        &&& self.downloads.wf()
        &&& forall|t: TileId| #[trigger]
            self.downloads.queued@.contains(t) ==> spec_get(self.entries@, t) == Some(
                TileState::Requested,
            )
        &&& forall|t: TileId| #[trigger]
            self.downloads.in_flight@.contains(t) ==> spec_get(self.entries@, t) == Some(
                TileState::Loading,
            )
        &&& forall|i: int|
            0 <= i < self.entries@.len() ==> match (#[trigger] self.entries@[i]).1 {
                TileState::Requested => self.downloads.queued@.contains(self.entries@[i].0),
                TileState::Loading => self.downloads.in_flight@.contains(self.entries@[i].0),
                TileState::Ready(_) => true,
                TileState::Failed { .. } => true,
            }
    }

    /// An empty cache.
    pub fn new(capacity: usize, max_parallel: MaxParallelDownloads, backoff: u64) -> (r: HttpTiles)
        requires
            max_parallel.limit >= 1,
        ensures
            r.wf(),
            r.entries@.len() == 0,
            r.downloads.queued@.len() == 0,
            r.downloads.in_flight@.len() == 0,
            r.capacity == capacity,
            r.backoff == backoff,
            r.downloads.max_parallel == max_parallel.limit,
    {
        HttpTiles { entries: Vec::new(), downloads: Downloads::new(max_parallel), capacity, backoff }
    }

    /// Snapshot of the number of downloads in flight.
    pub fn stats(&self) -> (r: HttpStats)
        ensures
            r.in_progress == self.downloads.in_flight@.len(),
    {
        self.downloads.stats()
    }

    /// Look up a tile. A ready texture is returned at once. A missing tile,
    /// or a failed one whose backoff has passed, transitions to requested
    /// and joins the download queue. A tile whose fetch is already
    /// outstanding is left exactly as it is, so repeated calls never issue
    /// a second download for the same tile.
    pub fn get(&mut self, tile: TileId, now: u64) -> (r: Option<Texture>)
        requires
            old(self).wf(),
        ensures
            final(self).wf(),
            final(self).capacity == old(self).capacity,
            final(self).backoff == old(self).backoff,
            final(self).downloads.max_parallel == old(self).downloads.max_parallel,
            match spec_get(old(self).entries@, tile) {
                Some(TileState::Ready(tex)) => r == Some(tex) && *final(self) == *old(self),
                Some(TileState::Requested) => r is None && *final(self) == *old(self),
                Some(TileState::Loading) => r is None && *final(self) == *old(self),
                Some(TileState::Failed { retry_after }) => r is None && if now >= retry_after {
                    &&& final(self).entries@ == old(self).entries@.update(
                        key_index(old(self).entries@, tile),
                        (tile, TileState::Requested),
                    )
                    &&& final(self).downloads.queued@ == old(self).downloads.queued@.push(tile)
                    &&& final(self).downloads.in_flight == old(self).downloads.in_flight
                } else {
                    *final(self) == *old(self)
                },
                None => {
                    &&& r is None
                    &&& final(self).entries@ == old(self).entries@.push(
                        (tile, TileState::Requested),
                    )
                    &&& final(self).downloads.queued@ == old(self).downloads.queued@.push(tile)
                    &&& final(self).downloads.in_flight == old(self).downloads.in_flight
                },
            },
    {
        let found = find_entry(&self.entries, tile);
        match found {
            Some(i) => {
                let st = self.entries[i].1;
                match st {
                    TileState::Ready(tex) => Some(tex),
                    TileState::Requested => None,
                    TileState::Loading => None,
                    TileState::Failed { retry_after } => {
                        if now >= retry_after {
                            proof {
                                // A failed tile is tracked by neither queue.
                                assert(!self.downloads.queued@.contains(tile));
                                assert(!self.downloads.in_flight@.contains(tile));
                            }
                            let ghost old_entries = self.entries@;
                            let ghost old_q = self.downloads.queued@;
                            self.entries[i] = (tile, TileState::Requested);
                            self.downloads.enqueue(tile);
                            proof {
                                lemma_get_update(old_entries, i as int, TileState::Requested);
                                assert(self.entries@ == old_entries.update(
                                    i as int,
                                    (tile, TileState::Requested),
                                ));
                                assert forall|t: TileId| #[trigger]
                                    self.downloads.queued@.contains(t) implies spec_get(
                                    self.entries@,
                                    t,
                                ) == Some(TileState::Requested) by {
                                    let w = choose|w: int|
                                        0 <= w < self.downloads.queued@.len()
                                            && self.downloads.queued@[w] == t;
                                    if w < old_q.len() {
                                        assert(old_q[w] == t);
                                        assert(old_q.contains(t));
                                        assert(t != tile);
                                    } else {
                                        assert(t == tile);
                                    }
                                }
                                assert forall|t: TileId| #[trigger]
                                    self.downloads.in_flight@.contains(t) implies spec_get(
                                    self.entries@,
                                    t,
                                ) == Some(TileState::Loading) by {
                                    assert(t != tile);
                                }
                                assert forall|j: int|
                                    0 <= j < self.entries@.len() implies match (
                                #[trigger] self.entries@[j]).1 {
                                    TileState::Requested => self.downloads.queued@.contains(
                                        self.entries@[j].0,
                                    ),
                                    TileState::Loading => self.downloads.in_flight@.contains(
                                        self.entries@[j].0,
                                    ),
                                    TileState::Ready(_) => true,
                                    TileState::Failed { .. } => true,
                                } by {
                                    if j != i as int {
                                        assert(self.entries@[j] == old_entries[j]);
                                        if old_q.contains(old_entries[j].0) {
                                            let w = choose|w: int|
                                                0 <= w < old_q.len() && old_q[w]
                                                    == old_entries[j].0;
                                            assert(self.downloads.queued@[w] == old_entries[j].0);
                                        }
                                    } else {
                                        assert(self.downloads.queued@[old_q.len() as int]
                                            == tile);
                                    }
                                }
                            }
                            None
                        } else {
                            None
                        }
                    },
                }
            },
            None => {
                proof {
                    // An absent tile is tracked by neither queue.
                    assert(!self.downloads.queued@.contains(tile));
                    assert(!self.downloads.in_flight@.contains(tile));
                }
                let ghost old_entries = self.entries@;
                let ghost old_q = self.downloads.queued@;
                self.entries.push((tile, TileState::Requested));
                self.downloads.enqueue(tile);
                proof {
                    lemma_get_push(old_entries, tile, TileState::Requested);
                    lemma_key_index_is(self.entries@, tile, old_entries.len() as int);
                    assert forall|t: TileId| #[trigger]
                        self.downloads.queued@.contains(t) implies spec_get(self.entries@, t)
                        == Some(TileState::Requested) by {
                        let w = choose|w: int|
                            0 <= w < self.downloads.queued@.len() && self.downloads.queued@[w]
                                == t;
                        if w < old_q.len() {
                            assert(old_q[w] == t);
                            assert(old_q.contains(t));
                            assert(t != tile);
                        } else {
                            assert(t == tile);
                        }
                    }
                    assert forall|t: TileId| #[trigger]
                        self.downloads.in_flight@.contains(t) implies spec_get(self.entries@, t)
                        == Some(TileState::Loading) by {
                        assert(t != tile);
                    }
                    assert forall|j: int|
                        0 <= j < self.entries@.len() implies match (
                    #[trigger] self.entries@[j]).1 {
                        TileState::Requested => self.downloads.queued@.contains(
                            self.entries@[j].0,
                        ),
                        TileState::Loading => self.downloads.in_flight@.contains(
                            self.entries@[j].0,
                        ),
                        TileState::Ready(_) => true,
                        TileState::Failed { .. } => true,
                    } by {
                        if j < old_entries.len() {
                            assert(self.entries@[j] == old_entries[j]);
                            if old_q.contains(old_entries[j].0) {
                                let w = choose|w: int|
                                    0 <= w < old_q.len() && old_q[w] == old_entries[j].0;
                                assert(self.downloads.queued@[w] == old_entries[j].0);
                            }
                        } else {
                            assert(self.downloads.queued@[old_q.len() as int] == tile);
                        }
                    }
                }
                None
            },
        }
    }

    /// Start the next queued download when a slot is free: the tile at the
    /// front of the queue transitions from requested to loading.
    pub fn start_next(&mut self) -> (r: Option<TileId>)
        requires
            old(self).wf(),
        ensures
            final(self).wf(),
            final(self).capacity == old(self).capacity,
            final(self).backoff == old(self).backoff,
            final(self).downloads.max_parallel == old(self).downloads.max_parallel,
            r is None ==> *final(self) == *old(self) && (old(self).downloads.in_flight@.len()
                == old(self).downloads.max_parallel || old(self).downloads.queued@.len() == 0),
            r matches Some(t) ==> {
                &&& old(self).downloads.queued@.len() > 0
                &&& old(self).downloads.in_flight@.len() < old(self).downloads.max_parallel
                &&& t == old(self).downloads.queued@[0]
                &&& final(self).downloads.queued@ == old(self).downloads.queued@.subrange(
                    1,
                    old(self).downloads.queued@.len() as int,
                )
                &&& final(self).downloads.in_flight@ == old(self).downloads.in_flight@.push(t)
                &&& final(self).entries@ == old(self).entries@.update(
                    key_index(old(self).entries@, t),
                    (t, TileState::Loading),
                )
            },
    {
        let ghost old_entries = self.entries@;
        let ghost old_q = self.downloads.queued@;
        let ghost old_inf = self.downloads.in_flight@;
        let started = self.downloads.start_next();
        match started {
            Some(t) => {
                proof {
                    assert(old_q[0] == t);
                    assert(old_q.contains(t));
                }
                let idx = find_entry(&self.entries, t);
                match idx {
                    Some(i) => {
                        proof {
                            assert(self.entries@[i as int].1 == TileState::Requested);
                        }
                        self.entries[i] = (t, TileState::Loading);
                        proof {
                            lemma_get_update(old_entries, i as int, TileState::Loading);
                            assert forall|u: TileId| #[trigger]
                                self.downloads.queued@.contains(u) implies spec_get(
                                self.entries@,
                                u,
                            ) == Some(TileState::Requested) by {
                                let w = choose|w: int|
                                    0 <= w < self.downloads.queued@.len()
                                        && self.downloads.queued@[w] == u;
                                assert(old_q[w + 1] == u);
                                assert(old_q.contains(u));
                                assert(u != t);
                            }
                            assert forall|u: TileId| #[trigger]
                                self.downloads.in_flight@.contains(u) implies spec_get(
                                self.entries@,
                                u,
                            ) == Some(TileState::Loading) by {
                                let w = choose|w: int|
                                    0 <= w < self.downloads.in_flight@.len()
                                        && self.downloads.in_flight@[w] == u;
                                if w < old_inf.len() {
                                    assert(old_inf[w] == u);
                                    assert(old_inf.contains(u));
                                    assert(u != t);
                                } else {
                                    assert(u == t);
                                }
                            }
                            assert forall|j: int|
                                0 <= j < self.entries@.len() implies match (
                            #[trigger] self.entries@[j]).1 {
                                TileState::Requested => self.downloads.queued@.contains(
                                    self.entries@[j].0,
                                ),
                                TileState::Loading => self.downloads.in_flight@.contains(
                                    self.entries@[j].0,
                                ),
                                TileState::Ready(_) => true,
                                TileState::Failed { .. } => true,
                            } by {
                                if j != i as int {
                                    assert(self.entries@[j] == old_entries[j]);
                                    let u = old_entries[j].0;
                                    assert(u != t);
                                    if old_q.contains(u) {
                                        let w = choose|w: int|
                                            0 <= w < old_q.len() && old_q[w] == u;
                                        assert(w != 0);
                                        assert(self.downloads.queued@[w - 1] == u);
                                    }
                                    if old_inf.contains(u) {
                                        let w = choose|w: int|
                                            0 <= w < old_inf.len() && old_inf[w] == u;
                                        assert(self.downloads.in_flight@[w] == u);
                                    }
                                } else {
                                    assert(self.downloads.in_flight@[old_inf.len() as int] == t);
                                }
                            }
                        }
                        Some(t)
                    },
                    None => {
                        proof {
                            assert(false);
                        }
                        None
                    },
                }
            },
            None => None,
        }
    }

    /// Record the outcome of a finished download. A wanted result becomes
    /// ready or failed-with-backoff; a result for a tile no longer wanted is
    /// discarded and its entry dropped.
    pub fn complete(&mut self, tile: TileId, texture: Option<Texture>, now: u64, wanted: bool)
        requires
            old(self).wf(),
            spec_get(old(self).entries@, tile) == Some(TileState::Loading),
            now + old(self).backoff <= u64::MAX,
        ensures
            final(self).wf(),
            final(self).capacity == old(self).capacity,
            final(self).backoff == old(self).backoff,
            final(self).downloads.max_parallel == old(self).downloads.max_parallel,
            final(self).downloads.queued == old(self).downloads.queued,
            !final(self).downloads.in_flight@.contains(tile),
            forall|u: TileId|
                u != tile ==> final(self).downloads.in_flight@.contains(u) == old(
                    self,
                ).downloads.in_flight@.contains(u),
            wanted ==> final(self).entries@ == old(self).entries@.update(
                key_index(old(self).entries@, tile),
                (
                    tile,
                    match texture {
                        Some(tex) => TileState::Ready(tex),
                        None => TileState::Failed { retry_after: (now + old(self).backoff) as u64 },
                    },
                ),
            ),
            !wanted ==> final(self).entries@ == old(self).entries@.remove(
                key_index(old(self).entries@, tile),
            ),
    {
        let ghost old_entries = self.entries@;
        let ghost old_q = self.downloads.queued@;
        let ghost old_inf = self.downloads.in_flight@;
        proof {
            let ki = key_index(old_entries, tile);
            assert(old_entries[ki].1 == TileState::Loading);
            assert(old(self).downloads.in_flight@.contains(tile));
        }
        self.downloads.complete(tile);
        let idx = find_entry(&self.entries, tile);
        match idx {
            Some(i) => {
                if wanted {
                    let new_state = match texture {
                        Some(tex) => TileState::Ready(tex),
                        None => TileState::Failed { retry_after: now + self.backoff },
                    };
                    self.entries[i] = (tile, new_state);
                    proof {
                        lemma_get_update(old_entries, i as int, new_state);
                    }
                } else {
                    self.entries.remove(i);
                    proof {
                        lemma_get_remove(old_entries, i as int);
                    }
                }
                proof {
                    assert forall|u: TileId| #[trigger]
                        self.downloads.queued@.contains(u) implies spec_get(self.entries@, u)
                        == Some(TileState::Requested) by {
                        assert(u != tile);
                    }
                    assert forall|u: TileId| #[trigger]
                        self.downloads.in_flight@.contains(u) implies spec_get(self.entries@, u)
                        == Some(TileState::Loading) by {
                        assert(old_inf.contains(u));
                        assert(u != tile);
                    }
                    assert forall|j: int|
                        0 <= j < self.entries@.len() implies match (
                    #[trigger] self.entries@[j]).1 {
                        TileState::Requested => self.downloads.queued@.contains(
                            self.entries@[j].0,
                        ),
                        TileState::Loading => self.downloads.in_flight@.contains(
                            self.entries@[j].0,
                        ),
                        TileState::Ready(_) => true,
                        TileState::Failed { .. } => true,
                    } by {
                        let oj: int = if wanted {
                            j
                        } else if j < i as int {
                            j
                        } else {
                            j + 1
                        };
                        if wanted && j == i as int {
                        } else {
                            assert(self.entries@[j] == old_entries[oj]);
                            let u = old_entries[oj].0;
                            assert(u != tile);
                        }
                    }
                }
            },
            None => {
                proof {
                    assert(false);
                }
            },
        }
    }

    /// The texture that should fill a tile's cell this frame: the tile's own
    /// texture when it is ready, else the texture of the nearest ancestor in
    /// the pyramid that is ready, rendered at lower resolution. Nothing is
    /// requested or changed by this lookup.
    pub open spec fn spec_fallback(s: Seq<(TileId, TileState)>, tile: TileId) -> Option<
        (TileId, Texture),
    >
        decreases tile.zoom,
    {
        match spec_get(s, tile) {
            Some(TileState::Ready(tex)) => Some((tile, tex)),
            _ => {
                if tile.zoom == 0 {
                    None
                } else {
                    Self::spec_fallback(
                        s,
                        TileId {
                            x: (tile.x / 2) as u32,
                            y: (tile.y / 2) as u32,
                            zoom: (tile.zoom - 1) as u8,
                        },
                    )
                }
            },
        }
    }

    /// Read-only lookup of the tile or its nearest ready ancestor.
    pub fn fallback_texture(&self, tile: TileId) -> (r: Option<(TileId, Texture)>)
        requires
            self.wf(),
            tile.wf(),
        ensures
            r == Self::spec_fallback(self.entries@, tile),
        decreases tile.zoom,
    {
        match find_entry(&self.entries, tile) {
            Some(i) => {
                if let TileState::Ready(tex) = self.entries[i].1 {
                    return Some((tile, tex));
                }
            },
            None => {},
        }
        match tile.parent() {
            Some(p) => self.fallback_texture(p),
            None => None,
        }
    }

    /// Evict the resident entry farthest from the focus tile once the cache
    /// is over its working-set bound. Only decoded or failed entries are
    /// eligible; an outstanding fetch is never evicted.
    pub fn evict_farthest(&mut self, focus: TileId) -> (r: Option<TileId>)
        requires
            old(self).wf(),
        ensures
            final(self).wf(),
            final(self).capacity == old(self).capacity,
            final(self).backoff == old(self).backoff,
            final(self).downloads == old(self).downloads,
            r is None ==> *final(self) == *old(self) && (old(self).entries@.len() <= old(
                self,
            ).capacity as int || forall|j: int|
                0 <= j < old(self).entries@.len() ==> !spec_evictable(
                    (#[trigger] old(self).entries@[j]).1,
                )),
            r matches Some(t) ==> {
                &&& old(self).entries@.len() > old(self).capacity as int
                &&& has_key(old(self).entries@, t)
                &&& spec_evictable(old(self).entries@[key_index(old(self).entries@, t)].1)
                &&& final(self).entries@ == old(self).entries@.remove(
                    key_index(old(self).entries@, t),
                )
                &&& forall|j: int|
                    0 <= j < old(self).entries@.len() && spec_evictable(
                        (#[trigger] old(self).entries@[j]).1,
                    ) ==> spec_tile_distance(old(self).entries@[j].0, focus)
                        <= spec_tile_distance(t, focus)
            },
    {
        if self.entries.len() <= self.capacity {
            return None;
        }
        let ghost old_entries = self.entries@;
        let mut have: bool = false;
        let mut best_i: usize = 0;
        let mut best_d: i64 = 0;
        let mut j: usize = 0;
        while j < self.entries.len()
            invariant
                0 <= j <= self.entries@.len(),
                unique_keys(self.entries@),
                have ==> 0 <= best_i < self.entries@.len() && spec_evictable(
                    self.entries@[best_i as int].1,
                ) && best_d == spec_tile_distance(self.entries@[best_i as int].0, focus),
                have ==> forall|k: int|
                    0 <= k < j && spec_evictable((#[trigger] self.entries@[k]).1)
                        ==> spec_tile_distance(self.entries@[k].0, focus) <= best_d,
                !have ==> forall|k: int|
                    0 <= k < j ==> !spec_evictable((#[trigger] self.entries@[k]).1),
            decreases self.entries@.len() - j,
        {
            let st = self.entries[j].1;
            let evictable = match st {
                TileState::Ready(_) => true,
                TileState::Failed { .. } => true,
                TileState::Requested => false,
                TileState::Loading => false,
            };
            if evictable {
                let d = tile_distance(self.entries[j].0, focus);
                if !have || d > best_d {
                    have = true;
                    best_i = j;
                    best_d = d;
                }
            }
            j = j + 1;
        }
        if !have {
            return None;
        }
        let victim = self.entries[best_i].0;
        proof {
            lemma_key_index_is(old_entries, victim, best_i as int);
            lemma_get_remove(old_entries, best_i as int);
        }
        self.entries.remove(best_i);
        proof {
            assert forall|u: TileId| #[trigger]
                self.downloads.queued@.contains(u) implies spec_get(self.entries@, u) == Some(
                TileState::Requested,
            ) by {
                assert(u != victim);
            }
            assert forall|u: TileId| #[trigger]
                self.downloads.in_flight@.contains(u) implies spec_get(self.entries@, u) == Some(
                TileState::Loading,
            ) by {
                assert(u != victim);
            }
            assert forall|k: int|
                0 <= k < self.entries@.len() implies match (#[trigger] self.entries@[k]).1 {
                TileState::Requested => self.downloads.queued@.contains(self.entries@[k].0),
                TileState::Loading => self.downloads.in_flight@.contains(self.entries@[k].0),
                TileState::Ready(_) => true,
                TileState::Failed { .. } => true,
            } by {
                let ok: int = if k < best_i as int {
                    k
                } else {
                    k + 1
                };
                assert(self.entries@[k] == old_entries[ok]);
            }
        }
        Some(victim)
    }
}

} // verus!
