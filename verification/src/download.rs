//! The bounded-concurrency download queue of the tile engine.
//!
//! At most a configured number of fetches are in flight at once; further
//! requests wait in arrival order. The queue only tracks which tiles are
//! being fetched — the network transfer itself is performed by the host
//! around the library, which reports each completion back to the cache.

use vstd::prelude::*;

use crate::tiles::TileId;

verus! {

/// Snapshot of the download statistics, for a diagnostics display.
#[derive(Clone, Copy, PartialEq, Eq, Structural, Debug)]
pub struct HttpStats {
    /// Number of tile downloads currently in flight.
    pub in_progress: usize,
}

/// The bound on concurrently running downloads.
#[derive(Clone, Copy, PartialEq, Eq, Structural, Debug)]
pub struct MaxParallelDownloads {
    pub limit: usize,
}

/// One HTTP header sent with each tile request.
#[derive(Clone, Debug)]
pub struct HeaderValue {
    pub name: String,
    pub value: String,
}

/// A sequence holds no element twice.
pub open spec fn unique_tiles(s: Seq<TileId>) -> bool {
    forall|i: int, j: int| 0 <= i < j < s.len() ==> s[i] != s[j]
}

/// The download queue: tiles whose fetch is running and tiles waiting for a
/// free slot, in arrival order.
pub struct Downloads {
    pub max_parallel: usize,
    pub in_flight: Vec<TileId>,
    pub queued: Vec<TileId>,
}

/// Remove the one occurrence of a tile from a duplicate-free list.
fn remove_tile(v: &mut Vec<TileId>, t: TileId)
    requires
        unique_tiles(old(v)@),
        old(v)@.contains(t),
    ensures
        unique_tiles(final(v)@),
        final(v)@.len() == old(v)@.len() - 1,
        !final(v)@.contains(t),
        forall|u: TileId| u != t ==> final(v)@.contains(u) == old(v)@.contains(u),
        forall|u: TileId| final(v)@.contains(u) ==> old(v)@.contains(u),
{
    let mut i: usize = 0;
    let mut found: usize = 0;
    let mut have: bool = false;
    while i < v.len()
        invariant
            0 <= i <= v@.len(),
            have ==> 0 <= found < v@.len() && v@[found as int] == t,
            !have ==> forall|j: int| 0 <= j < i ==> v@[j] != t,
        ensures
            have ==> 0 <= found < v@.len() && v@[found as int] == t,
            !have ==> forall|j: int| 0 <= j < v@.len() ==> v@[j] != t,
        decreases v@.len() - i,
    {
        if v[i] == t {
            found = i;
            have = true;
            break ;
        }
        i = i + 1;
    }
    proof {
        if !have {
            assert(!v@.contains(t));
        }
    }
    assert(have);
    let ghost old_v = v@;
    v.remove(found);
    proof {
        assert forall|j: int| 0 <= j < v@.len() implies v@[j] != t by {
            if j < found {
                assert(v@[j] == old_v[j]);
            } else {
                assert(v@[j] == old_v[j + 1]);
            }
        }
        assert(!v@.contains(t));
        assert forall|u: TileId| u != t implies v@.contains(u) == old_v.contains(u) by {
            if old_v.contains(u) {
                let w = choose|w: int| 0 <= w < old_v.len() && old_v[w] == u;
                if w < found {
                    assert(v@[w] == u);
                } else {
                    assert(w != found);
                    assert(v@[w - 1] == u);
                }
                assert(v@.contains(u));
            }
            if v@.contains(u) {
                let w = choose|w: int| 0 <= w < v@.len() && v@[w] == u;
                if w < found {
                    assert(old_v[w] == u);
                } else {
                    assert(old_v[w + 1] == u);
                }
                assert(old_v.contains(u));
            }
        }
        assert forall|u: TileId| v@.contains(u) implies old_v.contains(u) by {
            let w = choose|w: int| 0 <= w < v@.len() && v@[w] == u;
            if w < found {
                assert(old_v[w] == u);
            } else {
                assert(old_v[w + 1] == u);
            }
        }
        assert forall|a: int, b: int| 0 <= a < b < v@.len() implies v@[a] != v@[b] by {
            let oa: int = if a < found {
                a
            } else {
                a + 1
            };
            let ob: int = if b < found {
                b
            } else {
                b + 1
            };
            assert(v@[a] == old_v[oa]);
            assert(v@[b] == old_v[ob]);
        }
    }
}

impl Downloads {
    /// Queue lists are duplicate-free and disjoint, and the concurrency
    /// bound holds.
    pub open spec fn wf(self) -> bool {
        &&& self.max_parallel >= 1
        &&& self.in_flight@.len() <= self.max_parallel
        &&& unique_tiles(self.in_flight@)
        &&& unique_tiles(self.queued@)
        &&& forall|t: TileId| self.in_flight@.contains(t) ==> !self.queued@.contains(t)
    }

    /// A tile is outstanding when its fetch is running or waiting for a slot.
    pub open spec fn outstanding(self, t: TileId) -> bool {
        self.in_flight@.contains(t) || self.queued@.contains(t)
    }

    /// An empty queue with the given concurrency bound.
    pub fn new(max_parallel: MaxParallelDownloads) -> (r: Downloads)
        requires
            max_parallel.limit >= 1,
        ensures
            r.max_parallel == max_parallel.limit,
            r.in_flight@.len() == 0,
            r.queued@.len() == 0,
            r.wf(),
    {
        Downloads { max_parallel: max_parallel.limit, in_flight: Vec::new(), queued: Vec::new() }
    }

    /// Snapshot of the number of fetches currently in flight.
    pub fn stats(&self) -> (r: HttpStats)
        ensures
            r.in_progress == self.in_flight@.len(),
    {
        HttpStats { in_progress: self.in_flight.len() }
    }

    /// Add a tile at the back of the waiting queue.
    pub fn enqueue(&mut self, t: TileId)
        requires
            old(self).wf(),
            !old(self).outstanding(t),
        ensures
            final(self).wf(),
            final(self).queued@ == old(self).queued@.push(t),
            final(self).in_flight == old(self).in_flight,
            final(self).max_parallel == old(self).max_parallel,
    {
        self.queued.push(t);
        proof {
            assert forall|u: TileId| self.in_flight@.contains(u) implies !self.queued@.contains(
                u,
            ) by {
                if self.queued@.contains(u) {
                    let w = choose|w: int| 0 <= w < self.queued@.len() && self.queued@[w] == u;
                    if w < self.queued@.len() - 1 {
                        assert(old(self).queued@[w] == u);
                    }
                }
            }
        }
    }

    /// Start the next waiting fetch when a slot is free. Returns the tile
    /// whose fetch just started, or nothing when every slot is busy or the
    /// queue is empty.
    pub fn start_next(&mut self) -> (r: Option<TileId>)
        requires
            old(self).wf(),
        ensures
            final(self).wf(),
            final(self).max_parallel == old(self).max_parallel,
            r is None ==> *final(self) == *old(self) && (old(self).in_flight@.len()
                == old(self).max_parallel || old(self).queued@.len() == 0),
            r matches Some(t) ==> {
                &&& old(self).queued@.len() > 0
                &&& old(self).in_flight@.len() < old(self).max_parallel
                &&& t == old(self).queued@[0]
                &&& final(self).queued@ == old(self).queued@.subrange(
                    1,
                    old(self).queued@.len() as int,
                )
                &&& final(self).in_flight@ == old(self).in_flight@.push(t)
            },
    {
        if self.in_flight.len() < self.max_parallel && self.queued.len() > 0 {
            let t = self.queued.remove(0);
            let ghost old_inf = self.in_flight@;
            let ghost old_q = old(self).queued@;
            self.in_flight.push(t);
            proof {
                assert(self.queued@ =~= old_q.subrange(1, old_q.len() as int));
                assert forall|a: int, b: int| 0 <= a < b < self.in_flight@.len() implies self
                    .in_flight@[a] != self.in_flight@[b] by {
                    if b < self.in_flight@.len() - 1 {
                    } else {
                        assert(self.in_flight@[b] == t);
                        assert(old_q.contains(t));
                        assert(!old_inf.contains(t));
                        assert(self.in_flight@[a] == old_inf[a]);
                        assert(old_inf.contains(old_inf[a]));
                    }
                }
                assert forall|u: TileId| self.in_flight@.contains(u) implies !self
                    .queued@.contains(u) by {
                    if self.queued@.contains(u) {
                        let w = choose|w: int|
                            0 <= w < self.queued@.len() && self.queued@[w] == u;
                        assert(old_q[w + 1] == u);
                        assert(old_q.contains(u));
                        let v = choose|v: int|
                            0 <= v < self.in_flight@.len() && self.in_flight@[v] == u;
                        if v < self.in_flight@.len() - 1 {
                            assert(old_inf[v] == u);
                            assert(old_inf.contains(u));
                        } else {
                            assert(u == t);
                            assert(old_q[0] == t);
                        }
                    }
                }
            }
            Some(t)
        } else {
            None
        }
    }

    /// Record that the fetch of a tile finished, freeing its slot.
    pub fn complete(&mut self, t: TileId)
        requires
            old(self).wf(),
            old(self).in_flight@.contains(t),
        ensures
            final(self).wf(),
            final(self).max_parallel == old(self).max_parallel,
            final(self).queued == old(self).queued,
            final(self).in_flight@.len() == old(self).in_flight@.len() - 1,
            !final(self).in_flight@.contains(t),
            forall|u: TileId|
                u != t ==> final(self).in_flight@.contains(u) == old(self).in_flight@.contains(u),
            forall|u: TileId| final(self).in_flight@.contains(u) ==> old(
                self,
            ).in_flight@.contains(u),
    {
        remove_tile(&mut self.in_flight, t);
    }
}

} // verus!
