//! Composition of overlay producers over one render pass.
//!
//! The producer set is small and fixed, so producers are a closed set of
//! variants. A producer that declares itself parallel-capable has its heavy
//! recomputation run off the render thread; the render pass then consumes
//! the most recently published result through a single-slot overwrite cell,
//! never blocking and never queueing stale results.

use vstd::prelude::*;

use crate::places::{
    spec_groups, spec_run, groups_view, positions_of, DrawCommand, GroupedPlaces, Places,
};
use crate::projector::Projector;

verus! {

/// One overlay producer.
pub enum Plugin {
    /// Markers drawn individually, inline with the render pass.
    Places(Places),
    /// Clustered markers, recomputed off the render thread.
    GroupedPlaces(GroupedPlaces),
}

impl Plugin {
    /// Validity of the underlying producer.
    pub open spec fn wf(self) -> bool {
        match self {
            Plugin::Places(p) => crate::places::places_valid(p.places@),
            Plugin::GroupedPlaces(g) => g.wf(),
        }
    }

    /// Whether this producer's heavy computation may run off the render
    /// thread.
    pub fn is_parallel(&self) -> (r: bool)
        ensures
            r == (self matches Plugin::GroupedPlaces(_)),
    {
        match self {
            Plugin::Places(_) => false,
            Plugin::GroupedPlaces(_) => true,
        }
    }

    /// Recompute this producer's heavy state off the render thread. Inline
    /// producers have nothing to recompute.
    pub fn parallel_run(&mut self, projector: &Projector)
        requires
            old(self).wf(),
            projector.wf(),
        ensures
            final(self).wf(),
            match *old(self) {
                Plugin::Places(_) => *final(self) == *old(self),
                Plugin::GroupedPlaces(g) => (*final(self)) matches Plugin::GroupedPlaces(g2) && {
                    &&& g2.places == g.places
                    &&& g2.expanded == g.expanded
                    &&& groups_view(g2.current_groups_indexes@) == spec_groups(
                        positions_of(g.places@),
                        *projector,
                    )
                },
            },
    {
        match self {
            Plugin::Places(_) => {},
            Plugin::GroupedPlaces(g) => {
                g.parallel_run(projector);
            },
        }
    }

    /// Draw instructions for the render pass.
    pub fn run(&self) -> (r: Vec<DrawCommand>)
        requires
            self.wf(),
        ensures
            match *self {
                Plugin::Places(p) => r@.len() == p.places@.len() && forall|i: int|
                    0 <= i < r@.len() ==> r@[i] == (DrawCommand::Marker { index: i as usize }),
                Plugin::GroupedPlaces(g) => r@ == spec_run(
                    g.places@,
                    groups_view(g.current_groups_indexes@),
                    g.expanded@,
                    0,
                ),
            },
    {
        match self {
            Plugin::Places(p) => p.run(),
            Plugin::GroupedPlaces(g) => g.run(),
        }
    }
}

/// A single-slot overwrite cell: publishing replaces whatever was there, so
/// a reader always consumes the freshest value and stale results are never
/// queued.
pub struct Latest<T> {
    pub slot: Option<T>,
}

impl<T> Latest<T> {
    /// An empty cell.
    pub fn new() -> (r: Latest<T>)
        ensures
            r.slot is None,
    {
        Latest { slot: None }
    }

    /// Publish a freshly computed value, overwriting any unconsumed one.
    pub fn publish(&mut self, value: T)
        ensures
            final(self).slot == Some(value),
    {
        self.slot = Some(value);
    }

    /// Consume the latest published value, leaving the cell empty; nothing
    /// when no value has been published since the last take.
    pub fn take(&mut self) -> (r: Option<T>)
        ensures
            r == old(self).slot,
            final(self).slot is None,
    {
        self.slot.take()
    }
}

} // verus!
