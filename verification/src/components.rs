//! View components that sit on top of the map.

use vstd::prelude::*;

use crate::memory::MapMemory;
use crate::sources::Attribution;
use crate::zoom::InvalidZoom;

verus! {

/// A component that can be opened and closed by the user.
pub trait Window {
    fn open(&mut self);

    fn close(&mut self);

    fn is_open(&self) -> bool;
}

/// The overlay drawn over the map: zoom buttons and provider attribution.
pub struct MapOverlay {
    pub map_memory: MapMemory,
    pub attributions: Vec<Attribution>,
}

impl MapOverlay {
    /// Build the overlay for a map view.
    pub fn new(map_memory: MapMemory, attributions: Vec<Attribution>) -> (r: MapOverlay)
        ensures
            r.map_memory == map_memory,
            r.attributions == attributions,
    {
        MapOverlay { map_memory, attributions }
    }

    /// The zoom-in button was pressed.
    pub fn zoom_in_clicked(&mut self) -> (r: Result<(), InvalidZoom>)
        ensures
            final(self).map_memory == crate::memory::spec_zoom_in(old(self).map_memory).0,
            final(self).attributions == old(self).attributions,
            r is Ok <==> old(self).map_memory.zoom < old(self).map_memory.max_zoom,
    {
        self.map_memory.zoom_in()
    }

    /// The zoom-out button was pressed.
    pub fn zoom_out_clicked(&mut self) -> (r: Result<(), InvalidZoom>)
        ensures
            final(self).map_memory == crate::memory::spec_zoom_out(old(self).map_memory).0,
            final(self).attributions == old(self).attributions,
            r is Ok <==> old(self).map_memory.zoom > old(self).map_memory.min_zoom,
    {
        self.map_memory.zoom_out()
    }
}

} // verus!
