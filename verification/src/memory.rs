//! The pan/zoom state machine of a map view.
//!
//! The view either follows an external position feed or is detached at a
//! position the user panned to. Zoom moves in whole steps and is clamped to
//! the provider's bounds: a step that would cross a bound fails with
//! `InvalidZoom` and leaves the state unchanged.

use vstd::prelude::*;

use crate::position::Position;
use crate::projector::MAX_ZOOM_CAP;
use crate::zoom::{InvalidZoom, DEFAULT_MAX_ZOOM, DEFAULT_MIN_ZOOM, DEFAULT_ZOOM};

verus! {

/// Whether the view tracks the external position feed or sits at a position
/// the user panned to.
#[derive(Clone, Copy, PartialEq, Eq, Structural, Debug)]
pub enum CenterMode {
    /// The view is centred on the external position feed.
    Following,
    /// The user dragged away; the view is centred on the recorded position.
    Detached(Position),
}

/// Pan/zoom state of a map view. It persists for the lifetime of the view.
#[derive(Clone, Copy, PartialEq, Eq, Structural, Debug)]
pub struct MapMemory {
    pub zoom: u8,
    pub min_zoom: u8,
    pub max_zoom: u8,
    pub center_mode: CenterMode,
}

/// One zoom-in step on the model: the new state and whether the step was
/// taken.
pub open spec fn spec_zoom_in(m: MapMemory) -> (MapMemory, bool) {
    if m.zoom < m.max_zoom {
        (
            MapMemory {
                zoom: (m.zoom + 1) as u8,
                min_zoom: m.min_zoom,
                max_zoom: m.max_zoom,
                center_mode: m.center_mode,
            },
            true,
        )
    } else {
        (m, false)
    }
}

/// One zoom-out step on the model: the new state and whether the step was
/// taken.
pub open spec fn spec_zoom_out(m: MapMemory) -> (MapMemory, bool) {
    if m.zoom > m.min_zoom {
        (
            MapMemory {
                zoom: (m.zoom - 1) as u8,
                min_zoom: m.min_zoom,
                max_zoom: m.max_zoom,
                center_mode: m.center_mode,
            },
            true,
        )
    } else {
        (m, false)
    }
}

/// The state after `n` zoom-out steps, failed steps included.
pub open spec fn spec_zoom_out_repeated(m: MapMemory, n: nat) -> MapMemory
    decreases n,
{
    if n == 0 {
        m
    } else {
        spec_zoom_out(spec_zoom_out_repeated(m, (n - 1) as nat)).0
    }
}

/// The state after `n` zoom-in steps, failed steps included.
pub open spec fn spec_zoom_in_repeated(m: MapMemory, n: nat) -> MapMemory
    decreases n,
{
    if n == 0 {
        m
    } else {
        spec_zoom_in(spec_zoom_in_repeated(m, (n - 1) as nat)).0
    }
}

/// Zooming out any number of times never crosses the minimum: the zoom lands
/// exactly on `max(min_zoom, zoom - n)` and everything else is unchanged.
pub proof fn lemma_zoom_out_repeated_floors(m: MapMemory, n: nat)
    requires
        m.wf(),
    ensures
        spec_zoom_out_repeated(m, n).wf(),
        spec_zoom_out_repeated(m, n).zoom as int == if m.zoom - n >= m.min_zoom as int {
            m.zoom - n
        } else {
            m.min_zoom as int
        },
        spec_zoom_out_repeated(m, n).min_zoom == m.min_zoom,
        spec_zoom_out_repeated(m, n).max_zoom == m.max_zoom,
        spec_zoom_out_repeated(m, n).center_mode == m.center_mode,
    decreases n,
{
    if n > 0 {
        lemma_zoom_out_repeated_floors(m, (n - 1) as nat);
    }
}

/// Zooming in any number of times never crosses the maximum: the zoom lands
/// exactly on `min(max_zoom, zoom + n)` and everything else is unchanged.
pub proof fn lemma_zoom_in_repeated_ceils(m: MapMemory, n: nat)
    requires
        m.wf(),
    ensures
        spec_zoom_in_repeated(m, n).wf(),
        spec_zoom_in_repeated(m, n).zoom as int == if m.zoom + n <= m.max_zoom as int {
            m.zoom + n
        } else {
            m.max_zoom as int
        },
        spec_zoom_in_repeated(m, n).min_zoom == m.min_zoom,
        spec_zoom_in_repeated(m, n).max_zoom == m.max_zoom,
        spec_zoom_in_repeated(m, n).center_mode == m.center_mode,
    decreases n,
{
    if n > 0 {
        lemma_zoom_in_repeated_ceils(m, (n - 1) as nat);
    }
}

impl MapMemory {
    /// The zoom sits within the provider bounds and a detached centre is a
    /// valid position.
    pub open spec fn wf(self) -> bool {
        &&& self.min_zoom <= self.zoom <= self.max_zoom
        &&& self.max_zoom <= MAX_ZOOM_CAP
        &&& match self.center_mode {
            CenterMode::Following => true,
            CenterMode::Detached(p) => p.is_valid(),
        }
    }

    /// A fresh view: following the position feed, zoomed to `zoom`, with the
    /// given provider zoom bounds.
    pub fn new(zoom: u8, min_zoom: u8, max_zoom: u8) -> (r: MapMemory)
        requires
            min_zoom <= zoom <= max_zoom,
            max_zoom <= MAX_ZOOM_CAP,
        ensures
            r == (MapMemory { zoom, min_zoom, max_zoom, center_mode: CenterMode::Following }),
            r.wf(),
    {
        MapMemory { zoom, min_zoom, max_zoom, center_mode: CenterMode::Following }
    }

    /// Current zoom level.
    pub fn zoom(&self) -> (z: u8)
        ensures
            z == self.zoom,
    {
        self.zoom
    }

    /// Step the zoom in by one. Fails, leaving the state unchanged, exactly
    /// when the zoom already sits at the provider maximum.
    pub fn zoom_in(&mut self) -> (r: Result<(), InvalidZoom>)
        ensures
            *final(self) == spec_zoom_in(*old(self)).0,
            r is Ok <==> spec_zoom_in(*old(self)).1,
            r is Ok <==> old(self).zoom < old(self).max_zoom,
            r is Err ==> *final(self) == *old(self),
    {
        if self.zoom < self.max_zoom {
            self.zoom = self.zoom + 1;
            Ok(())
        } else {
            Err(InvalidZoom)
        }
    }

    /// Step the zoom out by one. Fails, leaving the state unchanged, exactly
    /// when the zoom already sits at the provider minimum.
    pub fn zoom_out(&mut self) -> (r: Result<(), InvalidZoom>)
        ensures
            *final(self) == spec_zoom_out(*old(self)).0,
            r is Ok <==> spec_zoom_out(*old(self)).1,
            r is Ok <==> old(self).zoom > old(self).min_zoom,
            r is Err ==> *final(self) == *old(self),
    {
        if self.zoom > self.min_zoom {
            self.zoom = self.zoom - 1;
            Ok(())
        } else {
            Err(InvalidZoom)
        }
    }

    /// A drag gesture detaches the view at the dragged-to centre.
    pub fn drag_to(&mut self, position: Position)
        requires
            position.is_valid(),
        ensures
            final(self).center_mode == CenterMode::Detached(position),
            final(self).zoom == old(self).zoom,
            final(self).min_zoom == old(self).min_zoom,
            final(self).max_zoom == old(self).max_zoom,
    {
        self.center_mode = CenterMode::Detached(position);
    }

    /// Return to following the external position feed, discarding the pan.
    pub fn follow_my_position(&mut self)
        ensures
            final(self).center_mode == CenterMode::Following,
            final(self).zoom == old(self).zoom,
            final(self).min_zoom == old(self).min_zoom,
            final(self).max_zoom == old(self).max_zoom,
    {
        self.center_mode = CenterMode::Following;
    }

    /// The detached centre, when the view is detached.
    pub fn detached(&self) -> (r: Option<Position>)
        ensures
            match self.center_mode {
                CenterMode::Detached(p) => r == Some(p),
                CenterMode::Following => r is None,
            },
    {
        match self.center_mode {
            CenterMode::Detached(p) => Some(p),
            CenterMode::Following => None,
        }
    }

    /// The centre the view renders from, given the position feed's latest
    /// position: the detached centre when detached, the feed otherwise.
    pub fn effective_center(&self, my_position: Position) -> (r: Position)
        ensures
            r == match self.center_mode {
                CenterMode::Detached(p) => p,
                CenterMode::Following => my_position,
            },
    {
        match self.center_mode {
            CenterMode::Detached(p) => p,
            CenterMode::Following => my_position,
        }
    }
}

impl Default for MapMemory {
    /// A fresh view at the default zoom, following the position feed.
    fn default() -> (r: MapMemory)
        ensures
            r == (MapMemory {
                zoom: DEFAULT_ZOOM,
                min_zoom: DEFAULT_MIN_ZOOM,
                max_zoom: DEFAULT_MAX_ZOOM,
                center_mode: CenterMode::Following,
            }),
            r.wf(),
    {
        MapMemory {
            zoom: DEFAULT_ZOOM,
            min_zoom: DEFAULT_MIN_ZOOM,
            max_zoom: DEFAULT_MAX_ZOOM,
            center_mode: CenterMode::Following,
        }
    }
}

} // verus!
