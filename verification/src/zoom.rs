//! Zoom bounds and the error reported when a zoom step would cross them.

use vstd::prelude::*;

verus! {

/// Error returned when a zoom step would leave the provider's zoom bounds.
/// The state is left unchanged when this is reported.
#[derive(Clone, Copy, PartialEq, Eq, Structural, Debug)]
pub struct InvalidZoom;

/// Default zoom level of a fresh map view.
pub const DEFAULT_ZOOM: u8 = 16;

/// Default lowest zoom level offered by a provider.
pub const DEFAULT_MIN_ZOOM: u8 = 0;

/// Default highest zoom level offered by a provider.
pub const DEFAULT_MAX_ZOOM: u8 = 19;

} // verus!
