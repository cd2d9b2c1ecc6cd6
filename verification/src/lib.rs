//! A slippy-map tile engine: fixed-point geographic positions, a mercator
//! projector, tile-pyramid addressing, a bounded-concurrency download queue
//! with a tile cache, the pan/zoom state machine, and screen-proximity
//! clustering of point markers.
//!
//! All geographic math is carried out in fixed-point integers: positions in
//! millionths of a degree ([`position`], [`mercator`]), screen coordinates in
//! subpixel units ([`projector`]). On those representations projecting is
//! exactly invertible and clustering distances are exact, so the contracts
//! in this crate pin each result down completely.
//!
//! The engine performs no I/O of its own. The host fetches tile imagery
//! ([`download`] tracks the bounded-concurrency queue, [`http_tiles`] owns
//! the per-tile fetch state), persists settings ([`kv`] is the in-memory
//! store), and renders the draw instructions the overlay producers emit
//! ([`places`], [`plugin`]).

pub mod components;
pub mod download;
pub mod frames;
pub mod http_tiles;
pub mod kv;
pub mod memory;
pub mod mercator;
pub mod path;
pub mod places;
pub mod plugin;
pub mod position;
pub mod projector;
pub mod sources;
pub mod tiles;
pub mod viewer;
pub mod zoom;
