//! Interactive force-directed graph view: the deterministic core.
//!
//! The crate holds the logic of a node-link graph renderer — highlight
//! transitions on hover, zoom-dependent scale resolution, an ambient
//! particle field, colour handling and the multi-pass draw-list builder —
//! with every fractional quantity held in fixed point (see [`fixed`]).
//! The physics layout engine, the drawing surface and all event wiring are
//! collaborators outside this crate: they exchange plain integer values
//! with the functions here.

pub mod fixed;
pub mod particles;
pub mod render;
pub mod scale;
pub mod state;
pub mod theme;
pub mod types;
