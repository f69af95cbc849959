//! Annotation engine of a screen overlay: stroke capture, aging, input-mode
//! switching and the geometry that turns strokes into line strips.

pub mod geometry;
pub mod store;
pub mod engine;
