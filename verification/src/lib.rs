//! An on-demand image transformation core: a reversible codec for transform
//! specifications, a bounded least-recently-used fetch cache, and a pipeline
//! engine that applies an ordered list of pixel operations to a decoded image.

pub mod cache;
pub mod codec;
pub mod engine;
