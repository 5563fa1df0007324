//! Multi-channel signed distance field atlas library: pixel arithmetic,
//! rectangle packing into texture pages, channel assignment for glyph
//! outlines and the glyph atlas bookkeeping.

pub mod math;
pub mod rect;
pub mod texture;
pub mod clash;
pub mod shape;
pub mod font;
pub mod renderer;
