//! What the renderer keeps track of between the frames and the graphics card.

pub mod clusters;
pub mod decoration;
pub mod fonts;
pub mod glyphs;
pub mod grid;
pub mod incremental;
pub mod merging;
pub mod shaping;
pub mod stats;
