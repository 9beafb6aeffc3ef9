//! The parts of the renderer that are plain arithmetic: sizes of offscreen
//! targets, the order of passes, and the indices of quads.

pub mod blur;
pub mod glow;
pub mod images;
