//! Decoding and storage of the images that a terminal shows.

pub mod accounting;
pub mod compose;
pub mod decode;
pub mod entry;
pub mod laws;
pub mod model;
pub mod placing;
pub mod preview;
pub mod rounding;
pub mod store;
