//! Live CTA 'L' train positions as a static gopher tree.

pub mod atlas;
pub mod braille;
pub mod chargrid;
pub mod fetch;
pub mod gph;
pub mod grid;
pub mod laws;
pub mod narration;
pub mod page;
pub mod pages;
pub mod project;
pub mod protocol;
pub mod raster;
pub mod render;
pub mod server;
pub mod text;
pub mod trainmap;
pub mod transit;
pub mod tree;
