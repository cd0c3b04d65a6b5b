//! Reading upgrade panels out of screenshots.

pub mod cells;
pub mod cluster_laws;
pub mod components;
pub mod engine;
pub mod geometry;
pub mod grid;
pub mod lab;
pub mod lab_laws;
pub mod layout_laws;
pub mod panel_rect;
pub mod pipeline;
pub mod pixel_laws;
pub mod raster;
pub mod reading_laws;
pub mod score;
pub mod score_laws;
pub mod templates;
pub mod trials;
pub mod word_laws;
pub mod words;
